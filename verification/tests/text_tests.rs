use freshrss_filter::decimal::{parse_i64, signed_decimal, unsigned_decimal};
use freshrss_filter::fences::strip_code_fences;
use freshrss_filter::report::truncate;
use freshrss_filter::text::{char_is_space, same_text};

fn std_strip_code_fences(s: &str) -> String {
    let t = s.trim();
    if t.starts_with("```") {
        let mut lines = t.lines();
        let _first = lines.next();
        let rest: String = lines.collect::<Vec<_>>().join("\n");
        let trimmed = rest.trim_end();
        if trimmed.ends_with("```") {
            return trimmed.trim_end_matches("```").trim().to_string();
        }
        return trimmed.to_string();
    }
    t.to_string()
}

#[test]
fn fences_plain_text_is_trimmed() {
    assert_eq!(strip_code_fences("  {\"is_ad\": true}\n"), "{\"is_ad\": true}");
    assert_eq!(strip_code_fences(""), "");
    assert_eq!(strip_code_fences(" \t\r\n"), "");
}

#[test]
fn fences_block_with_language_tag() {
    let s = "```json\n{\"is_ad\": false, \"confidence\": 0.2, \"reason\": \"x\"}\n```";
    assert_eq!(
        strip_code_fences(s),
        "{\"is_ad\": false, \"confidence\": 0.2, \"reason\": \"x\"}"
    );
}

#[test]
fn fences_block_without_closing_fence() {
    assert_eq!(strip_code_fences("```\n{\"a\": 1}\n"), "{\"a\": 1}");
}

#[test]
fn fences_only_opening_line() {
    assert_eq!(strip_code_fences("```json"), "");
    assert_eq!(strip_code_fences("```"), "");
}

#[test]
fn fences_carriage_returns_leave_with_the_line_ending() {
    assert_eq!(strip_code_fences("```\r\n{\r\n\"a\": 1\r\n}\r\n```\r\n"), "{\n\"a\": 1\n}");
}

#[test]
fn fences_repeated_closing_fences_all_go() {
    assert_eq!(strip_code_fences("```\nabc\n``````"), "abc");
    assert_eq!(strip_code_fences("```\nabc ``` ```"), "abc ```");
}

#[test]
fn fences_agree_with_std_on_samples() {
    let samples = [
        "",
        "x",
        "   x  ",
        "```",
        "````",
        "```\n```",
        "```json\n{}\n```",
        "```json\r\n{}\r\n```\r\n",
        "```\n\n\n{}\n\n```\n\n",
        "```a\nb\rc\n```",
        "```a\n\r\n\r\n```",
        "``\n{}\n```",
        "text ``` inside",
        "```\u{3000}\n\u{a0}body\u{2003}\n```\u{85}",
        "```json\n{\"reason\": \"a\\nb\"}\n```  ```",
        "\n\n```\nline one\nline two\n``` \n",
        "```\n`\n``\n```",
    ];
    for s in samples {
        assert_eq!(strip_code_fences(s), std_strip_code_fences(s), "input {:?}", s);
    }
}

#[test]
fn white_space_agrees_with_std() {
    let mut u: u32 = 0;
    while u < 0x3100 {
        if let Some(c) = char::from_u32(u) {
            assert_eq!(char_is_space(c), c.is_whitespace(), "U+{:04X}", u);
        }
        u += 1;
    }
    assert!(!char_is_space('\u{feff}'));
    assert!(!char_is_space('\u{10ffff}'));
}

#[test]
fn same_text_compares_characters() {
    assert!(same_text("", ""));
    assert!(same_text("label", "label"));
    assert!(!same_text("label", "labels"));
    assert!(!same_text("label", "lebel"));
    assert!(!same_text("", "x"));
}

#[test]
fn truncate_keeps_short_text() {
    assert_eq!(truncate("hello", 5), "hello");
    assert_eq!(truncate("hello", 60), "hello");
    assert_eq!(truncate("", 0), "");
}

#[test]
fn truncate_cuts_and_marks() {
    assert_eq!(truncate("hello world", 5), "hell\u{2026}");
    assert_eq!(truncate("hello", 1), "\u{2026}");
    assert_eq!(truncate("hello", 0), "\u{2026}");
}

#[test]
fn truncate_counts_characters_not_bytes() {
    assert_eq!(truncate("保留已读", 4), "保留已读");
    assert_eq!(truncate("保留已读", 3), "保留\u{2026}");
    assert_eq!(truncate("保留已读", 3).chars().count(), 3);
}

#[test]
fn decimal_writes_like_std() {
    let samples: [i64; 12] = [
        0,
        1,
        -1,
        9,
        10,
        -10,
        99,
        100,
        1234567890,
        -9876543210,
        i64::MAX,
        i64::MIN,
    ];
    for n in samples {
        assert_eq!(signed_decimal(n), n.to_string());
    }
    assert_eq!(unsigned_decimal(0), "0");
    assert_eq!(unsigned_decimal(u64::MAX), "18446744073709551615");
    assert_eq!(unsigned_decimal(1000), "1000");
}

#[test]
fn decimal_reads_like_std() {
    let samples = [
        "",
        "0",
        "-0",
        "+0",
        "+",
        "-",
        "7",
        "+7",
        "-7",
        "007",
        "--7",
        "+-7",
        "7 ",
        " 7",
        "7a",
        "a7",
        "1_000",
        "١٢٣",
        "9223372036854775807",
        "9223372036854775808",
        "-9223372036854775808",
        "-9223372036854775809",
        "+9223372036854775807",
        "99999999999999999999999999999999999999999",
        "-99999999999999999999999999999999999999999",
        "000000000000000000000000000000000000000012",
    ];
    for s in samples {
        assert_eq!(parse_i64(s), s.parse::<i64>().ok(), "input {:?}", s);
    }
}

#[test]
fn decimal_round_trip() {
    let samples: [i64; 7] = [0, 5, -5, 1234, -98765, i64::MAX, i64::MIN];
    for n in samples {
        assert_eq!(parse_i64(&signed_decimal(n)), Some(n));
    }
}

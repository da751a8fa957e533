use freshrss_filter::schedule::{
    minutes_until_due, next_run_in, parse_unsigned_window, read_minute_rule, run_is_due,
    word_bounds, MinuteRule,
};

fn chars(s: &str) -> Vec<char> {
    s.chars().collect()
}

fn words_of(s: &str) -> Vec<String> {
    let cs = chars(s);
    word_bounds(&cs).into_iter().map(|(a, b)| cs[a..b].iter().collect()).collect()
}

#[test]
fn words_agree_with_split_whitespace() {
    let samples = [
        "",
        " ",
        "a",
        " a ",
        "0 */10 * * * *",
        "  0\t*/10\n*  *\u{3000}*   * ",
        "one\u{a0}two\u{2003}three",
        "x\r\ny",
    ];
    for s in samples {
        let expected: Vec<String> = s.split_whitespace().map(|w| w.to_string()).collect();
        assert_eq!(words_of(s), expected, "input {:?}", s);
    }
}

#[test]
fn unsigned_numbers_agree_with_std() {
    let samples = [
        "", "0", "+0", "-0", "7", "+7", "-7", "007", "4294967295", "4294967296", "x", "1x", "+",
        "-", "99999999999999999999",
    ];
    for s in samples {
        let cs = chars(s);
        assert_eq!(parse_unsigned_window(&cs, 0, cs.len()), s.parse::<u32>().ok(), "{:?}", s);
    }
}

fn rule(field: &str) -> MinuteRule {
    let cs = chars(field);
    read_minute_rule(&cs, 0, cs.len())
}

#[test]
fn minute_fields() {
    assert!(matches!(rule("*/10"), MinuteRule::Every { step: 10 }));
    assert!(matches!(rule("*/0"), MinuteRule::Every { step: 0 }));
    assert!(matches!(rule("*/+5"), MinuteRule::Every { step: 5 }));
    assert!(matches!(rule("*/x"), MinuteRule::Any));
    assert!(matches!(rule("*/"), MinuteRule::Any));
    assert!(matches!(rule("15"), MinuteRule::At { minute: 15 }));
    assert!(matches!(rule("75"), MinuteRule::At { minute: 75 }));
    assert!(matches!(rule("*"), MinuteRule::Any));
    assert!(matches!(rule("1,2"), MinuteRule::Any));
    assert!(matches!(rule(""), MinuteRule::Any));
}

#[test]
fn due_minutes() {
    assert!(run_is_due(&MinuteRule::Every { step: 10 }, 0));
    assert!(run_is_due(&MinuteRule::Every { step: 10 }, 50));
    assert!(!run_is_due(&MinuteRule::Every { step: 10 }, 55));
    assert!(!run_is_due(&MinuteRule::Every { step: 0 }, 0));
    assert!(run_is_due(&MinuteRule::At { minute: 7 }, 7));
    assert!(!run_is_due(&MinuteRule::At { minute: 7 }, 8));
    assert!(run_is_due(&MinuteRule::Any, 33));
}

#[test]
fn minutes_to_the_next_due_minute() {
    assert_eq!(minutes_until_due(&MinuteRule::Every { step: 10 }, 0), Some(0));
    assert_eq!(minutes_until_due(&MinuteRule::Every { step: 10 }, 1), Some(9));
    assert_eq!(minutes_until_due(&MinuteRule::Every { step: 10 }, 59), Some(1));
    assert_eq!(minutes_until_due(&MinuteRule::Every { step: 7 }, 57), Some(3));
    assert_eq!(minutes_until_due(&MinuteRule::Every { step: 100 }, 1), Some(59));
    assert_eq!(minutes_until_due(&MinuteRule::Every { step: 0 }, 1), None);
    assert_eq!(minutes_until_due(&MinuteRule::At { minute: 30 }, 45), Some(45));
    assert_eq!(minutes_until_due(&MinuteRule::At { minute: 30 }, 30), Some(0));
    assert_eq!(minutes_until_due(&MinuteRule::At { minute: 60 }, 30), None);
    assert_eq!(minutes_until_due(&MinuteRule::Any, 12), Some(0));
}

#[test]
fn next_run_every_ten_minutes() {
    let cron = "0 */10 * * * *";
    assert_eq!(next_run_in(cron, 0, 0), Some(0));
    assert_eq!(next_run_in(cron, 0, 1), Some(59 + 9 * 60));
    assert_eq!(next_run_in(cron, 9, 30), Some(30));
    assert_eq!(next_run_in(cron, 10, 0), Some(0));
    assert_eq!(next_run_in(cron, 59, 59), Some(1));
    assert_eq!(next_run_in(cron, 53, 0), Some(7 * 60));
}

#[test]
fn next_run_at_a_minute() {
    let cron = "0 15 * * * *";
    assert_eq!(next_run_in(cron, 15, 0), Some(0));
    assert_eq!(next_run_in(cron, 14, 20), Some(40));
    assert_eq!(next_run_in(cron, 15, 1), Some(59 + 59 * 60));
    assert_eq!(next_run_in(cron, 16, 0), Some(59 * 60));
}

#[test]
fn next_run_with_another_minute_field() {
    assert_eq!(next_run_in("0 * * * * *", 5, 0), Some(0));
    assert_eq!(next_run_in("0 * * * * *", 5, 10), Some(50));
    assert_eq!(next_run_in("0 1,2 * * * *", 5, 59), Some(1));
}

#[test]
fn next_run_is_not_read_from_other_expressions() {
    assert_eq!(next_run_in("", 0, 0), None);
    assert_eq!(next_run_in("*/10 * * * *", 0, 0), None);
    assert_eq!(next_run_in("0 */10 * * * * *", 0, 0), None);
    assert_eq!(next_run_in("30 */10 * * * *", 0, 0), None);
    assert_eq!(next_run_in("00 */10 * * * *", 0, 0), None);
    assert_eq!(next_run_in("* */10 * * * *", 0, 0), None);
    assert_eq!(next_run_in("0 */0 * * * *", 0, 0), None);
    assert_eq!(next_run_in("0 60 * * * *", 0, 0), None);
    assert_eq!(next_run_in("0 */10 * * * *", 60, 0), None);
    assert_eq!(next_run_in("0 */10 * * * *", 0, 60), None);
}

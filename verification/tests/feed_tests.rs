use freshrss_filter::confidence::Confidence;
use freshrss_filter::config::{
    default_api_base, default_cron, default_db_path, default_delete_mode, default_model,
    default_spam_label, default_system_prompt, default_threshold, default_user_agent,
    remediation_mode, Config, DatabaseConfig, FreshRssConfig, OpenAiConfig, SchedulerConfig,
};
use freshrss_filter::feed::{
    chunk_ids, compose_item_text, de_i64_from_str_or_int, de_opt_i64_from_str_or_int,
    fever_query, item_text, items_extras, label_tag, mark_read_extras, parse_id_list,
    replace_tags, strip_html,
    FeverItem, FeverItemsResp, RawInteger, FETCH_CHUNK,
};
use freshrss_filter::pipeline::RemediationMode;

fn item(author: Option<&str>, content: Option<&str>, html: Option<&str>) -> FeverItem {
    FeverItem {
        id: 1,
        title: "Title".to_string(),
        url: Some("https://example.org/1".to_string()),
        author: author.map(|s| s.to_string()),
        html: html.map(|s| s.to_string()),
        content: content.map(|s| s.to_string()),
        created_on_time: Some(1700000000),
    }
}

#[test]
fn item_text_of_a_bare_title() {
    assert_eq!(item_text(&item(None, None, None)), "Title");
}

#[test]
fn item_text_puts_the_parts_in_order() {
    assert_eq!(
        item_text(&item(Some("ann"), Some("body"), Some("<p>hi</p>"))),
        "Title\nann\nbody\n hi "
    );
    assert_eq!(item_text(&item(None, Some("body"), None)), "Title\nbody");
    assert_eq!(item_text(&item(Some("ann"), None, None)), "Title\nann");
    assert_eq!(item_text(&item(None, None, Some("a<br/>b"))), "Title\na b");
}

#[test]
fn compose_takes_the_stripped_body_as_given() {
    assert_eq!(
        compose_item_text("T", Some("a"), Some("c"), Some("<kept>")),
        "T\na\nc\n<kept>"
    );
    assert_eq!(compose_item_text("", None, None, None), "");
}

#[test]
fn strip_html_replaces_each_tag_by_a_space() {
    assert_eq!(strip_html("<p>hello</p>"), " hello ");
    assert_eq!(strip_html("no tags"), "no tags");
    assert_eq!(strip_html(""), "");
    assert_eq!(strip_html("a <> b"), "a <> b");
    assert_eq!(strip_html("x<a href=\"u\">y</a>z"), "x y z");
    assert_eq!(strip_html("1 < 2 and 3 > 2"), "1   2");
    assert_eq!(strip_html("<<b>>"), " >");
    assert_eq!(strip_html("<a\nb>c"), " c");
}

#[test]
fn strip_html_agrees_with_the_pattern_engine() {
    let re = regex::Regex::new(r"<[^>]+>").unwrap();
    let samples = ["<div><span>x</span></div>", "<", ">", "<>", "a<b", "a>b<c>d", "<é>ü</é>"];
    for s in samples {
        assert_eq!(strip_html(s), re.replace_all(s, " ").to_string(), "input {:?}", s);
    }
}

#[test]
fn item_text_joins_title_author_and_body_by_newlines() {
    let it = FeverItem {
        id: 1,
        title: "T".to_string(),
        url: None,
        author: Some("A".to_string()),
        html: None,
        content: Some("C".to_string()),
        created_on_time: None,
    };
    assert_eq!(item_text(&it), "T\nA\nC");
}

/// Every text of up to `max` characters over `alphabet`.
fn texts_over(alphabet: &[char], max: usize) -> Vec<String> {
    let mut all = vec![String::new()];
    let mut last = vec![String::new()];
    for _ in 0..max {
        let mut next = Vec::new();
        for t in &last {
            for c in alphabet {
                let mut longer = t.clone();
                longer.push(*c);
                next.push(longer);
            }
        }
        all.extend(next.iter().cloned());
        last = next;
    }
    all
}

#[test]
fn replace_tags_agrees_with_the_pattern_engine() {
    let re = regex::Regex::new(r"<[^>]+>").unwrap();
    for s in texts_over(&['<', '>', 'a', '\n'], 6) {
        assert_eq!(replace_tags(&s), re.replace_all(&s, " ").to_string(), "input {:?}", s);
    }
    for s in ["<é>ü</é>", "x<a href=\"u\">y</a>z", "<<<>>>", "<\u{3000}>", "$1<b>$0", "<$>"] {
        assert_eq!(replace_tags(s), re.replace_all(s, " ").to_string(), "input {:?}", s);
    }
}

#[test]
fn strip_html_is_replace_tags() {
    for s in texts_over(&['<', '>', 'a'], 4) {
        assert_eq!(strip_html(&s), replace_tags(&s), "input {:?}", s);
    }
}

#[test]
fn no_tag_is_left_after_stripping() {
    let re = regex::Regex::new(r"<[^>]+>").unwrap();
    for s in texts_over(&['<', '>', 'a'], 6) {
        let stripped = replace_tags(&s);
        assert!(!re.is_match(&stripped), "input {:?} gave {:?}", s, stripped);
        assert_eq!(replace_tags(&stripped), stripped);
    }
}

#[test]
fn fever_queries() {
    assert_eq!(fever_query(""), "api");
    assert_eq!(fever_query("unread_item_ids"), "api&unread_item_ids");
    assert_eq!(fever_query(&mark_read_extras(15)), "api&mark=item&as=read&id=15");
}

#[test]
fn items_extras_join_the_ids() {
    let ids: Vec<i64> = vec![3, -4, 50];
    assert_eq!(items_extras(&ids, 0, 3), "items&with_ids=3,-4,50");
    assert_eq!(items_extras(&ids, 1, 2), "items&with_ids=-4");
    assert_eq!(items_extras(&ids, 1, 3), "items&with_ids=-4,50");
    assert_eq!(items_extras(&ids, 2, 2), "items&with_ids=");
}

#[test]
fn mark_read_extras_name_the_item() {
    assert_eq!(mark_read_extras(0), "mark=item&as=read&id=0");
    assert_eq!(mark_read_extras(-9), "mark=item&as=read&id=-9");
    assert_eq!(mark_read_extras(i64::MAX), "mark=item&as=read&id=9223372036854775807");
}

#[test]
fn label_tags() {
    assert_eq!(label_tag("Ads"), "user/-/label/Ads");
    assert_eq!(label_tag(""), "user/-/label/");
}

fn std_id_list(s: &str) -> Vec<i64> {
    s.split(',').filter_map(|s| s.trim().parse::<i64>().ok()).collect()
}

#[test]
fn id_list_reads_the_entries() {
    assert_eq!(parse_id_list("1,2,3"), vec![1, 2, 3]);
    assert_eq!(parse_id_list(""), Vec::<i64>::new());
    assert_eq!(parse_id_list(" 7 , 8 "), vec![7, 8]);
    assert_eq!(parse_id_list("1,,x,2,"), vec![1, 2]);
    assert_eq!(parse_id_list("-5,+6"), vec![-5, 6]);
}

#[test]
fn id_list_agrees_with_std() {
    let samples = [
        "",
        ",",
        ",,,",
        "1",
        "1,",
        ",1",
        "1,2,3",
        " 1 ,\t2\n,\u{3000}3\u{a0}",
        "a,b,c",
        "1 2,3",
        "9223372036854775807,9223372036854775808,-9223372036854775808",
        "1000000000000000000000000,5",
        "0x10,010,+,-,--1",
    ];
    for s in samples {
        assert_eq!(parse_id_list(s), std_id_list(s), "input {:?}", s);
    }
}

#[test]
fn chunks_of_fifty() {
    assert_eq!(FETCH_CHUNK, 50);
    let ids: Vec<i64> = (0..120).collect();
    let chunks = chunk_ids(&ids, FETCH_CHUNK);
    assert_eq!(chunks.len(), 3);
    assert_eq!(chunks[0], (0..50).collect::<Vec<i64>>());
    assert_eq!(chunks[1], (50..100).collect::<Vec<i64>>());
    assert_eq!(chunks[2], (100..120).collect::<Vec<i64>>());
}

#[test]
fn chunks_agree_with_std() {
    for len in [0usize, 1, 2, 49, 50, 51, 99, 100, 101] {
        for size in [1usize, 2, 7, 50, 1000] {
            let ids: Vec<i64> = (0..len as i64).collect();
            let expected: Vec<Vec<i64>> = ids.chunks(size).map(|c| c.to_vec()).collect();
            assert_eq!(chunk_ids(&ids, size), expected, "len {} size {}", len, size);
        }
    }
}

#[test]
fn raw_integers() {
    assert_eq!(de_i64_from_str_or_int(&RawInteger::Signed { signed: -3 }), Some(-3));
    assert_eq!(de_i64_from_str_or_int(&RawInteger::Unsigned { unsigned: 3 }), Some(3));
    assert_eq!(
        de_i64_from_str_or_int(&RawInteger::Unsigned { unsigned: u64::MAX }),
        Some(u64::MAX as i64)
    );
    assert_eq!(
        de_i64_from_str_or_int(&RawInteger::Unsigned { unsigned: 1 << 63 }),
        Some(i64::MIN)
    );
    assert_eq!(
        de_i64_from_str_or_int(&RawInteger::Unsigned { unsigned: i64::MAX as u64 }),
        Some(i64::MAX)
    );
    assert_eq!(de_i64_from_str_or_int(&RawInteger::Text { text: "12".to_string() }), Some(12));
    assert_eq!(de_i64_from_str_or_int(&RawInteger::Text { text: "x".to_string() }), None);
    assert_eq!(de_i64_from_str_or_int(&RawInteger::Text { text: " 12".to_string() }), None);
}

#[test]
fn optional_raw_integers() {
    assert_eq!(de_opt_i64_from_str_or_int(None), Some(None));
    assert_eq!(
        de_opt_i64_from_str_or_int(Some(&RawInteger::Text { text: "5".to_string() })),
        Some(Some(5))
    );
    assert_eq!(
        de_opt_i64_from_str_or_int(Some(&RawInteger::Text { text: "".to_string() })),
        None
    );
}

#[test]
fn items_response_holds_items() {
    let resp = FeverItemsResp { items: vec![item(None, None, None)] };
    assert_eq!(resp.items.len(), 1);
    assert_eq!(resp.items[0].id, 1);
}

#[test]
fn defaults() {
    assert_eq!(default_api_base(), "https://api.openai.com/v1");
    assert_eq!(default_model(), "gpt-4o-mini");
    assert_eq!(
        default_system_prompt(),
        "You are a strict classifier. Decide if an RSS item is an advertisement or sponsored content. Reply JSON: {\"is_ad\": boolean, \"confidence\": 0..1, \"reason\": string}."
    );
    assert_eq!(f32::from_bits(default_threshold().to_bits()), 0.5);
    assert_eq!(default_user_agent(), "freshrss-filter/0.1");
    assert_eq!(default_delete_mode(), "mark_read");
    assert_eq!(default_spam_label(), "Ads");
    assert_eq!(default_cron(), "0 */10 * * * *");
    assert_eq!(default_db_path(), "freshrss-filter.db");
}

fn config(api_base: &str, model: &str, agent: &str, cron: &str, path: &str) -> Config {
    Config {
        openai: OpenAiConfig {
            api_key: "k".to_string(),
            api_base: api_base.to_string(),
            model: model.to_string(),
            temperature: Some(0.25f32.to_bits()),
            max_tokens: Some(100),
            system_prompt: "p".to_string(),
            threshold: Confidence::from_bits(0.7f32.to_bits()),
        },
        freshrss: FreshRssConfig {
            base_url: "https://rss.example.org".to_string(),
            fever_api_key: "f".to_string(),
            user_agent: agent.to_string(),
            delete_mode: "label".to_string(),
            greader_username: Some("u".to_string()),
            greader_password: None,
            spam_label: "Spam".to_string(),
        },
        scheduler: SchedulerConfig { cron: cron.to_string() },
        database: DatabaseConfig { path: path.to_string() },
        dry_run: false,
    }
}

#[test]
fn empty_settings_get_their_defaults() {
    let filled = config("", "", "", "", "").fill_defaults();
    assert_eq!(filled.openai.api_base, "https://api.openai.com/v1");
    assert_eq!(filled.openai.model, "gpt-4o-mini");
    assert_eq!(filled.freshrss.user_agent, "freshrss-filter/0.1");
    assert_eq!(filled.scheduler.cron, "0 */10 * * * *");
    assert_eq!(filled.database.path, "freshrss-filter.db");
    assert_eq!(filled.openai.api_key, "k");
    assert_eq!(filled.openai.system_prompt, "p");
    assert_eq!(filled.openai.temperature, Some(0.25f32.to_bits()));
    assert_eq!(filled.openai.max_tokens, Some(100));
    assert_eq!(filled.freshrss.delete_mode, "label");
    assert_eq!(filled.freshrss.spam_label, "Spam");
    assert!(!filled.dry_run);
}

#[test]
fn set_settings_stay() {
    let filled = config("b", "m", "a", "c", "p").fill_defaults();
    assert_eq!(filled.openai.api_base, "b");
    assert_eq!(filled.openai.model, "m");
    assert_eq!(filled.freshrss.user_agent, "a");
    assert_eq!(filled.scheduler.cron, "c");
    assert_eq!(filled.database.path, "p");
}

#[test]
fn override_switches_the_dry_run_on_only() {
    assert!(config("b", "m", "a", "c", "p").with_overrides(true).dry_run);
    assert!(!config("b", "m", "a", "c", "p").with_overrides(false).dry_run);
    let mut already = config("b", "m", "a", "c", "p");
    already.dry_run = true;
    assert!(already.with_overrides(false).dry_run);
}

#[test]
fn remediation_modes() {
    assert_eq!(remediation_mode("mark_read"), RemediationMode::MarkRead);
    assert_eq!(remediation_mode("label"), RemediationMode::Label);
    assert_eq!(remediation_mode("delete"), RemediationMode::Other);
    assert_eq!(remediation_mode(""), RemediationMode::Other);
    assert_eq!(remediation_mode("Mark_Read"), RemediationMode::Other);
}

#[test]
fn policy_reads_the_settings() {
    let cfg = config("b", "m", "a", "c", "p").with_overrides(true);
    assert!(!cfg.freshrss.has_labeler());
    let policy = cfg.policy(true);
    assert_eq!(policy.threshold.to_bits(), 0.7f32.to_bits());
    assert!(policy.dry_run);
    assert_eq!(policy.mode, RemediationMode::Label);
    assert!(policy.labeler);
    assert_eq!(policy.spam_label, "Spam");
    assert!(!cfg.policy(false).labeler);
}

#[test]
fn labeler_needs_both_credentials() {
    let mut cfg = config("b", "m", "a", "c", "p");
    assert!(!cfg.freshrss.has_labeler());
    cfg.freshrss.greader_password = Some("pw".to_string());
    assert!(cfg.freshrss.has_labeler());
    cfg.freshrss.greader_username = None;
    assert!(!cfg.freshrss.has_labeler());
}

use freshrss_filter::confidence::{Confidence, HALF_BITS, INFINITY_BITS, ONE_BITS, SIGN_BIT};
use freshrss_filter::reply::{
    completions_url, extract_content, is_success, parse_classifier_response, ClassifyError,
    CompletionReply, ParsedVerdicts,
};
use freshrss_filter::verdict::{choose_verdict, ClassifierResponse};

fn conf(x: f32) -> Confidence {
    Confidence::from_bits(x.to_bits())
}

fn verdict(is_ad: bool, confidence: f32, reason: &str) -> ClassifierResponse {
    ClassifierResponse { is_ad, confidence: conf(confidence), reason: reason.to_string() }
}

fn sample_floats() -> Vec<f32> {
    vec![
        0.0,
        -0.0,
        f32::MIN_POSITIVE,
        -f32::MIN_POSITIVE,
        f32::from_bits(1),
        f32::from_bits(SIGN_BIT + 1),
        0.1,
        0.49999997,
        0.5,
        0.50000006,
        0.9,
        0.99,
        1.0,
        -1.0,
        2.5,
        -2.5,
        f32::MAX,
        f32::MIN,
        f32::INFINITY,
        f32::NEG_INFINITY,
        f32::NAN,
        -f32::NAN,
        f32::from_bits(0x7f80_0001),
        f32::from_bits(0xff80_0001),
    ]
}

#[test]
fn constants_are_the_patterns_they_name() {
    assert_eq!(HALF_BITS, 0.5f32.to_bits());
    assert_eq!(ONE_BITS, 1.0f32.to_bits());
    assert_eq!(INFINITY_BITS, f32::INFINITY.to_bits());
    assert_eq!(SIGN_BIT, (-0.0f32).to_bits());
}

#[test]
fn at_least_agrees_with_float_comparison() {
    for a in sample_floats() {
        for b in sample_floats() {
            assert_eq!(conf(a).at_least(&conf(b)), a >= b, "{:?} >= {:?}", a, b);
        }
    }
}

#[test]
fn total_before_agrees_with_total_order() {
    for a in sample_floats() {
        for b in sample_floats() {
            assert_eq!(
                conf(a).total_before(&conf(b)),
                a.total_cmp(&b) == std::cmp::Ordering::Less,
                "{:?} before {:?}",
                a,
                b
            );
        }
    }
}

#[test]
fn nan_is_recognised() {
    for a in sample_floats() {
        assert_eq!(conf(a).is_nan(), a.is_nan(), "{:?}", a);
    }
}

#[test]
fn threshold_boundary_is_inclusive() {
    let threshold = conf(0.5);
    assert!(verdict(true, 0.5, "r").is_actionable(&threshold));
    let below = f32::from_bits(0.5f32.to_bits() - 1);
    assert!(below < 0.5);
    assert!(!verdict(true, below, "r").is_actionable(&threshold));
    let above = f32::from_bits(0.5f32.to_bits() + 1);
    assert!(verdict(true, above, "r").is_actionable(&threshold));
}

#[test]
fn threshold_boundary_at_the_ends_of_the_range() {
    let zero = conf(0.0);
    assert!(verdict(true, 0.0, "r").is_actionable(&zero));
    assert!(verdict(true, -0.0, "r").is_actionable(&zero));
    assert!(!verdict(true, -f32::from_bits(1), "r").is_actionable(&zero));
    let one = conf(1.0);
    assert!(verdict(true, 1.0, "r").is_actionable(&one));
    assert!(!verdict(true, f32::from_bits(1.0f32.to_bits() - 1), "r").is_actionable(&one));
}

#[test]
fn not_an_ad_is_never_actionable() {
    assert!(!verdict(false, 1.0, "r").is_actionable(&conf(0.0)));
    assert!(!verdict(false, 0.99, "r").is_actionable(&conf(0.5)));
}

#[test]
fn nan_is_never_actionable() {
    assert!(!verdict(true, f32::NAN, "r").is_actionable(&conf(0.5)));
    assert!(!verdict(true, 0.9, "r").is_actionable(&conf(f32::NAN)));
}

#[test]
fn list_prefers_the_ad() {
    let list = vec![verdict(true, 0.9, "ad"), verdict(false, 0.99, "not ad")];
    let chosen = choose_verdict(&list).unwrap();
    assert!(chosen.is_ad);
    assert_eq!(chosen.confidence.to_bits(), 0.9f32.to_bits());
    assert_eq!(chosen.reason, "ad");
    let list = vec![verdict(false, 0.99, "not ad"), verdict(true, 0.9, "ad")];
    let chosen = choose_verdict(&list).unwrap();
    assert!(chosen.is_ad);
    assert_eq!(chosen.reason, "ad");
}

#[test]
fn list_takes_the_most_confident_ad() {
    let list = vec![
        verdict(true, 0.3, "a"),
        verdict(false, 0.95, "b"),
        verdict(true, 0.8, "c"),
        verdict(true, 0.7, "d"),
    ];
    assert_eq!(choose_verdict(&list).unwrap().reason, "c");
}

#[test]
fn list_without_ads_takes_the_most_confident() {
    let list = vec![verdict(false, 0.3, "a"), verdict(false, 0.95, "b"), verdict(false, 0.8, "c")];
    let chosen = choose_verdict(&list).unwrap();
    assert!(!chosen.is_ad);
    assert_eq!(chosen.reason, "b");
}

#[test]
fn list_takes_the_last_of_equals() {
    let list = vec![verdict(true, 0.8, "first"), verdict(true, 0.8, "second")];
    assert_eq!(choose_verdict(&list).unwrap().reason, "second");
    let list = vec![verdict(false, 0.0, "plus"), verdict(false, -0.0, "minus")];
    assert_eq!(choose_verdict(&list).unwrap().reason, "plus");
}

#[test]
fn list_agrees_with_max_by() {
    let values = sample_floats();
    let mut list: Vec<ClassifierResponse> = Vec::new();
    let mut plain: Vec<(bool, f32, String)> = Vec::new();
    for (i, x) in values.iter().enumerate() {
        let is_ad = i % 3 == 0;
        list.push(verdict(is_ad, *x, &format!("r{}", i)));
        plain.push((is_ad, *x, format!("r{}", i)));
    }
    let expected = plain.iter().filter(|r| r.0).max_by(|a, b| a.1.total_cmp(&b.1)).unwrap();
    assert_eq!(choose_verdict(&list).unwrap().reason, expected.2);
    let none_ads: Vec<ClassifierResponse> =
        plain.iter().map(|r| verdict(false, r.1, &r.2)).collect();
    let expected = plain.iter().max_by(|a, b| a.1.total_cmp(&b.1)).unwrap();
    assert_eq!(choose_verdict(&none_ads).unwrap().reason, expected.2);
}

#[test]
fn empty_list_gives_nothing() {
    let list: Vec<ClassifierResponse> = Vec::new();
    assert!(choose_verdict(&list).is_none());
}

#[test]
fn duplicate_copies_every_field() {
    let v = verdict(true, 0.25, "why");
    let d = v.duplicate();
    assert_eq!(d.is_ad, v.is_ad);
    assert_eq!(d.confidence, v.confidence);
    assert_eq!(d.reason, v.reason);
}

#[test]
fn completions_url_drops_trailing_slashes() {
    assert_eq!(
        completions_url("https://api.openai.com/v1"),
        "https://api.openai.com/v1/chat/completions"
    );
    assert_eq!(
        completions_url("https://api.openai.com/v1///"),
        "https://api.openai.com/v1/chat/completions"
    );
    assert_eq!(completions_url(""), "/chat/completions");
    assert_eq!(completions_url("/"), "/chat/completions");
}

#[test]
fn success_is_the_two_hundreds() {
    assert!(!is_success(199));
    assert!(is_success(200));
    assert!(is_success(204));
    assert!(is_success(299));
    assert!(!is_success(300));
    assert!(!is_success(404));
    assert!(!is_success(0));
}

fn reply(status: u16, error: Option<&str>, content: Option<&str>) -> CompletionReply {
    CompletionReply {
        status,
        error: error.map(|e| e.to_string()),
        body: "{\"whole\":true}".to_string(),
        content: content.map(|c| c.to_string()),
    }
}

#[test]
fn error_member_wins_over_status() {
    match extract_content(reply(200, Some("{\"message\":\"quota\"}"), Some("{}"))) {
        Err(ClassifyError::Api { status, body }) => {
            assert_eq!(status, 200);
            assert_eq!(body, "{\"message\":\"quota\"}");
        }
        other => panic!("unexpected {:?}", other),
    }
}

#[test]
fn failure_status_reports_the_whole_answer() {
    match extract_content(reply(503, None, Some("{}"))) {
        Err(ClassifyError::Api { status, body }) => {
            assert_eq!(status, 503);
            assert_eq!(body, "{\"whole\":true}");
        }
        other => panic!("unexpected {:?}", other),
    }
}

#[test]
fn content_is_unfenced() {
    let content = extract_content(reply(200, None, Some("```json\n{\"is_ad\":true}\n```"))).unwrap();
    assert_eq!(content.raw, "```json\n{\"is_ad\":true}\n```");
    assert_eq!(content.stripped, "{\"is_ad\":true}");
}

#[test]
fn missing_content_stands_for_an_empty_object() {
    let content = extract_content(reply(200, None, None)).unwrap();
    assert_eq!(content.raw, "{}");
    assert_eq!(content.stripped, "{}");
}

#[test]
fn single_verdict_is_taken_as_it_is() {
    let parsed = ParsedVerdicts::Single { verdict: verdict(false, 0.1, "plain") };
    let v = parse_classifier_response(parsed, "raw").unwrap();
    assert!(!v.is_ad);
    assert_eq!(v.confidence.to_bits(), 0.1f32.to_bits());
    assert_eq!(v.reason, "plain");
}

#[test]
fn list_of_two_resolves_to_the_ad() {
    let parsed = ParsedVerdicts::List {
        verdicts: vec![verdict(true, 0.9, "ad"), verdict(false, 0.99, "not")],
    };
    let v = parse_classifier_response(parsed, "raw").unwrap();
    assert!(v.is_ad);
    assert_eq!(v.confidence.to_bits(), 0.9f32.to_bits());
}

#[test]
fn empty_list_is_a_failure() {
    let parsed = ParsedVerdicts::List { verdicts: Vec::new() };
    let error = parse_classifier_response(parsed, "[]").unwrap_err();
    assert!(matches!(error, ClassifyError::EmptyList { .. }));
    assert_eq!(error.message(), "parse_classifier_response_failed: empty array raw=[]");
}

#[test]
fn unparsable_content_is_a_failure() {
    let parsed = ParsedVerdicts::Invalid {
        object_error: "expected value".to_string(),
        list_error: "expected array".to_string(),
    };
    let error = parse_classifier_response(parsed, "oops").unwrap_err();
    assert!(matches!(error, ClassifyError::Unparsable { .. }));
    assert_eq!(
        error.message(),
        "parse_classifier_response_failed: expected value (array_parse_error: expected array) raw=oops"
    );
}

#[test]
fn api_error_message() {
    let error = ClassifyError::Api { status: 429, body: "{\"m\":1}".to_string() };
    assert_eq!(error.message(), "openai_error: status=429 body={\"m\":1}");
}

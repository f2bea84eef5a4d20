use ruclei::dsl::eval_dsl_bool;
use ruclei::matcher::MatcherEngine;
use ruclei::scanner::HttpResponse;
use ruclei::template::Matcher;
use ruclei::time::TimeSpan;

fn make_response(status: u16, body: &str) -> HttpResponse {
    let h = vec![
        ("content-type".to_string(), "text/html; charset=utf-8".to_string()),
        ("x-powered-by".to_string(), "PHP/7.4".to_string()),
    ];
    HttpResponse::new(
        status,
        h,
        body.to_string(),
        body.len() as u64,
        TimeSpan::from_millis(50),
        "https://example.com".to_string(),
    )
}

#[test]
fn test_status_matcher() {
    let mut e = MatcherEngine::new();
    let r = e
        .evaluate_matchers(
            &[Matcher { matcher_type: "status".to_string(), status: Some(vec![200]), ..Default::default() }],
            "or",
            &make_response(200, "ok"),
        )
        .unwrap();
    assert!(r.matched);
}

#[test]
fn test_matchers_condition_and_fails_when_one_misses() {
    let mut e = MatcherEngine::new();
    let resp = make_response(200, "hello");
    let matchers = vec![
        Matcher { matcher_type: "status".to_string(), status: Some(vec![200]), ..Default::default() },
        Matcher {
            matcher_type: "word".to_string(),
            words: Some(vec!["NOTHERE".to_string()]),
            ..Default::default()
        },
    ];
    let r = e.evaluate_matchers(&matchers, "and", &resp).unwrap();
    assert!(!r.matched, "AND condition: both must match");

    let r = e.evaluate_matchers(&matchers, "or", &resp).unwrap();
    assert!(r.matched, "OR condition: status matches so overall true");
}

#[test]
fn test_word_and_condition() {
    let mut e = MatcherEngine::new();
    let resp = make_response(200, "hello world");
    let m = Matcher {
        matcher_type: "word".to_string(),
        words: Some(vec!["hello".to_string(), "world".to_string()]),
        condition: Some("and".to_string()),
        ..Default::default()
    };
    assert!(e.evaluate_matchers(&[m], "or", &resp).unwrap().matched);
}

#[test]
fn test_dsl_contains_body() {
    let resp = make_response(200, "vulnerability found in system");
    assert!(eval_dsl_bool("contains(body, \"vulnerability\")", &resp));
    assert!(!eval_dsl_bool("contains(body, \"xyznotfound\")", &resp));
}

#[test]
fn test_dsl_status_code() {
    let resp = make_response(200, "ok");
    assert!(eval_dsl_bool("status_code == 200", &resp));
    assert!(!eval_dsl_bool("status_code == 404", &resp));
    assert!(eval_dsl_bool("status_code != 404", &resp));
}

#[test]
fn test_dsl_not_contains() {
    let resp = make_response(200, "hello world");
    assert!(eval_dsl_bool("!contains(body, \"notpresent\")", &resp));
    assert!(!eval_dsl_bool("!contains(body, \"hello\")", &resp));
}

#[test]
fn test_negative_matcher() {
    let mut e = MatcherEngine::new();
    let resp = make_response(200, "ok");
    let m = Matcher {
        matcher_type: "status".to_string(),
        status: Some(vec![404]),
        negative: Some(true),
        ..Default::default()
    };
    assert!(e.evaluate_matchers(&[m], "or", &resp).unwrap().matched);
}

#[test]
fn negation_flips_each_verdict() {
    let mut e = MatcherEngine::new();
    let resp = make_response(200, "ok");
    let plain = Matcher { matcher_type: "status".to_string(), status: Some(vec![200]), ..Default::default() };
    let negated = Matcher { negative: Some(true), ..plain.clone() };
    assert!(e.evaluate_matchers(&[plain], "or", &resp).unwrap().matched);
    assert!(!e.evaluate_matchers(&[negated], "or", &resp).unwrap().matched);
}

#[test]
fn no_matchers_never_match() {
    let mut e = MatcherEngine::new();
    let resp = make_response(200, "ok");
    assert!(!e.evaluate_matchers(&[], "and", &resp).unwrap().matched);
    assert!(!e.evaluate_matchers(&[], "or", &resp).unwrap().matched);
}

#[test]
fn first_matching_matcher_names_the_match() {
    let mut e = MatcherEngine::new();
    let resp = make_response(200, "hello world");
    let matchers = vec![
        Matcher {
            matcher_type: "status".to_string(),
            status: Some(vec![404]),
            name: Some("missing".to_string()),
            ..Default::default()
        },
        Matcher {
            matcher_type: "word".to_string(),
            words: Some(vec!["world".to_string(), "absent".to_string()]),
            name: Some("greeting".to_string()),
            ..Default::default()
        },
    ];
    let r = e.evaluate_matchers(&matchers, "or", &resp).unwrap();
    assert!(r.matched);
    assert_eq!(r.matcher_name, Some("greeting".to_string()));
    assert_eq!(r.matched_values, vec!["world".to_string()]);
}

#[test]
fn size_matcher_counts_body_bytes() {
    let mut e = MatcherEngine::new();
    let resp = make_response(200, "héllo");
    let m = Matcher { matcher_type: "size".to_string(), size: Some(vec![6]), ..Default::default() };
    let r = e.evaluate_matchers(&[m], "or", &resp).unwrap();
    assert!(r.matched);
    assert_eq!(r.matched_values, vec!["6".to_string()]);
}

#[test]
fn regex_matcher_on_headers() {
    let mut e = MatcherEngine::new();
    let resp = make_response(200, "ok");
    let m = Matcher {
        matcher_type: "regex".to_string(),
        part: Some("header".to_string()),
        regex: Some(vec!["PHP/[0-9.]+".to_string()]),
        ..Default::default()
    };
    assert!(e.evaluate_matchers(&[m], "or", &resp).unwrap().matched);
}

#[test]
fn invalid_regex_is_an_error() {
    let mut e = MatcherEngine::new();
    let resp = make_response(200, "ok");
    let m = Matcher {
        matcher_type: "regex".to_string(),
        regex: Some(vec!["(unclosed".to_string()]),
        ..Default::default()
    };
    assert!(e.evaluate_matchers(&[m], "or", &resp).is_err());
}

#[test]
fn binary_matcher_finds_hex_bytes() {
    let mut e = MatcherEngine::new();
    let resp = make_response(200, "hello");
    let m = Matcher {
        matcher_type: "binary".to_string(),
        binary: Some(vec!["68656c6c6f".to_string()]),
        ..Default::default()
    };
    assert!(e.evaluate_matchers(&[m], "or", &resp).unwrap().matched);
}

#[test]
fn unsupported_matcher_type_is_an_error() {
    let mut e = MatcherEngine::new();
    let resp = make_response(200, "ok");
    let m = Matcher { matcher_type: "telepathy".to_string(), ..Default::default() };
    assert!(e.evaluate_matchers(&[m], "or", &resp).is_err());
}

#[test]
fn missing_status_list_is_an_error() {
    let mut e = MatcherEngine::new();
    let resp = make_response(200, "ok");
    let m = Matcher { matcher_type: "status".to_string(), ..Default::default() };
    assert!(e.evaluate_matchers(&[m], "or", &resp).is_err());
}

#[test]
fn dsl_lone_quote_argument_is_false() {
    let resp = make_response(200, "say \"hi\"");
    assert!(!eval_dsl_bool("contains(body, \")", &resp));
    assert!(!eval_dsl_bool("len(') > 0", &resp));
    assert!(!eval_dsl_bool("\" == body", &resp));
    assert!(eval_dsl_bool("!(\" == body)", &resp));
    let mut e = MatcherEngine::new();
    let m = Matcher { matcher_type: "dsl".to_string(), dsl: Some(vec!["contains(body, \")".to_string()]), ..Default::default() };
    assert!(!e.evaluate_matchers(&[m], "or", &resp).unwrap().matched);
}

#[test]
fn dsl_unrecognised_expression_is_false() {
    let resp = make_response(200, "ok");
    assert!(!eval_dsl_bool("frobnicate(body)", &resp));
    assert!(eval_dsl_bool("TRUE", &resp));
}

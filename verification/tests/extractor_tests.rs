use ruclei::extractor::ExtractorEngine;
use ruclei::scanner::HttpResponse;
use ruclei::template::Extractor;
use ruclei::time::TimeSpan;

fn create_test_response(body: &str) -> HttpResponse {
    let headers = vec![
        ("Content-Type".to_string(), "application/json".to_string()),
        ("X-Custom-Header".to_string(), "custom-value".to_string()),
    ];
    HttpResponse::new(
        200,
        headers,
        body.to_string(),
        body.len() as u64,
        TimeSpan::from_millis(100),
        "https://example.com".to_string(),
    )
}

#[test]
fn test_regex_extraction() {
    let mut engine = ExtractorEngine::new();
    let response = create_test_response("Version: 1.2.3, Build: 456");
    let extractor = Extractor {
        extractor_type: "regex".to_string(),
        name: Some("version".to_string()),
        regex: Some(vec![r"Version: (\d+\.\d+\.\d+)".to_string()]),
        ..Default::default()
    };
    let result = engine.extract_single(&extractor, &response).unwrap();
    assert!(result.has_values());
    assert_eq!(result.extracted_values, vec!["1.2.3"]);
}

#[test]
fn test_kval_header_extraction() {
    let mut engine = ExtractorEngine::new();
    let response = create_test_response("test body");
    let extractor = Extractor {
        extractor_type: "kval".to_string(),
        name: Some("custom_header".to_string()),
        part: Some("header".to_string()),
        kval: Some(vec!["X-Custom-Header".to_string()]),
        ..Default::default()
    };
    let result = engine.extract_single(&extractor, &response).unwrap();
    assert!(result.has_values());
    assert_eq!(result.extracted_values, vec!["custom-value"]);
}

#[test]
fn test_json_extraction() {
    let mut engine = ExtractorEngine::new();
    let json_body = r#"{"user": {"name": "John", "age": 30}, "status": "active"}"#;
    let response = create_test_response(json_body);
    let extractor = Extractor {
        extractor_type: "json".to_string(),
        name: Some("username".to_string()),
        json: Some(vec!["user.name".to_string()]),
        ..Default::default()
    };
    let result = engine.extract_single(&extractor, &response).unwrap();
    assert!(result.has_values());
    assert_eq!(result.extracted_values, vec!["John"]);
}

#[test]
fn test_dsl_extraction() {
    let mut engine = ExtractorEngine::new();
    let response = create_test_response("test body");
    let extractor = Extractor {
        extractor_type: "dsl".to_string(),
        name: Some("status".to_string()),
        dsl: Some(vec!["status_code".to_string()]),
        ..Default::default()
    };
    let result = engine.extract_single(&extractor, &response).unwrap();
    assert!(result.has_values());
    assert_eq!(result.extracted_values, vec!["200"]);
}

#[test]
fn regex_group_selects_one_capture() {
    let mut engine = ExtractorEngine::new();
    let response = create_test_response("a=1 b=2 a=3");
    let extractor = Extractor {
        regex: Some(vec![r"(\w)=(\d)".to_string()]),
        group: Some(2),
        ..Default::default()
    };
    let result = engine.extract_single(&extractor, &response).unwrap();
    assert_eq!(result.extracted_values, vec!["1", "2", "3"]);
}

#[test]
fn regex_without_groups_gives_whole_matches() {
    let mut engine = ExtractorEngine::new();
    let response = create_test_response("id 12 and 345");
    let extractor = Extractor { regex: Some(vec![r"\d+".to_string()]), ..Default::default() };
    let result = engine.extract_single(&extractor, &response).unwrap();
    assert_eq!(result.extracted_values, vec!["12", "345"]);
}

#[test]
fn invalid_pattern_fails_the_extractor() {
    let mut engine = ExtractorEngine::new();
    let response = create_test_response("x");
    let extractor = Extractor { regex: Some(vec!["[".to_string()]), ..Default::default() };
    assert!(engine.extract_single(&extractor, &response).is_err());
}

#[test]
fn missing_lists_are_errors() {
    let mut engine = ExtractorEngine::new();
    let response = create_test_response("x");
    for t in ["regex", "kval", "json", "dsl"] {
        let extractor = Extractor { extractor_type: t.to_string(), ..Default::default() };
        assert!(engine.extract_single(&extractor, &response).is_err());
    }
    let unknown = Extractor { extractor_type: "css".to_string(), ..Default::default() };
    assert!(engine.extract_single(&unknown, &response).is_err());
}

#[test]
fn xpath_finds_nothing() {
    let mut engine = ExtractorEngine::new();
    let response = create_test_response("<a>1</a>");
    let extractor = Extractor {
        extractor_type: "xpath".to_string(),
        xpath: Some(vec!["//a".to_string()]),
        ..Default::default()
    };
    let result = engine.extract_single(&extractor, &response).unwrap();
    assert!(!result.has_values());
}

#[test]
fn kval_reads_key_value_lines_of_the_body() {
    let mut engine = ExtractorEngine::new();
    let response = create_test_response("first line\n  token=abc123; path=/\nuser: bob\nsep = spaced\n");
    let extractor = Extractor {
        extractor_type: "kval".to_string(),
        kval: Some(vec!["token".to_string(), "user".to_string(), "absent".to_string(), "sep".to_string()]),
        ..Default::default()
    };
    let result = engine.extract_single(&extractor, &response).unwrap();
    assert_eq!(result.extracted_values, vec!["abc123", "bob", "="]);
}

#[test]
fn json_array_index_and_compound_values() {
    let mut engine = ExtractorEngine::new();
    let response = create_test_response(r#"{"items": [{"id": 7}, {"id": 8}], "ok": true, "none": null}"#);
    let extractor = Extractor {
        extractor_type: "json".to_string(),
        json: Some(vec![
            "items.[1].id".to_string(),
            "ok".to_string(),
            "none".to_string(),
            "items.[0]".to_string(),
            "missing".to_string(),
        ]),
        ..Default::default()
    };
    let result = engine.extract_single(&extractor, &response).unwrap();
    assert_eq!(result.extracted_values, vec!["8", "true", "null", "{\"id\":7}"]);
}

#[test]
fn json_reversed_brackets_are_refused_by_the_checked_entry() {
    let mut engine = ExtractorEngine::new();
    let response = create_test_response(r#"{"items": [1, 2]}"#);
    let extractor = Extractor {
        extractor_type: "json".to_string(),
        json: Some(vec!["items.]0[".to_string()]),
        ..Default::default()
    };
    assert!(engine.try_extract_all(&[extractor], &response).is_none());
}

#[test]
fn dsl_extraction_of_headers_and_lengths() {
    let mut engine = ExtractorEngine::new();
    let response = create_test_response("body text");
    let extractor = Extractor {
        extractor_type: "dsl".to_string(),
        dsl: Some(vec![
            "content_length".to_string(),
            "header[content-type]".to_string(),
            "body".to_string(),
            "unknown".to_string(),
        ]),
        ..Default::default()
    };
    let result = engine.extract_single(&extractor, &response).unwrap();
    assert_eq!(result.extracted_values, vec!["9", "application/json", "body text"]);
}

#[test]
fn extract_all_names_unnamed_results_and_replaces_same_names() {
    let mut engine = ExtractorEngine::new();
    let response = create_test_response("v=1");
    let unnamed = Extractor { regex: Some(vec![r"v=(\d)".to_string()]), ..Default::default() };
    let named = Extractor {
        name: Some("extractor_0".to_string()),
        extractor_type: "dsl".to_string(),
        dsl: Some(vec!["status_code".to_string()]),
        ..Default::default()
    };
    let empty = Extractor { regex: Some(vec!["zzz".to_string()]), ..Default::default() };
    let out = engine.extract_all(&[unnamed, empty, named], &response).unwrap();
    assert_eq!(out, vec![("extractor_0".to_string(), vec!["200".to_string()])]);
}

#[test]
fn cache_keeps_compiled_patterns() {
    let mut engine = ExtractorEngine::new();
    let response = create_test_response("a");
    let e = Extractor { regex: Some(vec!["a".to_string(), "b".to_string()]), ..Default::default() };
    engine.extract_single(&e, &response).unwrap();
    engine.extract_single(&e, &response).unwrap();
    let (n, cap) = engine.cache_stats();
    assert_eq!(n, 2);
    assert!(cap >= 2);
    engine.clear_cache();
    assert_eq!(engine.cache_stats().0, 0);
}

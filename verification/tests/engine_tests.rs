use ruclei::cli::{output_format_from, parse_header_arg, parse_target_list, Config, OutputFormat};
use ruclei::engine::{
    apply_config_headers, build_base_url, build_scan_request, evaluate_response, format_text,
    matched_results, plan_requests, resolve_path, ScanStats, TemplateVars,
};
use ruclei::extractor::ExtractorEngine;
use ruclei::matcher::MatcherEngine;
use ruclei::raw_request::build_vars;
use ruclei::scanner::{HttpResponse, ScanRequest, ScanResult};
use ruclei::template::{Extractor, Info, Matcher, Request, TagsValue, Template};
use ruclei::time::TimeSpan;

fn template(id: &str, severity: &str, tags: Option<TagsValue>) -> Template {
    Template {
        id: id.to_string(),
        info: Info {
            name: format!("{} name", id),
            author: vec!["me".to_string()],
            severity: severity.to_string(),
            description: None,
            tags,
            remediation: None,
        },
        requests: vec![Request::default()],
        http: Vec::new(),
        dns: Vec::new(),
        network: Vec::new(),
    }
}

fn response(status: u16, body: &str) -> HttpResponse {
    HttpResponse::new(status, Vec::new(), body.to_string(), body.len() as u64, TimeSpan::from_millis(5), "https://a.com".to_string())
}

#[test]
fn base_url_gets_a_scheme_and_loses_trailing_slashes() {
    assert_eq!(build_base_url("example.com/"), "https://example.com");
    assert_eq!(build_base_url("http://example.com//"), "http://example.com");
    assert_eq!(build_base_url("https://example.com/app"), "https://example.com/app");
}

#[test]
fn base_url_of_a_base_url_is_itself() {
    for t in ["example.com/", "http://a.org//", "https://b.net/app/"] {
        let b = build_base_url(t);
        assert_eq!(build_base_url(&b), b);
    }
}

#[test]
fn paths_resolve_against_the_base_url() {
    let base = "https://example.com";
    let vars = build_vars(base);
    assert_eq!(resolve_path("{{BaseURL}}/login", base, &vars), "https://example.com/login");
    assert_eq!(resolve_path("/admin", base, &vars), "https://example.com/admin");
    assert_eq!(resolve_path("///", base, &vars), "https://example.com");
    assert_eq!(resolve_path("{{Hostname}}", "https://example.com/", &[]), "https://example.com/example.com");
    assert_eq!(resolve_path("http://x.org/{{Port}}", base, &[]), "http://x.org/443");
}

#[test]
fn scan_request_merges_headers_and_redirect_policy() {
    let mut config = Config::default();
    config.headers = vec![("A".to_string(), "1".to_string()), ("B".to_string(), "2".to_string())];
    config.max_redirects = 7;
    let req = Request {
        method: None,
        headers: Some(vec![("B".to_string(), "template".to_string())]),
        body: Some("payload".to_string()),
        redirects: Some(false),
        max_redirects: None,
        ..Request::default()
    };
    let s = build_scan_request("https://a.com/x", &req, &config);
    assert_eq!(s.method, "GET");
    assert_eq!(s.headers, vec![("A".to_string(), "1".to_string()), ("B".to_string(), "template".to_string())]);
    assert_eq!(s.body, Some("payload".to_string()));
    assert!(!s.follow_redirects);
    assert_eq!(s.max_redirects, 7);
}

#[test]
fn config_headers_do_not_replace_raw_headers() {
    let mut config = Config::default();
    config.headers = vec![("Host".to_string(), "cfg".to_string()), ("X".to_string(), "y".to_string())];
    let raw = ScanRequest::new("https://a.com".to_string()).with_headers(vec![("Host".to_string(), "raw".to_string())]);
    let out = apply_config_headers(raw, &Request::default(), &config);
    assert_eq!(out.headers, vec![("Host".to_string(), "raw".to_string()), ("X".to_string(), "y".to_string())]);
    assert!(out.follow_redirects);
    assert_eq!(out.max_redirects, 3);
}

#[test]
fn planning_uses_paths_then_raw_requests_then_the_base_url() {
    let config = Config::default();
    let base = "https://a.com";
    let vars = build_vars(base);
    let with_paths = Request { path: vec!["/x".to_string(), "{{BaseURL}}/y".to_string()], ..Request::default() };
    let planned = plan_requests(&with_paths, base, &vars, &config);
    let urls: Vec<String> = planned.iter().map(|r| r.url.clone()).collect();
    assert_eq!(urls, vec!["https://a.com/x".to_string(), "https://a.com/y".to_string()]);

    let with_raw = Request {
        path: Vec::new(),
        raw_request: vec!["   ".to_string(), "POST /p HTTP/1.1\nHost: {{Hostname}}\n\nq=1".to_string()],
        ..Request::default()
    };
    let planned = plan_requests(&with_raw, base, &vars, &config);
    assert_eq!(planned.len(), 1);
    assert_eq!(planned[0].method, "POST");
    assert_eq!(planned[0].headers, vec![("Host".to_string(), "a.com".to_string())]);
    assert_eq!(planned[0].body, Some("q=1".to_string()));

    let bare = Request { path: Vec::new(), ..Request::default() };
    let planned = plan_requests(&bare, base, &vars, &config);
    assert_eq!(planned.len(), 1);
    assert_eq!(planned[0].url, base);
}

#[test]
fn evaluation_runs_extractors_only_after_a_match() {
    let mut me = MatcherEngine::new();
    let mut ee = ExtractorEngine::new();
    let extractor = Extractor { regex: Some(vec!["v(\\d)".to_string()]), name: Some("v".to_string()), ..Default::default() };
    let req = Request {
        matchers: Some(vec![Matcher { status: Some(vec![200]), name: Some("ok".to_string()), ..Default::default() }]),
        extractors: Some(vec![extractor]),
        ..Request::default()
    };
    let sr = ScanRequest::new("https://a.com".to_string());
    let ev = evaluate_response(&mut me, &mut ee, &req, sr.clone(), response(200, "v7"), "t".to_string()).unwrap();
    assert!(ev.result.matched);
    assert_eq!(ev.result.matcher_name, Some("ok".to_string()));
    assert_eq!(ev.result.extracted_data, vec![("v".to_string(), vec!["7".to_string()])]);
    assert!(ev.matcher_error.is_none() && ev.extractor_error.is_none());

    let ev = evaluate_response(&mut me, &mut ee, &req, sr, response(500, "v7"), "t".to_string()).unwrap();
    assert!(!ev.result.matched);
    assert!(ev.result.extracted_data.is_empty());
}

#[test]
fn evaluation_hands_back_matcher_errors() {
    let mut me = MatcherEngine::new();
    let mut ee = ExtractorEngine::new();
    let req = Request {
        matchers: Some(vec![Matcher { matcher_type: "word".to_string(), ..Default::default() }]),
        ..Request::default()
    };
    let ev = evaluate_response(&mut me, &mut ee, &req, ScanRequest::new("u".to_string()), response(200, ""), "t".to_string()).unwrap();
    assert!(!ev.result.matched);
    assert!(ev.matcher_error.is_some());
}

#[test]
fn text_report_of_matched_results() {
    let templates = vec![template("t1", "high", None)];
    let mut hit = ScanResult::new(ScanRequest::new("https://a.com/x".to_string()), response(200, ""), "t1".to_string())
        .with_match(None);
    hit = hit.with_extracted_data(vec![("k".to_string(), vec!["a".to_string(), "b".to_string()])]);
    let miss = ScanResult::new(ScanRequest::new("https://a.com/y".to_string()), response(404, ""), "t1".to_string());
    let other = ScanResult::new(ScanRequest::new("https://b.com".to_string()), response(200, ""), "zz".to_string()).with_match(None);
    let all = vec![hit, miss, other];
    let matched = matched_results(&all);
    assert_eq!(matched.len(), 2);
    let text = format_text(&matched, &templates);
    assert_eq!(text, "[HIGH] [t1] t1 name [https://a.com/x]\n  k: a, b\n\n[] [zz]  [https://b.com]\n\n");
}

#[test]
fn template_vars_and_substitution() {
    let v = TemplateVars::from_url("https://example.com:8443/base").unwrap();
    assert_eq!(v.hostname, "example.com:8443");
    assert_eq!(v.root_url, "https://example.com:8443");
    assert_eq!(v.port, "8443");
    assert_eq!(v.substitute("{{Scheme}}://{{host}}{{Path}} {{RootURL}}"), "https://example.com/base https://example.com:8443");
    assert!(TemplateVars::from_url("::nonsense").is_err());
}

#[test]
fn stats_start_at_zero() {
    let s = ScanStats::default();
    assert_eq!(s.total_requests + s.matches_found + s.cache_hits, 0);
    assert!(s.duration.is_zero());
}

#[test]
fn filters_select_templates() {
    let tagged = template("cve-1", "HIGH", Some(TagsValue::Text("CVE, rce".to_string())));
    let untagged = template("misc", "info", None);
    let mut c = Config::default();
    assert!(c.should_include_template(&tagged) && c.should_include_template(&untagged));
    c.severity_filter = Some(vec!["high".to_string(), "critical".to_string()]);
    assert!(c.should_include_template(&tagged));
    assert!(!c.should_include_template(&untagged));
    c.severity_filter = None;
    c.tag_filter = Some(vec!["Rc".to_string()]);
    assert!(c.should_include_template(&tagged));
    assert!(!c.should_include_template(&untagged));
    c.tag_filter = None;
    c.include_templates = Some(vec!["misc".to_string()]);
    assert!(!c.should_include_template(&tagged));
    c.include_templates = None;
    c.exclude_templates = Some(vec!["misc".to_string()]);
    assert!(!c.should_include_template(&untagged));
    assert!(c.should_include_template(&tagged));
}

#[test]
fn config_defaults_and_flags() {
    let mut c = Config::default();
    assert_eq!(c.get_delay().as_millis(), 100);
    assert_eq!(c.timeout.as_millis(), 30_000);
    assert_eq!(c.user_agent, "ruclei/1.0");
    assert_eq!(c.max_cache_size, 1000);
    c.verbose = true;
    assert!(c.is_verbose());
    c.silent = true;
    assert!(!c.is_verbose() && c.is_silent());
}

#[test]
fn command_line_pieces() {
    assert_eq!(output_format_from("json"), OutputFormat::Json);
    assert_eq!(output_format_from("yaml"), OutputFormat::Yaml);
    assert_eq!(output_format_from("xml"), OutputFormat::Text);
    assert_eq!(parse_header_arg(" Authorization :  Bearer x:y "), Some(("Authorization".to_string(), "Bearer x:y".to_string())));
    assert_eq!(parse_header_arg("novalue"), None);
    assert_eq!(
        parse_target_list("https://a.com\n\n# comment\n  b.org  \r\n"),
        vec!["https://a.com".to_string(), "b.org".to_string()]
    );
}

use ruclei::cluster::RequestCluster;
use ruclei::output::{extracted_summary, finding_label, severity_tag, SeverityColor};
use ruclei::rate_limit::RateLimiter;
use ruclei::scanner::http_client::{next_retry, received_response, retry_delay};
use ruclei::scanner::{HttpResponse, ScanRequest};
use ruclei::template::cache::{cache_directory, compute_fingerprint, TemplateCache};
use ruclei::template::parser::{file_extension, strip_digest_lines, TemplateError, TemplateParser};
use ruclei::template::{Info, Request, Template};
use ruclei::time::TimeSpan;

fn response(body: &str) -> HttpResponse {
    HttpResponse::new(200, Vec::new(), body.to_string(), body.len() as u64, TimeSpan::from_millis(1), "u".to_string())
}

fn bare_template(id: &str, name: &str, http: usize, dns_only: bool) -> Template {
    Template {
        id: id.to_string(),
        info: Info {
            name: name.to_string(),
            author: Vec::new(),
            severity: "info".to_string(),
            description: None,
            tags: None,
            remediation: None,
        },
        requests: Vec::new(),
        http: (0..http).map(|_| Request::default()).collect(),
        dns: if dns_only {
            vec![ruclei::template::DnsRequest {
                name: None,
                record_type: None,
                class: None,
                retries: None,
                matchers: None,
                extractors: None,
            }]
        } else {
            Vec::new()
        },
        network: Vec::new(),
    }
}

#[test]
fn digest_lines_are_dropped() {
    let text = "id: t3\n  # digest: abc123:xyz456\nname: x\r\n# digest: more";
    assert_eq!(strip_digest_lines(text), "id: t3\nname: x");
    assert_eq!(strip_digest_lines("a\n#digest b"), "a\n#digest b");
}

#[test]
fn template_files_by_extension() {
    let p = TemplateParser::new(TemplateCache::new(None, None));
    assert!(p.is_template_file("a.yaml"));
    assert!(p.is_template_file("b.tar.yml"));
    assert!(!p.is_template_file(".yaml"));
    assert!(!p.is_template_file("notes.txt"));
    assert_eq!(file_extension("archive."), Some(String::new()));
    assert_eq!(file_extension("plain"), None);
    assert!(!p.no_cache);
    assert!(p.with_no_cache().no_cache);
}

#[test]
fn template_validation() {
    let p = TemplateParser::new(TemplateCache::new(None, None));
    assert_eq!(p.validate_template(&bare_template("", "n", 1, false)), Err(TemplateError::MissingId));
    assert_eq!(p.validate_template(&bare_template("t", "", 1, false)), Err(TemplateError::MissingName("t".to_string())));
    assert_eq!(p.validate_template(&bare_template("t", "n", 0, false)), Err(TemplateError::NoRequests("t".to_string())));
    assert_eq!(p.validate_template(&bare_template("t", "n", 0, true)), Err(TemplateError::NoHttpRequests("t".to_string())));
    assert_eq!(p.validate_template(&bare_template("t", "n", 2, true)), Ok(()));
}

#[test]
fn cache_locations() {
    assert_eq!(cache_directory(Some("/x/".to_string()), Some("/home/u".to_string())), "/x/ruclei");
    assert_eq!(cache_directory(None, Some("/home/u".to_string())), "/home/u/.cache/ruclei");
    assert_eq!(cache_directory(None, None), "/tmp/ruclei-cache");
    let c = TemplateCache::new(None, Some("/h".to_string()));
    assert_eq!(c.cache_path("abc-2"), "/h/.cache/ruclei/templates-abc-2.json");
    assert!(c.is_current("0.2.0", "f", "f"));
    assert!(!c.is_current("0.1.0", "f", "f"));
    assert!(!c.is_current("0.2.0", "f", "g"));
    assert!(c.is_cache_file("templates-1.json"));
    assert!(!c.is_cache_file("notes.txt"));
}

#[test]
fn fingerprints() {
    assert_eq!(compute_fingerprint(Vec::new()), None);
    let a = vec![("b.yaml".to_string(), 1, 2), ("a.yaml".to_string(), 3, 4)];
    let b = vec![("a.yaml".to_string(), 3, 4), ("b.yaml".to_string(), 1, 2)];
    let fa = compute_fingerprint(a).unwrap();
    let fb = compute_fingerprint(b).unwrap();
    assert_eq!(fa, fb);
    assert_eq!(fa.len(), 18);
    assert!(fa.ends_with("-2"));
    let c = vec![("a.yaml".to_string(), 3, 5), ("b.yaml".to_string(), 1, 2)];
    assert_ne!(compute_fingerprint(c).unwrap(), fa);
}

#[test]
fn finding_text() {
    assert_eq!(finding_label("cve-1", Some("m")), "[cve-1:m]");
    assert_eq!(finding_label("cve-1", Some("")), "[cve-1]");
    assert_eq!(finding_label("cve-1", None), "[cve-1]");
    let (tag, color, bold) = severity_tag("HIGH");
    assert_eq!(tag, "[high]");
    assert_eq!(color, SeverityColor::Red);
    assert!(bold);
    let (tag, color, bold) = severity_tag("odd");
    assert_eq!(tag, "[odd]");
    assert_eq!(color, SeverityColor::White);
    assert!(!bold);
    let data = vec![
        ("v".to_string(), vec!["1".to_string(), "2".to_string()]),
        ("w".to_string(), Vec::new()),
    ];
    assert_eq!(extracted_summary(&data), "[v=\"1,2\"] [w=\"\"]");
    assert_eq!(extracted_summary(&[]), "");
}

#[test]
fn received_headers_are_lowercased_first_readable_wins() {
    let raw = vec![
        ("Set-Cookie".to_string(), None),
        ("Set-Cookie".to_string(), Some("a=1".to_string())),
        ("set-cookie".to_string(), Some("b=2".to_string())),
        ("Server".to_string(), Some("nginx".to_string())),
    ];
    let r = received_response(301, &raw, "héllo".to_string(), TimeSpan::from_millis(3), "https://x".to_string());
    assert_eq!(r.headers, vec![("set-cookie".to_string(), "a=1".to_string()), ("server".to_string(), "nginx".to_string())]);
    assert_eq!(r.content_length, 6);
    assert!(r.is_redirect());
}

#[test]
fn retry_pauses_double() {
    assert_eq!(retry_delay(0).as_millis(), 100);
    assert_eq!(retry_delay(3).as_millis(), 800);
    assert_eq!(next_retry(2, 3).map(|d| d.as_millis()), Some(400));
    assert_eq!(next_retry(3, 3), None);
}

#[test]
fn response_queries() {
    let r = HttpResponse::new(
        404,
        vec![("Content-Type".to_string(), "Text/HTML; charset=utf-8".to_string())],
        "one two\nthree\n".to_string(),
        14,
        TimeSpan::from_millis(1),
        "u".to_string(),
    );
    assert!(r.is_client_error() && !r.is_success() && !r.is_server_error());
    assert!(r.is_html() && !r.is_json() && !r.is_xml());
    assert_eq!(r.content_type(), Some(&"Text/HTML; charset=utf-8".to_string()));
    assert_eq!(r.get_header("content-type"), r.content_type());
    assert_eq!(r.word_count(), 3);
    assert_eq!(r.line_count(), 2);
    assert_eq!(r.body_size(), 14);
    assert_eq!(r.headers_string(), "Content-Type: Text/HTML; charset=utf-8");
    assert_eq!(r.full_response(), "Content-Type: Text/HTML; charset=utf-8\n\none two\nthree\n");
}

#[test]
fn stored_response_is_found_again_and_eviction_keeps_newest() {
    let mut c = RequestCluster::new();
    let a = ScanRequest::new("https://a.com/1".to_string());
    let b = ScanRequest::new("https://a.com/2".to_string());
    let d = ScanRequest::new("https://a.com/3".to_string());
    c.store_and_evict(&a, response("a"), 2);
    c.store_and_evict(&b, response("b"), 2);
    assert_eq!(c.cache_size(), 2);
    c.store_and_evict(&d, response("d"), 2);
    assert_eq!(c.cache_size(), 1);
    assert!(c.is_cached(&d) && !c.is_cached(&a) && !c.is_cached(&b));
    assert_eq!(c.get_cached_response(&d).unwrap().body, "d");
    let s = c.stats();
    assert_eq!(s.cache_hits + s.cache_misses, s.total_requests);
}

#[test]
fn cluster_key_ignores_client_headers_and_method_case() {
    let plain = ScanRequest::new("https://a.com/x".to_string());
    let with_ua = ScanRequest::new("https://a.com/x".to_string())
        .with_headers(vec![("USER-AGENT".to_string(), "bot".to_string())])
        .with_method("get".to_string());
    assert!(RequestCluster::would_cluster(&plain, &with_ua));
    let other = ScanRequest::new("https://a.com/x".to_string()).with_headers(vec![("X".to_string(), "1".to_string())]);
    assert!(!RequestCluster::would_cluster(&plain, &other));
}

#[test]
fn full_window_waits_for_oldest_and_min_delay_spaces_requests() {
    let mut rl = RateLimiter::with_window(2, TimeSpan::from_millis(1000), TimeSpan::from_millis(10));
    assert_eq!(rl.acquire_at(0).as_nanos(), 0);
    assert_eq!(rl.acquire_at(50_000_000).as_nanos(), 0);
    // the window holds two requests: the next waits until the first leaves it
    assert_eq!(rl.acquire_at(100_000_000).as_nanos(), 900_000_000);

    let mut spaced = RateLimiter::with_window(10, TimeSpan::from_millis(1000), TimeSpan::from_millis(100));
    assert_eq!(spaced.acquire_at(0).as_nanos(), 0);
    assert_eq!(spaced.acquire_at(30_000_000).as_nanos(), 70_000_000);
}

#[test]
fn cluster_key_ignores_header_order() {
    let a = ScanRequest::new("https://a.com/x".to_string()).with_headers(vec![
        ("X-One".to_string(), "1".to_string()),
        ("Accept".to_string(), "*/*".to_string()),
    ]);
    let b = ScanRequest::new("https://a.com/x".to_string()).with_headers(vec![
        ("Accept".to_string(), "*/*".to_string()),
        ("X-One".to_string(), "1".to_string()),
    ]);
    assert_eq!(a.cluster_key(), b.cluster_key());
}

#[test]
fn fingerprint_follows_modification_times() {
    let a = compute_fingerprint(vec![("t.yaml".to_string(), 100, 7)]).unwrap();
    let b = compute_fingerprint(vec![("t.yaml".to_string(), 101, 7)]).unwrap();
    let c = compute_fingerprint(vec![("u.yaml".to_string(), 100, 7)]).unwrap();
    assert_ne!(a, b);
    assert_ne!(a, c);
    assert_eq!(a, compute_fingerprint(vec![("t.yaml".to_string(), 100, 7)]).unwrap());
}

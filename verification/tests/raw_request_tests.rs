use ruclei::raw_request::{build_vars, parse_raw_request};

fn header<'a>(headers: &'a [(String, String)], name: &str) -> Option<&'a String> {
    headers.iter().find(|(k, _)| k == name).map(|(_, v)| v)
}

#[test]
fn test_parse_simple_get() {
    let raw = "GET /api/status HTTP/1.1\nHost: example.com\n\n";
    let vars = vec![("Hostname".to_string(), "example.com".to_string())];
    let req = parse_raw_request(raw, "https://example.com", &vars).unwrap();
    assert_eq!(req.method, "GET");
    assert_eq!(req.url, "https://example.com/api/status");
    assert_eq!(header(&req.headers, "Host"), Some(&"example.com".to_string()));
}

#[test]
fn test_parse_post_with_body() {
    let raw = "POST /login HTTP/1.1\nHost: target.com\nContent-Type: application/json\n\n{\"user\":\"admin\"}";
    let vars = Vec::new();
    let req = parse_raw_request(raw, "https://target.com", &vars).unwrap();
    assert_eq!(req.method, "POST");
    assert_eq!(req.body, Some("{\"user\":\"admin\"}".to_string()));
}

#[test]
fn test_variable_substitution() {
    let raw = "GET / HTTP/1.1\nHost: {{Hostname}}\n\n";
    let vars = vec![("Hostname".to_string(), "test.example.com".to_string())];
    let req = parse_raw_request(raw, "https://test.example.com", &vars).unwrap();
    assert_eq!(header(&req.headers, "Host"), Some(&"test.example.com".to_string()));
}

#[test]
fn empty_raw_request_is_an_error() {
    assert!(parse_raw_request("  \r\n \n", "https://a.com", &[]).is_err());
}

#[test]
fn crlf_lines_relative_target_and_repeated_header() {
    let raw = "PUT  item  HTTP/1.1\r\nX-A: 1\r\nbad line\r\nX-A: 2\r\n\r\n\nbody";
    let req = parse_raw_request(raw, "https://h.com//", &[]).unwrap();
    assert_eq!(req.method, "PUT");
    assert_eq!(req.url, "https://h.com/");
    assert_eq!(req.headers, vec![("X-A".to_string(), "2".to_string())]);
    assert_eq!(req.body, Some("body".to_string()));
}

#[test]
fn absolute_target_is_kept() {
    let raw = "GET http://other.org/x HTTP/1.1";
    let req = parse_raw_request(raw, "https://h.com", &[]).unwrap();
    assert_eq!(req.url, "http://other.org/x");
    assert!(req.headers.is_empty());
    assert_eq!(req.body, None);
}

#[test]
fn variables_of_a_url_with_a_port() {
    let vars = build_vars("http://example.com:8080/app");
    let get = |k: &str| header(&vars, k).cloned();
    assert_eq!(get("BaseURL"), Some("http://example.com:8080/app".to_string()));
    assert_eq!(get("RootURL"), Some("http://example.com:8080".to_string()));
    assert_eq!(get("Hostname"), Some("example.com:8080".to_string()));
    assert_eq!(get("Host"), Some("example.com".to_string()));
    assert_eq!(get("Port"), Some("8080".to_string()));
    assert_eq!(get("Path"), Some("/app".to_string()));
    assert_eq!(get("Scheme"), Some("http".to_string()));
    assert_eq!(vars.len(), 10);
}

#[test]
fn variables_of_a_default_port_url() {
    let vars = build_vars("https://example.com");
    assert_eq!(header(&vars, "Hostname"), Some(&"example.com".to_string()));
    assert_eq!(header(&vars, "Port"), Some(&"443".to_string()));
    assert!(build_vars("not a url").is_empty());
}

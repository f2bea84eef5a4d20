use ruclei::cluster::RequestCluster;
use ruclei::scanner::{HttpResponse, ScanRequest};
use ruclei::time::TimeSpan;

fn create_test_response() -> HttpResponse {
    HttpResponse::new(
        200,
        Vec::new(),
        "test body".to_string(),
        9,
        TimeSpan::from_millis(100),
        "https://example.com".to_string(),
    )
}

#[test]
fn test_request_clustering() {
    let mut cluster = RequestCluster::new();
    let request = ScanRequest::new("https://example.com".to_string());
    let response = create_test_response();

    // Initially not cached
    assert!(!cluster.is_cached(&request));
    assert!(cluster.get_cached_response(&request).is_none());

    // Cache the response
    cluster.cache_response(&request, response.clone());

    // Now should be cached
    assert!(cluster.is_cached(&request));
    let cached = cluster.get_cached_response(&request).unwrap();
    assert_eq!(cached.status, response.status);
    assert_eq!(cached.body, response.body);
}

#[test]
fn test_get_or_execute() {
    let mut cluster = RequestCluster::new();
    let request = ScanRequest::new("https://example.com".to_string());
    let expected_response = create_test_response();

    let mut call_count = 0;
    let executor = |_req: &ScanRequest| -> anyhow::Result<HttpResponse> {
        call_count += 1;
        Ok(expected_response.clone())
    };

    // First call should execute
    let response1 = cluster.get_or_execute(&request, executor).unwrap();
    assert_eq!(call_count, 1);
    assert_eq!(response1.status, expected_response.status);

    // Second call should use cache
    let response2 = cluster
        .get_or_execute(&request, |_| {
            call_count += 1;
            Ok::<HttpResponse, anyhow::Error>(create_test_response())
        })
        .unwrap();
    assert_eq!(call_count, 1); // Should not increment
    assert_eq!(response2.status, expected_response.status);
}

#[test]
fn test_would_cluster() {
    let req1 = ScanRequest::new("https://example.com".to_string());
    let req2 = ScanRequest::new("https://example.com".to_string());
    let req3 = ScanRequest::new("https://different.com".to_string());

    assert!(RequestCluster::would_cluster(&req1, &req2));
    assert!(!RequestCluster::would_cluster(&req1, &req3));
}

#[test]
fn test_cluster_stats() {
    let mut cluster = RequestCluster::new();
    let request = ScanRequest::new("https://example.com".to_string());
    let response = create_test_response();

    // Miss
    assert!(cluster.get_cached_response(&request).is_none());
    assert_eq!(cluster.stats().cache_misses, 1);
    assert_eq!(cluster.stats().cache_hits, 0);

    // Cache and hit
    cluster.cache_response(&request, response);
    let _cached = cluster.get_cached_response(&request);
    assert_eq!(cluster.stats().cache_hits, 1);
    assert_eq!(cluster.stats().cache_misses, 1);

    // Hit rate should be 50%
    let s = cluster.stats();
    assert_eq!(s.cache_hits as f64 / s.total_requests as f64, 0.5);
}

#[test]
fn cleanup_drops_least_recently_stored() {
    let mut cluster = RequestCluster::new();
    let a = ScanRequest::new("https://a.com/a".to_string());
    let b = ScanRequest::new("https://a.com/b".to_string());
    cluster.cache_response(&a, create_test_response());
    cluster.cache_response(&b, create_test_response());
    cluster.cache_response(&a, create_test_response());
    cluster.cleanup(1);
    assert!(cluster.is_cached(&a));
    assert!(!cluster.is_cached(&b));
    assert_eq!(cluster.cache_size(), 1);
    let patterns = cluster.get_request_patterns();
    assert_eq!(patterns, vec![a.cluster_key()]);
}

#[test]
fn counters_cover_lookups_and_cached_keys() {
    let mut cluster = RequestCluster::new();
    for i in 0..4 {
        let r = ScanRequest::new(format!("https://a.com/{}", i % 3));
        let _ = cluster.get_cached_response(&r);
        cluster.cache_response(&r, create_test_response());
    }
    let s = cluster.stats();
    assert_eq!(s.cache_hits + s.cache_misses, s.total_requests);
    assert_eq!(s.unique_requests, 3);
    assert!(s.unique_requests as usize >= cluster.cache_size());
    cluster.cleanup(1);
    let s = cluster.stats();
    assert!(s.unique_requests as usize >= cluster.cache_size());
}

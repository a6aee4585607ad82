use open_gateway::metrics::GatewayMetrics;

#[test]
fn test_normalize_path() {
    assert_eq!(
        GatewayMetrics::normalize_path("/api/users/123"),
        "/api/users/:id"
    );
    assert_eq!(
        GatewayMetrics::normalize_path("/api/users/abc123def456"),
        "/api/users/:uuid"
    );
    assert_eq!(GatewayMetrics::normalize_path("/api/users"), "/api/users");
}

#[test]
fn test_normalize_path_idempotent() {
    for p in [
        "/api/users/123",
        "/api/users/abc123def456",
        "/",
        "",
        "/a//b/0042/deadbeef99",
    ] {
        let once = GatewayMetrics::normalize_path(p);
        let twice = GatewayMetrics::normalize_path(&once);
        assert_eq!(once, twice, "normalizing {} twice changed the result", p);
    }
}

#[test]
fn test_normalize_hex_needs_eight_chars() {
    // Seven hex characters stay; eight become :uuid.
    assert_eq!(GatewayMetrics::normalize_path("/x/abc12def"), "/x/:uuid");
    assert_eq!(GatewayMetrics::normalize_path("/x/abc12de"), "/x/abc12de");
}

#[test]
fn test_counters() {
    let mut metrics = GatewayMetrics::new();
    assert_eq!(metrics.total_requests(), 0);
    assert_eq!(metrics.total_errors(), 0);

    metrics.record_request(200);
    assert_eq!(metrics.total_requests(), 1);
    assert_eq!(metrics.total_errors(), 0);

    metrics.record_request(500);
    assert_eq!(metrics.total_requests(), 2);
    assert_eq!(metrics.total_errors(), 1);

    metrics.record_request(404);
    assert_eq!(metrics.total_requests(), 3);
    assert_eq!(metrics.total_errors(), 2);

    metrics.record_request(399);
    assert_eq!(metrics.total_requests(), 4);
    assert_eq!(metrics.total_errors(), 2);
}

#[test]
fn test_error_status_boundary() {
    assert!(!open_gateway::is_error_status(200));
    assert!(!open_gateway::is_error_status(399));
    assert!(open_gateway::is_error_status(400));
    assert!(open_gateway::is_error_status(502));
}

use open_gateway::proxy::{
    extract_api_key_pool_from_query, extract_host_from_url, is_hop_by_hop_header, ProxyRoute,
};

fn create_test_route() -> ProxyRoute {
    ProxyRoute {
        name: None,
        path_pattern: "/api/*".to_string(),
        target: "http://localhost:8081".to_string(),
        strip_prefix: true,
        methods: vec![],
        api_key_pool: None,
        headers: Vec::new(),
        description: Some("Test route".to_string()),
    }
}

#[test]
fn test_route_matching() {
    let route = create_test_route();

    assert!(route.matches("/api/users", "GET"));
    assert!(route.matches("/api/users/1", "POST"));
    assert!(route.matches("/api", "GET"));
    assert!(!route.matches("/other/path", "GET"));
}

#[test]
fn test_method_filtering() {
    let route = ProxyRoute {
        methods: vec!["GET".to_string(), "POST".to_string()],
        ..create_test_route()
    };

    assert!(route.matches("/api/users", "GET"));
    assert!(route.matches("/api/users", "POST"));
    assert!(!route.matches("/api/users", "DELETE"));
}

#[test]
fn test_target_url_with_strip_prefix() {
    let route = create_test_route();

    assert_eq!(
        route.get_target_url("/api/users", None),
        "http://localhost:8081/users"
    );
    assert_eq!(
        route.get_target_url("/api/users/1", None),
        "http://localhost:8081/users/1"
    );
    assert_eq!(
        route.get_target_url("/api/users", Some("page=1")),
        "http://localhost:8081/users?page=1"
    );
}

#[test]
fn test_target_url_without_strip_prefix() {
    let route = ProxyRoute {
        strip_prefix: false,
        ..create_test_route()
    };

    assert_eq!(
        route.get_target_url("/api/users", None),
        "http://localhost:8081/api/users"
    );
}

#[test]
fn test_extract_host_from_url() {
    // HTTP URL without port
    assert_eq!(
        extract_host_from_url("http://example.com/path"),
        Some("example.com".to_string())
    );

    // HTTP URL with port
    assert_eq!(
        extract_host_from_url("http://localhost:8080/path"),
        Some("localhost:8080".to_string())
    );

    // HTTPS URL without port
    assert_eq!(
        extract_host_from_url("https://api.example.com/v1/users"),
        Some("api.example.com".to_string())
    );

    // HTTPS URL with port
    assert_eq!(
        extract_host_from_url("https://api.example.com:443/v1/users"),
        Some("api.example.com:443".to_string())
    );

    // Relative path (no authority)
    assert_eq!(extract_host_from_url("/just/a/path"), None);
}

#[test]
fn test_host_header_is_hop_by_hop() {
    // Host header should be considered hop-by-hop so it's not forwarded from client
    assert!(is_hop_by_hop_header("host"));
    assert!(is_hop_by_hop_header("Host"));
    assert!(is_hop_by_hop_header("HOST"));
}

#[test]
fn test_all_hop_by_hop_names_any_case() {
    for name in [
        "connection",
        "keep-alive",
        "proxy-authenticate",
        "proxy-authorization",
        "te",
        "trailers",
        "transfer-encoding",
        "upgrade",
        "host",
    ] {
        assert!(is_hop_by_hop_header(name), "{} should be hop-by-hop", name);
        assert!(
            is_hop_by_hop_header(&name.to_uppercase()),
            "{} uppercased should be hop-by-hop",
            name
        );
    }
    assert!(!is_hop_by_hop_header("content-type"));
    assert!(!is_hop_by_hop_header("x-forwarded-for"));
}

#[test]
fn test_extract_api_key_pool_from_query_none() {
    let (pool, query) = extract_api_key_pool_from_query(None);
    assert_eq!(pool, None);
    assert_eq!(query, None);
}

#[test]
fn test_extract_api_key_pool_from_query_empty() {
    let (pool, query) = extract_api_key_pool_from_query(Some(""));
    assert_eq!(pool, None);
    assert_eq!(query, None);
}

#[test]
fn test_extract_api_key_pool_from_query_only_pool() {
    let (pool, query) = extract_api_key_pool_from_query(Some("api_key_pool=openai"));
    assert_eq!(pool, Some("openai".to_string()));
    assert_eq!(query, None);
}

#[test]
fn test_extract_api_key_pool_from_query_with_other_params() {
    let (pool, query) = extract_api_key_pool_from_query(Some("page=1&api_key_pool=openai&limit=10"));
    assert_eq!(pool, Some("openai".to_string()));
    assert_eq!(query, Some("page=1&limit=10".to_string()));
}

#[test]
fn test_extract_api_key_pool_from_query_no_pool() {
    let (pool, query) = extract_api_key_pool_from_query(Some("page=1&limit=10"));
    assert_eq!(pool, None);
    assert_eq!(query, Some("page=1&limit=10".to_string()));
}

#[test]
fn test_extract_api_key_pool_from_query_pool_at_start() {
    let (pool, query) = extract_api_key_pool_from_query(Some("api_key_pool=default&foo=bar"));
    assert_eq!(pool, Some("default".to_string()));
    assert_eq!(query, Some("foo=bar".to_string()));
}

#[test]
fn test_extract_api_key_pool_from_query_pool_at_end() {
    let (pool, query) = extract_api_key_pool_from_query(Some("foo=bar&api_key_pool=default"));
    assert_eq!(pool, Some("default".to_string()));
    assert_eq!(query, Some("foo=bar".to_string()));
}

#[test]
fn test_extract_api_key_pool_from_query_url_encoded() {
    // Test URL-encoded pool name (e.g., "my pool" encoded as "my%20pool")
    let (pool, query) = extract_api_key_pool_from_query(Some("api_key_pool=my%20pool&foo=bar"));
    assert_eq!(pool, Some("my pool".to_string()));
    assert_eq!(query, Some("foo=bar".to_string()));
}

#[test]
fn test_extract_api_key_pool_from_query_multiple_pools() {
    // When multiple api_key_pool params are present, the last one wins
    let (pool, query) = extract_api_key_pool_from_query(Some("api_key_pool=pool1&api_key_pool=pool2"));
    assert_eq!(pool, Some("pool2".to_string()));
    assert_eq!(query, None);
}

#[test]
fn test_extract_api_key_pool_value_less_param_is_stripped() {
    let (pool, query) = extract_api_key_pool_from_query(Some("api_key_pool&foo=bar"));
    assert_eq!(pool, None);
    assert_eq!(query, Some("foo=bar".to_string()));
}

#[test]
fn test_strip_path_prefix_edge_cases() {
    let route = create_test_route();
    // The whole prefix maps to the root path.
    assert_eq!(route.get_target_url("/api", None), "http://localhost:8081/");
    assert_eq!(route.get_target_url("/api/", None), "http://localhost:8081/");
}

#[test]
fn test_trailing_slash_pattern() {
    let route = ProxyRoute {
        path_pattern: "/files/".to_string(),
        strip_prefix: true,
        ..create_test_route()
    };
    assert!(route.matches("/files", "GET"));
    assert!(route.matches("/files/", "GET"));
    assert!(route.matches("/files/a.txt", "GET"));
    assert!(!route.matches("/filesystem", "GET"));
    assert_eq!(
        route.get_target_url("/files/a.txt", None),
        "http://localhost:8081/a.txt"
    );
}

#[test]
fn test_strip_prefix_bare_pattern() {
    // A bare pattern also has its matched prefix removed, at a segment
    // boundary; the whole prefix maps to the root path.
    let route = ProxyRoute {
        path_pattern: "/api".to_string(),
        strip_prefix: true,
        ..create_test_route()
    };
    assert_eq!(
        route.get_target_url("/api/users", None),
        "http://localhost:8081/users"
    );
    assert_eq!(route.get_target_url("/api", None), "http://localhost:8081/");
    // A path the prefix does not match at a boundary is left unchanged.
    assert_eq!(
        route.get_target_url("/apifoo", None),
        "http://localhost:8081/apifoo"
    );
}

#[test]
fn test_override_value_without_escapes_is_verbatim() {
    let (pool, query) = extract_api_key_pool_from_query(Some("api_key_pool=plain-name_1"));
    assert_eq!(pool, Some("plain-name_1".to_string()));
    assert_eq!(query, None);
}

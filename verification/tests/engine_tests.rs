use open_gateway::api_key::create_selector;
use open_gateway::config::{
    ApiKeyConfig, ApiKeyPool, ApiKeyStrategy, HeaderPair, MasterAccessTokenConfig,
};
use open_gateway::config::guard_allows;
use open_gateway::engine::{
    build_forward_headers, PlanError, ProxyEngine, SelectorEntry,
};
use open_gateway::proxy::ProxyRoute;

fn pool_with(
    keys: Vec<&str>,
    header_name: &str,
    query_param_name: Option<&str>,
) -> ApiKeyPool {
    ApiKeyPool {
        keys: keys
            .into_iter()
            .map(|k| ApiKeyConfig {
                key: k.to_string(),
                label: None,
                weight: 1,
                enabled: true,
            })
            .collect(),
        strategy: ApiKeyStrategy::RoundRobin,
        header_name: header_name.to_string(),
        query_param_name: query_param_name.map(|s| s.to_string()),
    }
}

fn api_route(pattern: &str, target: &str, strip: bool, pool: Option<&str>) -> ProxyRoute {
    ProxyRoute {
        name: None,
        path_pattern: pattern.to_string(),
        target: target.to_string(),
        strip_prefix: strip,
        methods: vec![],
        api_key_pool: pool.map(|p| p.to_string()),
        headers: Vec::new(),
        description: None,
    }
}

fn selector_entry(name: &str, pool: &ApiKeyPool) -> SelectorEntry {
    SelectorEntry {
        name: name.to_string(),
        selector: create_selector(pool),
    }
}

fn header_value(headers: &[HeaderPair], name: &str) -> Option<String> {
    headers
        .iter()
        .find(|h| h.name.eq_ignore_ascii_case(name))
        .map(|h| h.value.clone())
}

#[test]
fn test_strip_prefix_rewrite() {
    // Route /api/* -> http://u:9/ with strip_prefix: the upstream sees the
    // stripped path, the original query, and Host equal to the target's
    // authority.
    let mut engine = ProxyEngine::new(
        vec![api_route("/api/*", "http://u:9/", true, None)],
        vec![],
    );
    let plan = engine
        .plan("GET", "/api/users/42", Some("page=1"), &Vec::new())
        .unwrap();
    assert_eq!(plan.target_url, "http://u:9/users/42?page=1");
    assert_eq!(plan.host.as_deref(), Some("u:9"));
    assert_eq!(header_value(&plan.headers, "host").as_deref(), Some("u:9"));
}

#[test]
fn test_no_strip_rewrite() {
    let mut engine = ProxyEngine::new(
        vec![api_route("/api/*", "http://u:9/", false, None)],
        vec![],
    );
    let plan = engine.plan("GET", "/api/users", None, &Vec::new()).unwrap();
    assert_eq!(plan.target_url, "http://u:9/api/users");
}

#[test]
fn test_round_robin_header_injection() {
    // Pool with keys k1, k2 and header X-K: four sequential requests see
    // X-K values k1, k2, k1, k2.
    let pool = pool_with(vec!["k1", "k2"], "X-K", None);
    let mut engine = ProxyEngine::new(
        vec![api_route("/api/*", "http://u:9/", true, Some("p"))],
        vec![selector_entry("p", &pool)],
    );
    let mut seen = Vec::new();
    for _ in 0..4 {
        let plan = engine.plan("GET", "/api/x", None, &Vec::new()).unwrap();
        seen.push(header_value(&plan.headers, "X-K").unwrap());
    }
    assert_eq!(seen, vec!["k1", "k2", "k1", "k2"]);
}

#[test]
fn test_query_param_injection() {
    // Pool with query_param_name api_key and sole key "s c": the key is
    // percent-encoded into the query and no header carries it.
    let pool = pool_with(vec!["s c"], "X-K", Some("api_key"));
    let mut engine = ProxyEngine::new(
        vec![api_route("/x", "http://u:9", false, Some("p"))],
        vec![selector_entry("p", &pool)],
    );
    let plan = engine.plan("GET", "/x", None, &Vec::new()).unwrap();
    assert_eq!(plan.target_url, "http://u:9/x?api_key=s%20c");
    assert_eq!(header_value(&plan.headers, "X-K"), None);
    assert_eq!(header_value(&plan.headers, "api_key"), None);
}

#[test]
fn test_pool_override_via_query() {
    // The last api_key_pool query parameter picks the pool; the parameter
    // itself is stripped from the forwarded query.
    let alt = pool_with(vec!["ka"], "X-K", None);
    let fin = pool_with(vec!["kf"], "X-K", None);
    let deflt = pool_with(vec!["kd"], "X-K", None);
    let mut engine = ProxyEngine::new(
        vec![api_route("/api/*", "http://u:9/", true, Some("default"))],
        vec![
            selector_entry("default", &deflt),
            selector_entry("alt", &alt),
            selector_entry("final", &fin),
        ],
    );
    let plan = engine
        .plan(
            "GET",
            "/api/z",
            Some("page=1&api_key_pool=alt&api_key_pool=final"),
            &Vec::new(),
        )
        .unwrap();
    assert_eq!(plan.api_key.as_deref(), Some("kf"));
    assert_eq!(plan.target_url, "http://u:9/z?page=1");
    assert!(!plan.target_url.contains("api_key_pool"));
    assert_eq!(header_value(&plan.headers, "X-K").as_deref(), Some("kf"));
}

#[test]
fn test_unknown_override_falls_back_to_route_pool() {
    let deflt = pool_with(vec!["kd"], "X-K", None);
    let mut engine = ProxyEngine::new(
        vec![api_route("/api/*", "http://u:9/", true, Some("default"))],
        vec![selector_entry("default", &deflt)],
    );
    let plan = engine
        .plan("GET", "/api/z", Some("api_key_pool=missing"), &Vec::new())
        .unwrap();
    assert_eq!(plan.api_key.as_deref(), Some("kd"));
}

#[test]
fn test_no_route_is_404() {
    let mut engine = ProxyEngine::new(
        vec![api_route("/api/*", "http://u:9/", true, None)],
        vec![],
    );
    let err = engine
        .plan("GET", "/other/path", None, &Vec::new())
        .unwrap_err();
    assert_eq!(err, PlanError::NoRoute);
}

#[test]
fn test_first_match_wins() {
    let mut engine = ProxyEngine::new(
        vec![
            api_route("/api/*", "http://first:1/", false, None),
            api_route("/api/users", "http://second:2/", false, None),
        ],
        vec![],
    );
    let plan = engine.plan("GET", "/api/users", None, &Vec::new()).unwrap();
    assert_eq!(plan.route_index, 0);
    assert_eq!(plan.host.as_deref(), Some("first:1"));
}

#[test]
fn test_hop_by_hop_headers_dropped() {
    let request_headers = vec![
        HeaderPair {
            name: "Connection".to_string(),
            value: "keep-alive".to_string(),
        },
        HeaderPair {
            name: "KEEP-ALIVE".to_string(),
            value: "timeout=5".to_string(),
        },
        HeaderPair {
            name: "Content-Type".to_string(),
            value: "application/json".to_string(),
        },
        HeaderPair {
            name: "Host".to_string(),
            value: "client.example".to_string(),
        },
    ];
    let host = "u:9".to_string();
    let out = build_forward_headers(&request_headers, Some(&host), &Vec::new(), None);
    assert!(out.iter().all(|h| !h.name.eq_ignore_ascii_case("connection")));
    assert!(out.iter().all(|h| !h.name.eq_ignore_ascii_case("keep-alive")));
    assert_eq!(header_value(&out, "content-type").as_deref(), Some("application/json"));
    // The client's Host is replaced by the target's authority.
    assert_eq!(header_value(&out, "host").as_deref(), Some("u:9"));
}

#[test]
fn test_route_headers_upsert() {
    let request_headers = vec![HeaderPair {
        name: "X-Tag".to_string(),
        value: "from-client".to_string(),
    }];
    let route_headers = vec![HeaderPair {
        name: "x-tag".to_string(),
        value: "from-route".to_string(),
    }];
    let out = build_forward_headers(&request_headers, None, &route_headers, None);
    assert_eq!(out.len(), 1);
    assert_eq!(out[0].value, "from-route");
}

#[test]
fn test_guard_decision() {
    let guard = MasterAccessTokenConfig {
        enabled: true,
        header_name: "X-T".to_string(),
        tokens: vec!["ok".to_string()],
    };
    assert!(!guard_allows(&guard, Some("bad")));
    assert!(guard_allows(&guard, Some("ok")));
    assert!(!guard_allows(&guard, None));

    let off = MasterAccessTokenConfig {
        enabled: false,
        header_name: "X-T".to_string(),
        tokens: vec![],
    };
    assert!(guard_allows(&off, Some("anything")));
    assert!(guard_allows(&off, None));
}

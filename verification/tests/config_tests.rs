use open_gateway::config::{
    ApiKeyConfig, ApiKeyPool, ApiKeyStrategy, ConfigError, GatewayConfig, HeaderPair,
    MasterAccessTokenConfig, PoolEntry, RouteConfig, ServerConfig,
};

fn route(name: Option<&str>, path: &str, target: &str) -> RouteConfig {
    RouteConfig {
        name: name.map(|n| n.to_string()),
        path: path.to_string(),
        target: target.to_string(),
        methods: vec![],
        strip_prefix: false,
        api_key_pool: None,
        headers: Vec::new(),
        description: None,
        enabled: true,
    }
}

fn pool_entry(name: &str, keys: Vec<(&str, bool)>) -> PoolEntry {
    PoolEntry {
        name: name.to_string(),
        pool: ApiKeyPool {
            keys: keys
                .into_iter()
                .map(|(k, enabled)| ApiKeyConfig {
                    key: k.to_string(),
                    label: None,
                    weight: 1,
                    enabled,
                })
                .collect(),
            strategy: ApiKeyStrategy::RoundRobin,
            header_name: "X-API-Key".to_string(),
            query_param_name: None,
        },
    }
}

#[test]
fn test_default_config() {
    let config = GatewayConfig::default();
    assert_eq!(config.server.host, "0.0.0.0");
    assert_eq!(config.server.port, 8080);
    assert!(config.metrics.enabled);
    assert!(config.health.enabled);
}

#[test]
fn test_master_access_token_default() {
    let config = GatewayConfig::default();
    assert!(!config.master_access_token.enabled);
    assert_eq!(config.master_access_token.header_name, "Authorization");
    assert!(config.master_access_token.tokens.is_empty());
}

#[test]
fn test_master_access_token_validation() {
    let config = MasterAccessTokenConfig {
        enabled: true,
        header_name: "Authorization".to_string(),
        tokens: vec!["valid-token".to_string(), "another-valid-token".to_string()],
    };

    assert!(config.validate_token("valid-token"));
    assert!(config.validate_token("another-valid-token"));
    assert!(!config.validate_token("invalid-token"));
}

#[test]
fn test_master_access_token_disabled_allows_all() {
    let config = MasterAccessTokenConfig {
        enabled: false,
        header_name: "Authorization".to_string(),
        tokens: vec!["valid-token".to_string()],
    };

    // When disabled, any token should be valid
    assert!(config.validate_token("any-token"));
    assert!(config.validate_token(""));
}

#[test]
fn test_master_access_token_defense_in_depth() {
    // Test that validate_token returns false when enabled but tokens are empty
    // This is a defense-in-depth check that should never happen in practice
    // because config validation catches this case
    let config = MasterAccessTokenConfig {
        enabled: true,
        header_name: "Authorization".to_string(),
        tokens: vec![], // Empty tokens - should deny access
    };

    // Should deny access even with any token
    assert!(!config.validate_token("any-token"));
    assert!(!config.validate_token(""));
}

#[test]
fn test_validate_ok() {
    let mut config = GatewayConfig::default();
    config.routes = vec![route(Some("api"), "/api/*", "http://localhost:3001")];
    config.api_key_pools = vec![pool_entry("default", vec![("k1", true)])];
    config.routes[0].api_key_pool = Some("default".to_string());
    assert!(config.validate().is_ok());
}

#[test]
fn test_validate_unknown_pool() {
    let mut config = GatewayConfig::default();
    let mut r = route(None, "/api/*", "http://localhost:3001");
    r.api_key_pool = Some("nonexistent".to_string());
    config.routes = vec![r];
    let err = config.validate().unwrap_err();
    assert!(matches!(err, ConfigError::UnknownPool { .. }));
    assert_eq!(
        err.message(),
        "Route '/api/*' references unknown API key pool 'nonexistent'"
    );
}

#[test]
fn test_validate_no_enabled_keys() {
    let mut config = GatewayConfig::default();
    config.api_key_pools = vec![pool_entry("dead", vec![("k1", false), ("k2", false)])];
    let err = config.validate().unwrap_err();
    assert!(matches!(err, ConfigError::NoEnabledKeys { .. }));
    assert_eq!(err.message(), "API key pool 'dead' has no enabled keys");
}

#[test]
fn test_validate_unknown_route_ref() {
    let mut config = GatewayConfig::default();
    config.routes = vec![route(Some("api-v1"), "/api/v1/*", "http://localhost:3001")];
    config.servers = vec![ServerConfig {
        name: Some("main-server".to_string()),
        host: "0.0.0.0".to_string(),
        port: 8080,
        timeout: 30,
        routes: vec!["nonexistent-route".to_string()],
    }];
    let err = config.validate().unwrap_err();
    assert!(matches!(err, ConfigError::UnknownRouteRef { .. }));
    assert_eq!(
        err.message(),
        "Server 'main-server' references unknown route 'nonexistent-route'"
    );
}

#[test]
fn test_validate_guard_without_tokens() {
    let mut config = GatewayConfig::default();
    config.master_access_token.enabled = true;
    let err = config.validate().unwrap_err();
    assert!(matches!(err, ConfigError::GuardWithoutTokens));
    assert_eq!(
        err.message(),
        "Master access token guard is enabled but no tokens are configured"
    );
}

#[test]
fn test_validate_duplicate_listener() {
    let mut config = GatewayConfig::default();
    let server = |port: u16| ServerConfig {
        name: None,
        host: "0.0.0.0".to_string(),
        port,
        timeout: 30,
        routes: vec![],
    };
    config.servers = vec![server(8080), server(9090), server(8080)];
    let err = config.validate().unwrap_err();
    assert!(matches!(err, ConfigError::DuplicateListener { .. }));
    assert_eq!(
        err.message(),
        "Listener address '0.0.0.0:8080' is configured more than once"
    );
}

#[test]
fn test_get_servers_multiple() {
    let mut config = GatewayConfig::default();
    config.servers = vec![
        ServerConfig {
            name: Some("api-server".to_string()),
            host: "0.0.0.0".to_string(),
            port: 8080,
            timeout: 30,
            routes: vec!["api-v1".to_string()],
        },
        ServerConfig {
            name: Some("admin-server".to_string()),
            host: "0.0.0.0".to_string(),
            port: 9090,
            timeout: 30,
            routes: vec!["admin".to_string()],
        },
    ];
    config.routes = vec![
        route(Some("api-v1"), "/api/v1/*", "http://localhost:3001"),
        route(Some("admin"), "/admin/*", "http://localhost:3002"),
    ];
    assert!(config.validate().is_ok());

    let servers = config.get_servers();
    assert_eq!(servers.len(), 2);

    let api_routes = config.routes_for_server(&config.servers[0]);
    assert_eq!(api_routes.len(), 1);
    assert_eq!(api_routes[0].path, "/api/v1/*");

    let admin_routes = config.routes_for_server(&config.servers[1]);
    assert_eq!(admin_routes.len(), 1);
    assert_eq!(admin_routes[0].path, "/admin/*");
}

#[test]
fn test_get_servers_falls_back_to_single() {
    let mut config = GatewayConfig::default();
    config.server.host = "127.0.0.1".to_string();
    config.server.port = 3000;
    let servers = config.get_servers();
    assert_eq!(servers.len(), 1);
    assert_eq!(servers[0].host, "127.0.0.1");
    assert_eq!(servers[0].port, 3000);
    assert_eq!(config.server_addr(), "127.0.0.1:3000");
}

#[test]
fn test_routes_for_server_all_enabled() {
    let mut config = GatewayConfig::default();
    config.routes = vec![
        route(None, "/api/v1/*", "http://localhost:3001"),
        route(None, "/api/v2/*", "http://localhost:3002"),
    ];
    config.routes[1].enabled = false;
    let server = ServerConfig::default();
    let selected = config.routes_for_server(&server);
    assert_eq!(selected.len(), 1);
    assert_eq!(selected[0].path, "/api/v1/*");
}

#[test]
fn test_routes_for_server_by_path_reference() {
    let mut config = GatewayConfig::default();
    config.routes = vec![
        route(None, "/api/v1/*", "http://localhost:3001"),
        route(None, "/api/v2/*", "http://localhost:3002"),
    ];
    let mut server = ServerConfig::default();
    server.routes = vec!["/api/v2/*".to_string()];
    let selected = config.routes_for_server(&server);
    assert_eq!(selected.len(), 1);
    assert_eq!(selected[0].path, "/api/v2/*");
}

#[test]
fn test_enabled_routes_preserves_order() {
    let mut config = GatewayConfig::default();
    config.routes = vec![
        route(Some("a"), "/a/*", "http://localhost:1"),
        route(Some("b"), "/b/*", "http://localhost:2"),
        route(Some("c"), "/c/*", "http://localhost:3"),
    ];
    config.routes[1].enabled = false;
    let enabled = config.enabled_routes();
    assert_eq!(enabled.len(), 2);
    assert_eq!(enabled[0].path, "/a/*");
    assert_eq!(enabled[1].path, "/c/*");
}

#[test]
fn test_route_headers_carried() {
    let mut r = route(None, "/api/*", "http://localhost:3001");
    r.headers.push(HeaderPair {
        name: "X-Extra".to_string(),
        value: "yes".to_string(),
    });
    assert_eq!(r.headers.len(), 1);
    assert_eq!(r.headers[0].name, "X-Extra");
}

#[test]
fn test_watch_event_matches() {
    let names = vec!["other.toml".to_string(), "config.toml".to_string()];
    assert!(open_gateway::config::watch_event_matches(&names, "config.toml"));
    assert!(!open_gateway::config::watch_event_matches(&names, "missing.toml"));
    assert!(!open_gateway::config::watch_event_matches(&Vec::new(), "config.toml"));
}

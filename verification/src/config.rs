//! Configuration model of the gateway.
//!
//! The types here mirror the declarative configuration document: routes,
//! key pools, listeners, metrics/health endpoints and the master-token
//! guard. `GatewayConfig::validate` enforces the structural invariants,
//! and the resolved views (`get_servers`, `routes_for_server`, …) are what
//! the orchestrator consumes.

use vstd::prelude::*;

use crate::text::{dec_str_u64, spec_dec, str_eq};

verus! {

/// API key selection strategy of a pool.
#[derive(Debug, Clone, Copy, PartialEq, Eq, Structural)]
pub enum ApiKeyStrategy {
    /// Cycle through the enabled keys in order.
    RoundRobin,
    /// Draw a uniformly random enabled key.
    Random,
    /// Draw an enabled key with probability proportional to its weight.
    Weight,
}

/// One credential of a key pool.
#[derive(Debug)]
pub struct ApiKeyConfig {
    /// The key value, sent verbatim (a scheme prefix such as `Bearer ` is
    /// part of the value).
    pub key: String,
    /// Human-readable tag, used only in observability.
    pub label: Option<String>,
    /// Weight for weighted selection.
    pub weight: u32,
    /// Whether the key takes part in selection.
    pub enabled: bool,
}

/// A named, ordered pool of credentials with a selection strategy.
#[derive(Debug)]
pub struct ApiKeyPool {
    /// The credentials, in declaration order.
    pub keys: Vec<ApiKeyConfig>,
    /// How the next credential is chosen.
    pub strategy: ApiKeyStrategy,
    /// Header that receives the key when `query_param_name` is unset.
    pub header_name: String,
    /// When set, the key is attached as this URL query parameter instead
    /// of a header.
    pub query_param_name: Option<String>,
}

/// A single static header applied to forwarded requests.
#[derive(Debug)]
pub struct HeaderPair {
    pub name: String,
    pub value: String,
}

/// One route of the route table.
#[derive(Debug)]
pub struct RouteConfig {
    /// Optional name, so listeners can reference the route.
    pub name: Option<String>,
    /// Path pattern to match (for example `/api/v1/*`).
    pub path: String,
    /// Absolute URL of the upstream target.
    pub target: String,
    /// Methods to match; empty means every method.
    pub methods: Vec<String>,
    /// Whether the matched prefix is removed from the forwarded path.
    pub strip_prefix: bool,
    /// Name of the key pool bound to this route, if any.
    pub api_key_pool: Option<String>,
    /// Static headers upserted onto forwarded requests.
    pub headers: Vec<HeaderPair>,
    /// Free-form description.
    pub description: Option<String>,
    /// Whether the route takes part in matching.
    pub enabled: bool,
}

/// One listener: a host/port binding with an optional route selection.
#[derive(Debug)]
pub struct ServerConfig {
    /// Optional display name.
    pub name: Option<String>,
    /// Host to bind.
    pub host: String,
    /// Port to bind.
    pub port: u16,
    /// Request deadline in seconds.
    pub timeout: u64,
    /// Route references (by name or path pattern); empty means every
    /// enabled route.
    pub routes: Vec<String>,
}

/// Metrics endpoint settings.
#[derive(Debug)]
pub struct MetricsConfig {
    pub enabled: bool,
    pub path: String,
}

/// Health endpoint settings.
#[derive(Debug)]
pub struct HealthConfig {
    pub enabled: bool,
    pub path: String,
}

/// Master access-token guard settings.
#[derive(Debug)]
pub struct MasterAccessTokenConfig {
    /// Whether the guard is active.
    pub enabled: bool,
    /// Header inspected for the token.
    pub header_name: String,
    /// Accepted tokens; any member grants access.
    pub tokens: Vec<String>,
}

/// A named key pool, as it appears in the pool table.
#[derive(Debug)]
pub struct PoolEntry {
    pub name: String,
    pub pool: ApiKeyPool,
}

/// The root configuration: one legacy listener, the listener list, the
/// endpoints, the guard, the route table and the pool table.
#[derive(Debug)]
pub struct GatewayConfig {
    /// Single-listener block kept for backward compatibility.
    pub server: ServerConfig,
    /// Multi-listener list; when non-empty it replaces `server`.
    pub servers: Vec<ServerConfig>,
    pub metrics: MetricsConfig,
    pub health: HealthConfig,
    pub master_access_token: MasterAccessTokenConfig,
    /// The route table, in declaration order.
    pub routes: Vec<RouteConfig>,
    /// The pool table, keyed by pool name.
    pub api_key_pools: Vec<PoolEntry>,
}

// --- defaults -----------------------------------------------------------

pub fn default_weight() -> (r: u32)
    ensures
        r == 1,
{
    1
}

pub fn default_enabled() -> (r: bool)
    ensures
        r,
{
    true
}

pub fn default_header_name() -> (r: String)
    ensures
        r@ == "Authorization"@,
{
    String::from_str("Authorization")
}

pub fn default_host() -> (r: String)
    ensures
        r@ == "0.0.0.0"@,
{
    String::from_str("0.0.0.0")
}

pub fn default_port() -> (r: u16)
    ensures
        r == 8080,
{
    8080
}

pub fn default_timeout() -> (r: u64)
    ensures
        r == 30,
{
    30
}

pub fn default_metrics_path() -> (r: String)
    ensures
        r@ == "/metrics"@,
{
    String::from_str("/metrics")
}

pub fn default_health_path() -> (r: String)
    ensures
        r@ == "/health"@,
{
    String::from_str("/health")
}

pub fn default_master_token_header_name() -> (r: String)
    ensures
        r@ == "Authorization"@,
{
    String::from_str("Authorization")
}

// --- clones -------------------------------------------------------------
//
// `Vec` values cannot be proved equal as whole values, so the clones of
// the vector-holding types promise equality of every field, with vectors
// compared by their view.

/// `a` and `b` describe the same pool.
pub open spec fn pool_eq(a: ApiKeyPool, b: ApiKeyPool) -> bool {
    &&& a.keys@ == b.keys@
    &&& a.strategy == b.strategy
    &&& a.header_name == b.header_name
    &&& a.query_param_name == b.query_param_name
}

/// `a` and `b` describe the same route.
pub open spec fn route_cfg_eq(a: RouteConfig, b: RouteConfig) -> bool {
    &&& a.name == b.name
    &&& a.path == b.path
    &&& a.target == b.target
    &&& a.methods@ == b.methods@
    &&& a.strip_prefix == b.strip_prefix
    &&& a.api_key_pool == b.api_key_pool
    &&& a.headers@ == b.headers@
    &&& a.description == b.description
    &&& a.enabled == b.enabled
}

/// `a` and `b` describe the same listener.
pub open spec fn server_eq(a: ServerConfig, b: ServerConfig) -> bool {
    &&& a.name == b.name
    &&& a.host == b.host
    &&& a.port == b.port
    &&& a.timeout == b.timeout
    &&& a.routes@ == b.routes@
}

/// `a` and `b` describe the same guard.
pub open spec fn guard_eq(a: MasterAccessTokenConfig, b: MasterAccessTokenConfig) -> bool {
    &&& a.enabled == b.enabled
    &&& a.header_name == b.header_name
    &&& a.tokens@ == b.tokens@
}

fn clone_opt_string(o: &Option<String>) -> (r: Option<String>)
    ensures
        r == *o,
{
    match o {
        Some(s) => Some(s.clone()),
        None => None,
    }
}

fn clone_string_vec(v: &Vec<String>) -> (r: Vec<String>)
    ensures
        r@ == v@,
{
    let mut r: Vec<String> = Vec::new();
    let mut i: usize = 0;
    while i < v.len()
        invariant
            i <= v@.len(),
            r@ =~= v@.subrange(0, i as int),
        decreases v@.len() - i,
    {
        r.push(v[i].clone());
        proof {
            assert(r@ =~= v@.subrange(0, i + 1 as int));
        }
        i = i + 1;
    }
    proof {
        assert(r@ =~= v@);
    }
    r
}

impl Clone for ApiKeyConfig {
    fn clone(&self) -> (r: Self)
        ensures
            r == *self,
    {
        ApiKeyConfig {
            key: self.key.clone(),
            label: clone_opt_string(&self.label),
            weight: self.weight,
            enabled: self.enabled,
        }
    }
}

pub(crate) fn clone_key_vec(v: &Vec<ApiKeyConfig>) -> (r: Vec<ApiKeyConfig>)
    ensures
        r@ == v@,
{
    let mut r: Vec<ApiKeyConfig> = Vec::new();
    let mut i: usize = 0;
    while i < v.len()
        invariant
            i <= v@.len(),
            r@ =~= v@.subrange(0, i as int),
        decreases v@.len() - i,
    {
        r.push(v[i].clone());
        proof {
            assert(r@ =~= v@.subrange(0, i + 1 as int));
        }
        i = i + 1;
    }
    proof {
        assert(r@ =~= v@);
    }
    r
}

impl Clone for ApiKeyPool {
    fn clone(&self) -> (r: Self)
        ensures
            pool_eq(r, *self),
    {
        ApiKeyPool {
            keys: clone_key_vec(&self.keys),
            strategy: self.strategy,
            header_name: self.header_name.clone(),
            query_param_name: clone_opt_string(&self.query_param_name),
        }
    }
}

impl Clone for HeaderPair {
    fn clone(&self) -> (r: Self)
        ensures
            r == *self,
    {
        HeaderPair { name: self.name.clone(), value: self.value.clone() }
    }
}

pub(crate) fn clone_header_vec(v: &Vec<HeaderPair>) -> (r: Vec<HeaderPair>)
    ensures
        r@ == v@,
{
    let mut r: Vec<HeaderPair> = Vec::new();
    let mut i: usize = 0;
    while i < v.len()
        invariant
            i <= v@.len(),
            r@ =~= v@.subrange(0, i as int),
        decreases v@.len() - i,
    {
        r.push(v[i].clone());
        proof {
            assert(r@ =~= v@.subrange(0, i + 1 as int));
        }
        i = i + 1;
    }
    proof {
        assert(r@ =~= v@);
    }
    r
}

impl Clone for RouteConfig {
    fn clone(&self) -> (r: Self)
        ensures
            route_cfg_eq(r, *self),
    {
        RouteConfig {
            name: clone_opt_string(&self.name),
            path: self.path.clone(),
            target: self.target.clone(),
            methods: clone_string_vec(&self.methods),
            strip_prefix: self.strip_prefix,
            api_key_pool: clone_opt_string(&self.api_key_pool),
            headers: clone_header_vec(&self.headers),
            description: clone_opt_string(&self.description),
            enabled: self.enabled,
        }
    }
}

impl Clone for ServerConfig {
    fn clone(&self) -> (r: Self)
        ensures
            server_eq(r, *self),
    {
        ServerConfig {
            name: clone_opt_string(&self.name),
            host: self.host.clone(),
            port: self.port,
            timeout: self.timeout,
            routes: clone_string_vec(&self.routes),
        }
    }
}

impl Clone for MetricsConfig {
    fn clone(&self) -> (r: Self)
        ensures
            r == *self,
    {
        MetricsConfig { enabled: self.enabled, path: self.path.clone() }
    }
}

impl Clone for HealthConfig {
    fn clone(&self) -> (r: Self)
        ensures
            r == *self,
    {
        HealthConfig { enabled: self.enabled, path: self.path.clone() }
    }
}

impl Clone for MasterAccessTokenConfig {
    fn clone(&self) -> (r: Self)
        ensures
            guard_eq(r, *self),
    {
        MasterAccessTokenConfig {
            enabled: self.enabled,
            header_name: self.header_name.clone(),
            tokens: clone_string_vec(&self.tokens),
        }
    }
}

impl Clone for PoolEntry {
    fn clone(&self) -> (r: Self)
        ensures
            r.name == self.name,
            pool_eq(r.pool, self.pool),
    {
        PoolEntry { name: self.name.clone(), pool: self.pool.clone() }
    }
}

// --- default impls -------------------------------------------------------

impl Default for ApiKeyStrategy {
    fn default() -> (r: Self)
        ensures
            r == ApiKeyStrategy::RoundRobin,
    {
        ApiKeyStrategy::RoundRobin
    }
}

impl Default for ApiKeyPool {
    fn default() -> (r: Self)
        ensures
            r.keys@.len() == 0,
            r.strategy == ApiKeyStrategy::RoundRobin,
            r.header_name@ == "Authorization"@,
            r.query_param_name is None,
    {
        ApiKeyPool {
            keys: Vec::new(),
            strategy: ApiKeyStrategy::RoundRobin,
            header_name: default_header_name(),
            query_param_name: None,
        }
    }
}

impl Default for ServerConfig {
    fn default() -> (r: Self)
        ensures
            r.name is None,
            r.host@ == "0.0.0.0"@,
            r.port == 8080,
            r.timeout == 30,
            r.routes@.len() == 0,
    {
        ServerConfig {
            name: None,
            host: default_host(),
            port: default_port(),
            timeout: default_timeout(),
            routes: Vec::new(),
        }
    }
}

impl Default for MetricsConfig {
    fn default() -> (r: Self)
        ensures
            r.enabled,
            r.path@ == "/metrics"@,
    {
        MetricsConfig { enabled: true, path: default_metrics_path() }
    }
}

impl Default for HealthConfig {
    fn default() -> (r: Self)
        ensures
            r.enabled,
            r.path@ == "/health"@,
    {
        HealthConfig { enabled: true, path: default_health_path() }
    }
}

impl Default for MasterAccessTokenConfig {
    fn default() -> (r: Self)
        ensures
            !r.enabled,
            r.header_name@ == "Authorization"@,
            r.tokens@.len() == 0,
    {
        MasterAccessTokenConfig {
            enabled: false,
            header_name: default_master_token_header_name(),
            tokens: Vec::new(),
        }
    }
}

impl Default for GatewayConfig {
    fn default() -> (r: Self)
        ensures
            r.server.host@ == "0.0.0.0"@,
            r.server.port == 8080,
            r.servers@.len() == 0,
            r.metrics.enabled,
            r.health.enabled,
            !r.master_access_token.enabled,
            r.master_access_token.header_name@ == "Authorization"@,
            r.master_access_token.tokens@.len() == 0,
            r.routes@.len() == 0,
            r.api_key_pools@.len() == 0,
    {
        GatewayConfig {
            server: ServerConfig::default(),
            servers: Vec::new(),
            metrics: MetricsConfig::default(),
            health: HealthConfig::default(),
            master_access_token: MasterAccessTokenConfig::default(),
            routes: Vec::new(),
            api_key_pools: Vec::new(),
        }
    }
}

// --- the guard -----------------------------------------------------------

impl MasterAccessTokenConfig {
    /// Whether `token` grants access under this guard configuration.
    pub open spec fn spec_validate_token(self, token: Seq<char>) -> bool {
        if !self.enabled {
            true
        } else if self.tokens@.len() == 0 {
            false
        } else {
            exists|i: int| 0 <= i < self.tokens@.len() && self.tokens@[i]@ == token
        }
    }

    /// Validate an incoming token against the configured tokens. A disabled
    /// guard admits everything; an enabled guard with no tokens admits
    /// nothing; otherwise the token must equal one of the configured tokens.
    pub fn validate_token(&self, token: &str) -> (r: bool)
        ensures
            r == self.spec_validate_token(token@),
    {
        if !self.enabled {
            return true;
        }
        if self.tokens.len() == 0 {
            return false;
        }
        let mut i: usize = 0;
        while i < self.tokens.len()
            invariant
                i <= self.tokens@.len(),
                forall|j: int| 0 <= j < i ==> self.tokens@[j]@ != token@,
            decreases self.tokens@.len() - i,
        {
            if str_eq(self.tokens[i].as_str(), token) {
                return true;
            }
            i = i + 1;
        }
        false
    }
}

/// The decision of the access-guard pre-handler: `header_value` is the value
/// of the configured guard header, or `None` when the request lacks it.
/// A missing header is treated as the empty token.
pub fn guard_allows(guard: &MasterAccessTokenConfig, header_value: Option<&str>) -> (r: bool)
    ensures
        r == guard.spec_validate_token(
            match header_value {
                Some(v) => v@,
                None => Seq::<char>::empty(),
            },
        ),
{
    match header_value {
        Some(v) => guard.validate_token(v),
        None => {
            let empty = String::new();
            guard.validate_token(empty.as_str())
        },
    }
}

// --- validation ----------------------------------------------------------

/// A structural error found when validating a configuration. Each variant
/// names the offending route, pool or listener.
#[derive(Debug)]
pub enum ConfigError {
    /// A route references a pool that is not in the pool table.
    UnknownPool { route_path: String, pool: String },
    /// A pool has no enabled key.
    NoEnabledKeys { pool: String },
    /// A listener references a route that resolves neither by name nor by
    /// path pattern.
    UnknownRouteRef { server: String, route_ref: String },
    /// Two listeners resolve to the same `host:port` address.
    DuplicateListener { addr: String },
    /// The guard is enabled but has no tokens.
    GuardWithoutTokens,
}

/// The `host:port` bind address of a listener.
pub open spec fn spec_addr(s: ServerConfig) -> Seq<char> {
    s.host@ + seq![':'] + spec_dec(s.port as nat)
}

/// How a listener is named in error messages: by its name when it has
/// one, by its bind address otherwise.
pub open spec fn spec_server_label(s: ServerConfig) -> Seq<char> {
    match s.name {
        Some(n) => n@,
        None => spec_addr(s),
    }
}

impl ConfigError {
    /// The human-readable message of this error.
    pub open spec fn spec_message(self) -> Seq<char> {
        match self {
            ConfigError::UnknownPool { route_path, pool } => "Route '"@ + route_path@
                + "' references unknown API key pool '"@ + pool@ + "'"@,
            ConfigError::NoEnabledKeys { pool } => "API key pool '"@ + pool@
                + "' has no enabled keys"@,
            ConfigError::UnknownRouteRef { server, route_ref } => "Server '"@ + server@
                + "' references unknown route '"@ + route_ref@ + "'"@,
            ConfigError::DuplicateListener { addr } => "Listener address '"@ + addr@
                + "' is configured more than once"@,
            ConfigError::GuardWithoutTokens => "Master access token guard is enabled but no tokens are configured"@,
        }
    }

    /// Render the message.
    pub fn message(&self) -> (r: String)
        ensures
            r@ == self.spec_message(),
    {
        match self {
            ConfigError::UnknownPool { route_path, pool } => {
                let mut m = String::from_str("Route '");
                m.append(route_path.as_str());
                m.append("' references unknown API key pool '");
                m.append(pool.as_str());
                m.append("'");
                proof {
                    assert(m@ =~= self.spec_message());
                }
                m
            },
            ConfigError::NoEnabledKeys { pool } => {
                let mut m = String::from_str("API key pool '");
                m.append(pool.as_str());
                m.append("' has no enabled keys");
                proof {
                    assert(m@ =~= self.spec_message());
                }
                m
            },
            ConfigError::UnknownRouteRef { server, route_ref } => {
                let mut m = String::from_str("Server '");
                m.append(server.as_str());
                m.append("' references unknown route '");
                m.append(route_ref.as_str());
                m.append("'");
                proof {
                    assert(m@ =~= self.spec_message());
                }
                m
            },
            ConfigError::DuplicateListener { addr } => {
                let mut m = String::from_str("Listener address '");
                m.append(addr.as_str());
                m.append("' is configured more than once");
                proof {
                    assert(m@ =~= self.spec_message());
                }
                m
            },
            ConfigError::GuardWithoutTokens => {
                String::from_str("Master access token guard is enabled but no tokens are configured")
            },
        }
    }
}

/// Does `route_ref` (a name or a path pattern) resolve to this route?
pub open spec fn spec_ref_matches_route(rt: RouteConfig, route_ref: Seq<char>) -> bool {
    (rt.name matches Some(n) && n@ == route_ref) || rt.path@ == route_ref
}

impl GatewayConfig {
    /// Is `name` a key of the pool table?
    pub open spec fn spec_has_pool(self, name: Seq<char>) -> bool {
        exists|i: int| 0 <= i < self.api_key_pools@.len() && self.api_key_pools@[i].name@ == name
    }

    /// Does `route_ref` resolve to some route of the table?
    pub open spec fn spec_route_ref_resolves(self, route_ref: Seq<char>) -> bool {
        exists|i: int|
            0 <= i < self.routes@.len() && spec_ref_matches_route(self.routes@[i], route_ref)
    }

    /// Invariant: every pool referenced by a route exists.
    pub open spec fn spec_routes_pools_ok(self) -> bool {
        forall|i: int|
            #![trigger self.routes@[i]]
            0 <= i < self.routes@.len() ==> (self.routes@[i].api_key_pool matches Some(p)
                ==> self.spec_has_pool(p@))
    }

    /// Invariant: every pool has at least one enabled key.
    pub open spec fn spec_pools_have_enabled_key(self) -> bool {
        forall|i: int|
            #![trigger self.api_key_pools@[i]]
            0 <= i < self.api_key_pools@.len() ==> exists|j: int|
                0 <= j < self.api_key_pools@[i].pool.keys@.len()
                    && self.api_key_pools@[i].pool.keys@[j].enabled
    }

    /// Invariant: every route reference of every listener resolves.
    pub open spec fn spec_server_refs_ok(self) -> bool {
        forall|i: int, j: int|
            #![auto]
            0 <= i < self.servers@.len() && 0 <= j < self.servers@[i].routes@.len()
                ==> self.spec_route_ref_resolves(self.servers@[i].routes@[j]@)
    }

    /// Invariant: the listeners of the listener list bind distinct
    /// addresses.
    pub open spec fn spec_listeners_distinct(self) -> bool {
        forall|i: int, j: int|
            #![auto]
            0 <= i < j < self.servers@.len() ==> !(self.servers@[i].host@
                == self.servers@[j].host@ && self.servers@[i].port == self.servers@[j].port)
    }

    /// Invariant: an enabled guard has at least one token.
    pub open spec fn spec_guard_ok(self) -> bool {
        self.master_access_token.enabled ==> self.master_access_token.tokens@.len() > 0
    }

    /// All structural invariants together: a configuration that satisfies
    /// them loads successfully.
    pub open spec fn spec_valid(self) -> bool {
        &&& self.spec_routes_pools_ok()
        &&& self.spec_pools_have_enabled_key()
        &&& self.spec_server_refs_ok()
        &&& self.spec_listeners_distinct()
        &&& self.spec_guard_ok()
    }

    fn has_pool(&self, name: &str) -> (r: bool)
        ensures
            r == self.spec_has_pool(name@),
    {
        let mut i: usize = 0;
        while i < self.api_key_pools.len()
            invariant
                i <= self.api_key_pools@.len(),
                forall|k: int| 0 <= k < i ==> self.api_key_pools@[k].name@ != name@,
            decreases self.api_key_pools@.len() - i,
        {
            if str_eq(self.api_key_pools[i].name.as_str(), name) {
                return true;
            }
            i = i + 1;
        }
        false
    }

    fn route_ref_resolves(&self, route_ref: &str) -> (r: bool)
        ensures
            r == self.spec_route_ref_resolves(route_ref@),
    {
        let mut i: usize = 0;
        while i < self.routes.len()
            invariant
                i <= self.routes@.len(),
                forall|k: int|
                    0 <= k < i ==> !spec_ref_matches_route(self.routes@[k], route_ref@),
            decreases self.routes@.len() - i,
        {
            let rt = &self.routes[i];
            let by_name = match &rt.name {
                Some(n) => str_eq(n.as_str(), route_ref),
                None => false,
            };
            if by_name || str_eq(rt.path.as_str(), route_ref) {
                return true;
            }
            i = i + 1;
        }
        false
    }

    /// Check the structural invariants. Returns `Ok` exactly when all of
    /// them hold; otherwise returns the error describing a violation, whose
    /// payload names an actual offender.
    pub fn validate(&self) -> (r: Result<(), ConfigError>)
        ensures
            r is Ok <==> self.spec_valid(),
            r matches Err(e) ==> match e {
                ConfigError::UnknownPool { route_path, pool } => !self.spec_routes_pools_ok()
                    && exists|i: int|
                    #![auto]
                    0 <= i < self.routes@.len() && self.routes@[i].path@ == route_path@
                        && (self.routes@[i].api_key_pool matches Some(p) && p@ == pool@)
                        && !self.spec_has_pool(pool@),
                ConfigError::NoEnabledKeys { pool } => !self.spec_pools_have_enabled_key()
                    && exists|i: int|
                    #![auto]
                    0 <= i < self.api_key_pools@.len() && self.api_key_pools@[i].name@ == pool@
                        && (forall|j: int|
                        #![auto]
                        0 <= j < self.api_key_pools@[i].pool.keys@.len()
                            ==> !self.api_key_pools@[i].pool.keys@[j].enabled),
                ConfigError::UnknownRouteRef { server, route_ref } => !self.spec_server_refs_ok()
                    && exists|i: int|
                    #![auto]
                    0 <= i < self.servers@.len() && spec_server_label(self.servers@[i]) == server@
                        && self.servers@[i].routes@.contains(route_ref)
                        && !self.spec_route_ref_resolves(route_ref@),
                ConfigError::DuplicateListener { addr } => !self.spec_listeners_distinct()
                    && exists|i: int|
                    #![auto]
                    0 <= i < self.servers@.len() && spec_addr(self.servers@[i]) == addr@,
                ConfigError::GuardWithoutTokens => !self.spec_guard_ok(),
            },
    {
        // Every route's pool reference must exist.
        let mut i: usize = 0;
        while i < self.routes.len()
            invariant
                i <= self.routes@.len(),
                forall|k: int|
                    #![trigger self.routes@[k]]
                    0 <= k < i ==> (self.routes@[k].api_key_pool matches Some(p)
                        ==> self.spec_has_pool(p@)),
            decreases self.routes@.len() - i,
        {
            let rt = &self.routes[i];
            match &rt.api_key_pool {
                Some(pool_name) => {
                    if !self.has_pool(pool_name.as_str()) {
                        return Err(ConfigError::UnknownPool {
                            route_path: rt.path.clone(),
                            pool: pool_name.clone(),
                        });
                    }
                },
                None => {},
            }
            i = i + 1;
        }
        // Every pool must hold at least one enabled key.
        let mut i: usize = 0;
        while i < self.api_key_pools.len()
            invariant
                i <= self.api_key_pools@.len(),
                forall|k: int|
                    #![trigger self.api_key_pools@[k]]
                    0 <= k < i ==> exists|j: int|
                        0 <= j < self.api_key_pools@[k].pool.keys@.len()
                            && self.api_key_pools@[k].pool.keys@[j].enabled,
            decreases self.api_key_pools@.len() - i,
        {
            let entry = &self.api_key_pools[i];
            let mut j: usize = 0;
            let mut found = false;
            while j < entry.pool.keys.len()
                invariant
                    j <= entry.pool.keys@.len(),
                    found == exists|m: int| 0 <= m < j && entry.pool.keys@[m].enabled,
                decreases entry.pool.keys@.len() - j,
            {
                if entry.pool.keys[j].enabled {
                    found = true;
                }
                j = j + 1;
            }
            if !found {
                return Err(ConfigError::NoEnabledKeys { pool: entry.name.clone() });
            }
            i = i + 1;
        }
        // Every route reference of every listener must resolve.
        let mut i: usize = 0;
        while i < self.servers.len()
            invariant
                i <= self.servers@.len(),
                forall|k: int, j: int|
                    #![auto]
                    0 <= k < i && 0 <= j < self.servers@[k].routes@.len()
                        ==> self.spec_route_ref_resolves(self.servers@[k].routes@[j]@),
            decreases self.servers@.len() - i,
        {
            let server = &self.servers[i];
            let mut j: usize = 0;
            while j < server.routes.len()
                invariant
                    i < self.servers@.len(),
                    *server == self.servers@[i as int],
                    j <= server.routes@.len(),
                    forall|m: int|
                        #![auto]
                        0 <= m < j ==> self.spec_route_ref_resolves(server.routes@[m]@),
                decreases server.routes@.len() - j,
            {
                let route_ref = &server.routes[j];
                if !self.route_ref_resolves(route_ref.as_str()) {
                    let label = match &server.name {
                        Some(n) => n.clone(),
                        None => Self::server_addr_for(server),
                    };
                    proof {
                        let ii = i as int;
                        let jj = j as int;
                        assert(self.servers@[ii].routes@[jj] == *route_ref);
                        assert(self.servers@[ii].routes@.contains(*route_ref));
                        assert(!self.spec_server_refs_ok()) by {
                            assert(0 <= ii < self.servers@.len());
                            assert(0 <= jj < self.servers@[ii].routes@.len());
                            assert(!self.spec_route_ref_resolves(self.servers@[ii].routes@[jj]@));
                        }
                    }
                    return Err(ConfigError::UnknownRouteRef {
                        server: label,
                        route_ref: route_ref.clone(),
                    });
                }
                j = j + 1;
            }
            i = i + 1;
        }
        // Listener addresses must be distinct.
        let mut i: usize = 0;
        while i < self.servers.len()
            invariant
                i <= self.servers@.len(),
                forall|k: int, m: int|
                    #![auto]
                    0 <= k < m < self.servers@.len() && k < i ==> !(self.servers@[k].host@
                        == self.servers@[m].host@ && self.servers@[k].port
                        == self.servers@[m].port),
            decreases self.servers@.len() - i,
        {
            let mut j: usize = i + 1;
            while j < self.servers.len()
                invariant
                    i < j || j == i + 1,
                    i < self.servers@.len(),
                    j <= self.servers@.len(),
                    forall|m: int|
                        #![auto]
                        i < m < j ==> !(self.servers@[i as int].host@ == self.servers@[m].host@
                            && self.servers@[i as int].port == self.servers@[m].port),
                decreases self.servers@.len() - j,
            {
                if str_eq(self.servers[i].host.as_str(), self.servers[j].host.as_str())
                    && self.servers[i].port == self.servers[j].port {
                    return Err(ConfigError::DuplicateListener {
                        addr: Self::server_addr_for(&self.servers[i]),
                    });
                }
                j = j + 1;
            }
            i = i + 1;
        }
        // An enabled guard needs tokens.
        if self.master_access_token.enabled && self.master_access_token.tokens.len() == 0 {
            return Err(ConfigError::GuardWithoutTokens);
        }
        Ok(())
    }

    /// Bind address of the legacy single listener.
    pub fn server_addr(&self) -> (r: String)
        ensures
            r@ == spec_addr(self.server),
    {
        Self::server_addr_for(&self.server)
    }

    /// Every enabled route, in declaration order.
    pub fn enabled_routes<'a>(&'a self) -> (r: Vec<&'a RouteConfig>)
        ensures
            deref_routes(r@) == spec_enabled_routes(self.routes@),
    {
        let mut r: Vec<&RouteConfig> = Vec::new();
        let mut i: usize = 0;
        while i < self.routes.len()
            invariant
                i <= self.routes@.len(),
                deref_routes(r@) =~= spec_enabled_routes(self.routes@.subrange(0, i as int)),
            decreases self.routes@.len() - i,
        {
            proof {
                let pre1 = self.routes@.subrange(0, i as int + 1);
                assert(pre1.drop_last() =~= self.routes@.subrange(0, i as int));
                assert(pre1.last() == self.routes@[i as int]);
            }
            if self.routes[i].enabled {
                r.push(&self.routes[i]);
                proof {
                    assert(deref_routes(r@) =~= spec_enabled_routes(
                        self.routes@.subrange(0, i as int + 1),
                    ));
                }
            }
            i = i + 1;
        }
        proof {
            assert(self.routes@.subrange(0, self.routes@.len() as int) =~= self.routes@);
        }
        r
    }

    /// The listeners to start: the listener list when it is non-empty,
    /// else the legacy single listener alone.
    pub fn get_servers<'a>(&'a self) -> (r: Vec<&'a ServerConfig>)
        ensures
            self.servers@.len() > 0 ==> deref_servers(r@) == self.servers@,
            self.servers@.len() == 0 ==> r@.len() == 1 && *r@[0] == self.server,
    {
        let mut r: Vec<&ServerConfig> = Vec::new();
        if self.servers.len() > 0 {
            let mut i: usize = 0;
            while i < self.servers.len()
                invariant
                    i <= self.servers@.len(),
                    deref_servers(r@) =~= self.servers@.subrange(0, i as int),
                decreases self.servers@.len() - i,
            {
                let ghost prev = r@;
                r.push(&self.servers[i]);
                proof {
                    assert forall|k: int|
                        0 <= k < r@.len() implies deref_servers(r@)[k] == self.servers@.subrange(
                        0,
                        i as int + 1,
                    )[k] by {
                        if k < prev.len() {
                            assert(deref_servers(prev) =~= self.servers@.subrange(0, i as int));
                            assert(deref_servers(prev).len() == i as int);
                            assert(k < i as int);
                            assert(r@[k] == prev[k]);
                            assert(deref_servers(r@)[k] == *r@[k]);
                            assert(deref_servers(prev)[k] == *prev[k]);
                            assert(deref_servers(prev)[k] == self.servers@[k]);
                        } else {
                            assert(r@[k] == &self.servers@[i as int]);
                        }
                    }
                    assert(deref_servers(r@) =~= self.servers@.subrange(0, i as int + 1));
                }
                i = i + 1;
            }
            proof {
                assert(self.servers@.subrange(0, self.servers@.len() as int) =~= self.servers@);
            }
        } else {
            r.push(&self.server);
        }
        r
    }

    fn any_ref_matches(server: &ServerConfig, rt: &RouteConfig) -> (r: bool)
        ensures
            r == spec_any_ref_matches(*server, *rt),
    {
        let mut j: usize = 0;
        while j < server.routes.len()
            invariant
                j <= server.routes@.len(),
                forall|m: int|
                    0 <= m < j ==> !spec_ref_matches_route(*rt, server.routes@[m]@),
            decreases server.routes@.len() - j,
        {
            let route_ref = &server.routes[j];
            let by_name = match &rt.name {
                Some(n) => str_eq(n.as_str(), route_ref.as_str()),
                None => false,
            };
            if by_name || str_eq(rt.path.as_str(), route_ref.as_str()) {
                return true;
            }
            j = j + 1;
        }
        false
    }

    /// The routes a listener serves: every enabled route when its
    /// reference list is empty, else the enabled routes that one of its
    /// references names, in declaration order.
    pub fn routes_for_server<'a>(&'a self, server: &ServerConfig) -> (r: Vec<&'a RouteConfig>)
        ensures
            deref_routes(r@) == spec_routes_for(*server, self.routes@),
    {
        if server.routes.len() == 0 {
            return self.enabled_routes();
        }
        let mut r: Vec<&RouteConfig> = Vec::new();
        let mut i: usize = 0;
        while i < self.routes.len()
            invariant
                i <= self.routes@.len(),
                server.routes@.len() > 0,
                deref_routes(r@) =~= spec_selected_routes(
                    *server,
                    self.routes@.subrange(0, i as int),
                ),
            decreases self.routes@.len() - i,
        {
            proof {
                let pre1 = self.routes@.subrange(0, i as int + 1);
                assert(pre1.drop_last() =~= self.routes@.subrange(0, i as int));
                assert(pre1.last() == self.routes@[i as int]);
            }
            let rt = &self.routes[i];
            if rt.enabled && Self::any_ref_matches(server, rt) {
                r.push(rt);
                proof {
                    assert(deref_routes(r@) =~= spec_selected_routes(
                        *server,
                        self.routes@.subrange(0, i as int + 1),
                    ));
                }
            }
            i = i + 1;
        }
        proof {
            assert(self.routes@.subrange(0, self.routes@.len() as int) =~= self.routes@);
        }
        r
    }
}

/// The route values behind a sequence of route references.
pub open spec fn deref_routes(s: Seq<&RouteConfig>) -> Seq<RouteConfig> {
    s.map_values(|x: &RouteConfig| *x)
}

/// The listener values behind a sequence of listener references.
pub open spec fn deref_servers(s: Seq<&ServerConfig>) -> Seq<ServerConfig> {
    s.map_values(|x: &ServerConfig| *x)
}

/// The enabled routes of `routes`, in order.
pub open spec fn spec_enabled_routes(routes: Seq<RouteConfig>) -> Seq<RouteConfig>
    decreases routes.len(),
{
    if routes.len() == 0 {
        Seq::empty()
    } else {
        let rest = spec_enabled_routes(routes.drop_last());
        if routes.last().enabled {
            rest.push(routes.last())
        } else {
            rest
        }
    }
}

/// Does some reference of `server` name this route?
pub open spec fn spec_any_ref_matches(server: ServerConfig, rt: RouteConfig) -> bool {
    exists|j: int|
        0 <= j < server.routes@.len() && spec_ref_matches_route(rt, server.routes@[j]@)
}

/// The enabled routes of `routes` that some reference of `server` names,
/// in order.
pub open spec fn spec_selected_routes(server: ServerConfig, routes: Seq<RouteConfig>) -> Seq<
    RouteConfig,
>
    decreases routes.len(),
{
    if routes.len() == 0 {
        Seq::empty()
    } else {
        let rest = spec_selected_routes(server, routes.drop_last());
        if routes.last().enabled && spec_any_ref_matches(server, routes.last()) {
            rest.push(routes.last())
        } else {
            rest
        }
    }
}

/// The routes a listener serves (see `GatewayConfig::routes_for_server`).
pub open spec fn spec_routes_for(server: ServerConfig, routes: Seq<RouteConfig>) -> Seq<
    RouteConfig,
> {
    if server.routes@.len() == 0 {
        spec_enabled_routes(routes)
    } else {
        spec_selected_routes(server, routes)
    }
}

impl GatewayConfig {
    /// Bind address (`host:port`) of a listener.
    pub fn server_addr_for(server: &ServerConfig) -> (r: String)
        ensures
            r@ == spec_addr(*server),
    {
        let mut r = server.host.clone();
        r.append(":");
        let port = dec_str_u64(server.port as u64);
        r.append(port.as_str());
        proof {
            reveal_strlit(":");
            assert(":"@ =~= seq![':']);
            assert(r@ =~= spec_addr(*server));
        }
        r
    }
}

/// The reload watcher's decision: a file-system event is relevant exactly
/// when one of its paths has the configuration file's name. (The watcher
/// then validates the file and keeps the current configuration when the
/// new one fails to load.)
pub fn watch_event_matches(file_names: &Vec<String>, config_file_name: &str) -> (r: bool)
    ensures
        r == exists|i: int|
            0 <= i < file_names@.len() && (#[trigger] file_names@[i])@ == config_file_name@,
{
    let mut i: usize = 0;
    while i < file_names.len()
        invariant
            i <= file_names@.len(),
            forall|j: int| 0 <= j < i ==> (#[trigger] file_names@[j])@ != config_file_name@,
        decreases file_names@.len() - i,
    {
        if str_eq(file_names[i].as_str(), config_file_name) {
            return true;
        }
        i = i + 1;
    }
    false
}

} // verus!

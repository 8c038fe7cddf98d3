//! What the configuration file may say, what holds where it is silent, and
//! how the running configuration is made of it.

use vstd::prelude::*;
use crate::acme::AcmeHandler;
use crate::backend_pool_matcher::grammar::MatcherModel;
use crate::backend_pool_matcher::{BackendPoolMatcher, MatcherError, spec_parse};
use crate::health::{HealthConfig, Healthiness};
use crate::http::{ClientAddress, Scheme};
use crate::load_balancing::ip_hash::IPHash;
use crate::load_balancing::least_connection::LeastConnection;
use crate::load_balancing::random::Random;
use crate::load_balancing::round_robin::RoundRobin;
use crate::load_balancing::sticky_cookie::StickyCookie;
use crate::load_balancing::{LoadBalancingStrategy, strategy_wf};
use crate::middleware::authentication::Authentication;
use crate::middleware::compression::Compression;
use crate::middleware::custom_error_pages::CustomErrorPages;
use crate::middleware::https_redirector::HttpsRedirector;
use crate::middleware::maxbodysize::MaxBodySize;
use crate::middleware::rate_limiter::{ClientKey, RateLimiter, Visit};
use crate::middleware::{Middleware, MiddlewareChain};
use crate::server::{BackendPool, BackendPoolBuilder, SharedData, unique_addresses};
use crate::text::same_text;

verus! {

/// The `SameSite` attribute of the cookie that binds a client to a backend.
#[derive(Clone, Copy, Debug, PartialEq, Eq, Structural)]
pub enum StickyCookieSameSite {
    Strict,
    Lax,
    Unrestricted,
}

/// Where the certificate of a name comes from.
#[derive(Debug, PartialEq, Eq)]
pub enum CertificateConfig {
    Local { certificate_path: String, private_key_path: String },
    ACME { staging: bool, email: String, persist_dir: String },
}

/// How often the backends are probed.
#[derive(Debug, Clone, Copy, PartialEq, Eq, Structural)]
pub struct HealthIntervalConfig {
    /// The seconds between two rounds of probes; zero switches them off.
    pub check_every: u64,
}

/// What the configuration says of the health checks of a pool.
#[derive(Debug, PartialEq, Eq)]
pub struct HealthTomlConfig {
    pub slow_threshold: i64,
    pub timeout: u64,
    pub path: String,
}

/// How connections to the backends of a pool are kept.
#[derive(Debug, Clone, Copy, PartialEq, Eq)]
pub struct ClientConfig {
    pub pool_idle_timeout: Option<u64>,
    pub pool_max_idle_per_host: Option<usize>,
}

pub fn default_http_address() -> (s: String)
    ensures
        s@ == "[::]:80"@,
{
    "[::]:80".to_owned()
}

pub fn default_https_address() -> (s: String)
    ensures
        s@ == "[::]:443"@,
{
    "[::]:443".to_owned()
}

pub fn default_health_interval_config() -> (c: HealthIntervalConfig)
    ensures
        c.check_every == 10,
{
    HealthIntervalConfig { check_every: 10 }
}

pub fn default_slow_threshold() -> (t: i64)
    ensures
        t == 300,
{
    300
}

pub fn default_timeout() -> (t: u64)
    ensures
        t == 500,
{
    500
}

pub fn default_path() -> (s: String)
    ensures
        s@ == "/"@,
{
    "/".to_owned()
}

pub fn default_health_config() -> (c: HealthTomlConfig)
    ensures
        c.slow_threshold == 300,
        c.timeout == 500,
        c.path@ == "/"@,
{
    HealthTomlConfig {
        slow_threshold: default_slow_threshold(),
        timeout: default_timeout(),
        path: default_path(),
    }
}

/// Whether the certificate that `config` describes is made ready now. One
/// that is issued by an authority is left for later while `init_acme` is not
/// set: the listener that answers the challenges does not run yet.
pub fn needs_certificate(init_acme: bool, config: &CertificateConfig) -> (r: bool)
    ensures
        r == (init_acme || config is Local),
{
    init_acme || match config {
        CertificateConfig::Local { .. } => true,
        CertificateConfig::ACME { .. } => false,
    }
}

/// Which strategy a pool uses.
#[derive(Debug, PartialEq, Eq)]
pub enum LoadBalancingStrategyConfig {
    StickyCookie {
        cookie_name: String,
        http_only: bool,
        secure: bool,
        same_site: StickyCookieSameSite,
        inner: Box<LoadBalancingStrategyConfig>,
    },
    Random,
    IPHash,
    LeastConnection,
    RoundRobin,
}

/// Whether `strategy` is the strategy that `config` describes, in the state
/// in which it starts.
pub open spec fn describes_strategy(
    config: LoadBalancingStrategyConfig,
    strategy: LoadBalancingStrategy,
) -> bool
    decreases config,
{
    match config {
        LoadBalancingStrategyConfig::StickyCookie {
            cookie_name,
            http_only,
            secure,
            same_site,
            inner,
        } => {
            &&& strategy is StickyCookie
            &&& strategy->StickyCookie_0.cookie_name@ == cookie_name@
            &&& strategy->StickyCookie_0.http_only == http_only
            &&& strategy->StickyCookie_0.secure == secure
            &&& strategy->StickyCookie_0.same_site == same_site
            &&& describes_strategy(*inner, *strategy->StickyCookie_0.inner)
        },
        LoadBalancingStrategyConfig::Random => strategy is Random,
        LoadBalancingStrategyConfig::IPHash => strategy is IPHash,
        LoadBalancingStrategyConfig::LeastConnection => {
            &&& strategy is LeastConnection
            &&& strategy->LeastConnection_0.counts() == Map::<Seq<char>, usize>::empty()
        },
        LoadBalancingStrategyConfig::RoundRobin => {
            &&& strategy is RoundRobin
            &&& strategy->RoundRobin_0.counter() == 0
        },
    }
}

/// Makes the strategy that `config` describes.
pub fn strategy_from_config(config: &LoadBalancingStrategyConfig) -> (strategy:
    LoadBalancingStrategy)
    ensures
        describes_strategy(*config, strategy),
        strategy_wf(strategy),
    decreases config,
{
    match config {
        LoadBalancingStrategyConfig::StickyCookie {
            cookie_name,
            http_only,
            secure,
            same_site,
            inner,
        } => {
            let inner = strategy_from_config(inner);
            LoadBalancingStrategy::StickyCookie(
                StickyCookie::new(
                    cookie_name.clone(),
                    Box::new(inner),
                    *http_only,
                    *secure,
                    *same_site,
                ),
            )
        },
        LoadBalancingStrategyConfig::Random => LoadBalancingStrategy::Random(Random::new()),
        LoadBalancingStrategyConfig::IPHash => LoadBalancingStrategy::IPHash(IPHash::new()),
        LoadBalancingStrategyConfig::RoundRobin => LoadBalancingStrategy::RoundRobin(
            RoundRobin::new(),
        ),
        LoadBalancingStrategyConfig::LeastConnection => LoadBalancingStrategy::LeastConnection(
            LeastConnection::new(),
        ),
    }
}

/// A value of the configuration file.
#[derive(Debug, PartialEq, Eq)]
pub enum ConfigValue {
    Text(String),
    Integer(i64),
    Boolean(bool),
    Array(Vec<ConfigValue>),
    Table(Vec<(String, ConfigValue)>),
    /// A value of a kind that no setting takes.
    Other,
}

/// The position of the first entry of `table` under `key`.
pub open spec fn spec_position(table: Seq<(String, ConfigValue)>, key: Seq<char>) -> Option<int>
    decreases table.len(),
{
    if table.len() == 0 {
        None
    } else if table[0].0@ == key {
        Some(0)
    } else {
        match spec_position(table.drop_first(), key) {
            Some(i) => Some(i + 1),
            None => None,
        }
    }
}

/// The integer that `table` holds under `key`.
pub open spec fn spec_integer(table: Seq<(String, ConfigValue)>, key: Seq<char>) -> Option<i64> {
    match spec_position(table, key) {
        Some(i) => match table[i].1 {
            ConfigValue::Integer(n) => Some(n),
            _ => None,
        },
        None => None,
    }
}

/// The text that `table` holds under `key`.
pub open spec fn spec_text(table: Seq<(String, ConfigValue)>, key: Seq<char>) -> Option<Seq<char>> {
    match spec_position(table, key) {
        Some(i) => match table[i].1 {
            ConfigValue::Text(t) => Some(t@),
            _ => None,
        },
        None => None,
    }
}

/// The truth value that `table` holds under `key`.
pub open spec fn spec_boolean(table: Seq<(String, ConfigValue)>, key: Seq<char>) -> Option<bool> {
    match spec_position(table, key) {
        Some(i) => match table[i].1 {
            ConfigValue::Boolean(b) => Some(b),
            _ => None,
        },
        None => None,
    }
}

/// Finds the first entry of `table` under `key`.
pub fn lookup<'a>(table: &'a Vec<(String, ConfigValue)>, key: &str) -> (r: Option<
    &'a ConfigValue,
>)
    ensures
        match r {
            Some(value) => spec_position(table@, key@) is Some && table@[spec_position(
                table@,
                key@,
            )->Some_0].1 == *value,
            None => spec_position(table@, key@) is None,
        },
{
    let mut i: usize = 0;
    assert(table@.subrange(0, table.len() as int) == table@);
    while i < table.len()
        invariant
            0 <= i <= table.len(),
            spec_position(table@, key@) == (match spec_position(
                table@.subrange(i as int, table.len() as int),
                key@,
            ) {
                Some(k) => Some(k + i),
                None => None,
            }),
        decreases table.len() - i,
    {
        let ghost rest = table@.subrange(i as int, table.len() as int);
        assert(rest[0] == table@[i as int]);
        assert(rest.drop_first() == table@.subrange(i + 1, table.len() as int));
        if same_text(table[i].0.as_str(), key) {
            return Some(&table[i].1);
        }
        i += 1;
    }
    None
}

fn integer(table: &Vec<(String, ConfigValue)>, key: &str) -> (r: Option<i64>)
    ensures
        r == spec_integer(table@, key@),
{
    match lookup(table, key) {
        Some(ConfigValue::Integer(n)) => Some(*n),
        _ => None,
    }
}

fn text(table: &Vec<(String, ConfigValue)>, key: &str) -> (r: Option<String>)
    ensures
        match r {
            Some(t) => spec_text(table@, key@) == Some(t@),
            None => spec_text(table@, key@) is None,
        },
{
    match lookup(table, key) {
        Some(ConfigValue::Text(t)) => Some(t.clone()),
        _ => None,
    }
}

fn boolean(table: &Vec<(String, ConfigValue)>, key: &str) -> (r: Option<bool>)
    ensures
        r == spec_boolean(table@, key@),
{
    match lookup(table, key) {
        Some(ConfigValue::Boolean(b)) => Some(*b),
        _ => None,
    }
}

/// A status code as it is taken from an integer of the configuration: the
/// remainder modulo 65536.
pub open spec fn wrapped(n: i64) -> u16 {
    (n as int % 65536) as u16
}

fn wrap(n: i64) -> (r: u16)
    ensures
        r == wrapped(n),
{
    if n >= 0 {
        (n % 65536) as u16
    } else {
        let below: i64 = -(n + 1);
        let r = 65535 - (below % 65536);
        assert(r == n as int % 65536) by {
            let q = below as int / 65536;
            vstd::arithmetic::div_mod::lemma_fundamental_div_mod(below as int, 65536);
            assert(n as int == (-q - 1) * 65536 + r);
            vstd::arithmetic::div_mod::lemma_fundamental_div_mod_converse(
                n as int,
                65536,
                -q - 1,
                r as int,
            );
        }
        r as u16
    }
}

/// The status codes among the values `values`: the integers, in their
/// order; any other value is passed over.
pub open spec fn spec_codes(values: Seq<ConfigValue>) -> Seq<u16>
    decreases values.len(),
{
    if values.len() == 0 {
        Seq::empty()
    } else {
        match values.last() {
            ConfigValue::Integer(n) => spec_codes(values.drop_last()).push(wrapped(n)),
            _ => spec_codes(values.drop_last()),
        }
    }
}

fn codes(values: &Vec<ConfigValue>) -> (r: Vec<u16>)
    ensures
        r@ == spec_codes(values@),
{
    let mut r: Vec<u16> = Vec::new();
    let mut i: usize = 0;
    assert(values@.subrange(0, 0) =~= Seq::<ConfigValue>::empty());
    while i < values.len()
        invariant
            0 <= i <= values.len(),
            r@ == spec_codes(values@.subrange(0, i as int)),
        decreases values.len() - i,
    {
        assert(values@.subrange(0, i + 1).drop_last() == values@.subrange(0, i as int));
        if let ConfigValue::Integer(n) = &values[i] {
            r.push(wrap(*n));
        }
        i += 1;
    }
    assert(values@.subrange(0, values.len() as int) == values@);
    r
}

/// What a middleware is set up with.
pub enum MiddlewareModel {
    Compression,
    HttpsRedirector,
    Authentication {
        ldap_address: Seq<char>,
        user_directory: Seq<char>,
        rdn_identifier: Seq<char>,
        recursive: bool,
    },
    RateLimiter { limit: u64, window_sec: u64 },
    MaxBodySize { limit: i64 },
    CustomErrorPages { location: Seq<char>, errors: Seq<u16> },
}

/// What `m` is set up with.
pub open spec fn model_of(m: Middleware) -> MiddlewareModel {
    match m {
        Middleware::Compression(_) => MiddlewareModel::Compression,
        Middleware::HttpsRedirector(_) => MiddlewareModel::HttpsRedirector,
        Middleware::Authentication(a) => MiddlewareModel::Authentication {
            ldap_address: a.ldap_address@,
            user_directory: a.user_directory@,
            rdn_identifier: a.rdn_identifier@,
            recursive: a.recursive,
        },
        Middleware::RateLimiter(l) => MiddlewareModel::RateLimiter {
            limit: l.limit(),
            window_sec: l.window(),
        },
        Middleware::MaxBodySize(m) => MiddlewareModel::MaxBodySize { limit: m.limit },
        Middleware::CustomErrorPages(c) => MiddlewareModel::CustomErrorPages {
            location: c.location@,
            errors: c.errors@,
        },
    }
}

/// Whether `m` is in the state in which a middleware starts.
pub open spec fn is_fresh(m: Middleware) -> bool {
    match m {
        Middleware::RateLimiter(l) => l.entries() == Seq::<(ClientKey, Visit)>::empty(),
        _ => true,
    }
}

/// A number of the configuration as a count; `None` where it is negative.
pub open spec fn as_count(n: Option<i64>) -> Option<u64> {
    match n {
        Some(n) => if n >= 0 {
            Some(n as u64)
        } else {
            None
        },
        None => None,
    }
}

/// The middleware that the entry `name` with the settings `payload`
/// describes, or `None` where it describes none: the name is not that of a
/// middleware, or a setting is missing or of the wrong kind.
pub open spec fn spec_middleware(name: Seq<char>, payload: ConfigValue) -> Option<MiddlewareModel> {
    if name == "RateLimiter"@ {
        match payload {
            ConfigValue::Table(t) => match (
                as_count(spec_integer(t@, "limit"@)),
                as_count(spec_integer(t@, "window_sec"@)),
            ) {
                (Some(limit), Some(window_sec)) => Some(
                    MiddlewareModel::RateLimiter { limit, window_sec },
                ),
                _ => None,
            },
            _ => None,
        }
    } else if name == "Authentication"@ {
        match payload {
            ConfigValue::Table(t) => match (
                spec_text(t@, "ldap_address"@),
                spec_text(t@, "user_directory"@),
                spec_text(t@, "rdn_identifier"@),
                spec_boolean(t@, "recursive"@),
            ) {
                (Some(ldap_address), Some(user_directory), Some(rdn_identifier), Some(recursive)) => Some(
                    MiddlewareModel::Authentication {
                        ldap_address,
                        user_directory,
                        rdn_identifier,
                        recursive,
                    },
                ),
                _ => None,
            },
            _ => None,
        }
    } else if name == "Compression"@ {
        Some(MiddlewareModel::Compression)
    } else if name == "HttpsRedirector"@ {
        Some(MiddlewareModel::HttpsRedirector)
    } else if name == "MaxBodySize"@ {
        match payload {
            ConfigValue::Table(t) => match spec_integer(t@, "limit"@) {
                Some(limit) => Some(MiddlewareModel::MaxBodySize { limit }),
                None => None,
            },
            _ => None,
        }
    } else if name == "CustomErrorPages"@ {
        match payload {
            ConfigValue::Table(t) => match spec_text(t@, "location"@) {
                Some(location) => match spec_position(t@, "errors"@) {
                    Some(i) => match t@[i].1 {
                        ConfigValue::Array(values) => Some(
                            MiddlewareModel::CustomErrorPages {
                                location,
                                errors: spec_codes(values@),
                            },
                        ),
                        _ => None,
                    },
                    None => None,
                },
                None => None,
            },
            _ => None,
        }
    } else {
        None
    }
}

fn count(n: Option<i64>) -> (r: Option<u64>)
    ensures
        r == as_count(n),
{
    match n {
        Some(n) => if n >= 0 {
            Some(n as u64)
        } else {
            None
        },
        None => None,
    }
}

/// Makes the middleware that an entry of the configuration describes.
pub fn middleware_from_config(name: &str, payload: &ConfigValue) -> (r: Option<Middleware>)
    ensures
        match r {
            Some(m) => spec_middleware(name@, *payload) == Some(model_of(m)) && is_fresh(m)
                && m.wf(),
            None => spec_middleware(name@, *payload) is None,
        },
{
    if same_text(name, "RateLimiter") {
        match payload {
            ConfigValue::Table(t) => {
                let limit = count(integer(t, "limit"))?;
                let window_sec = count(integer(t, "window_sec"))?;
                Some(Middleware::RateLimiter(RateLimiter::new(limit, window_sec)))
            },
            _ => None,
        }
    } else if same_text(name, "Authentication") {
        match payload {
            ConfigValue::Table(t) => {
                let ldap_address = text(t, "ldap_address")?;
                let user_directory = text(t, "user_directory")?;
                let rdn_identifier = text(t, "rdn_identifier")?;
                let recursive = boolean(t, "recursive")?;
                Some(
                    Middleware::Authentication(
                        Authentication { ldap_address, user_directory, rdn_identifier, recursive },
                    ),
                )
            },
            _ => None,
        }
    } else if same_text(name, "Compression") {
        Some(Middleware::Compression(Compression))
    } else if same_text(name, "HttpsRedirector") {
        Some(Middleware::HttpsRedirector(HttpsRedirector))
    } else if same_text(name, "MaxBodySize") {
        match payload {
            ConfigValue::Table(t) => {
                let limit = integer(t, "limit")?;
                Some(Middleware::MaxBodySize(MaxBodySize { limit }))
            },
            _ => None,
        }
    } else if same_text(name, "CustomErrorPages") {
        match payload {
            ConfigValue::Table(t) => {
                let location = text(t, "location")?;
                match lookup(t, "errors") {
                    Some(ConfigValue::Array(values)) => Some(
                        Middleware::CustomErrorPages(
                            CustomErrorPages { location, errors: codes(values) },
                        ),
                    ),
                    _ => None,
                }
            },
            _ => None,
        }
    } else {
        None
    }
}

/// The middlewares that the entries `table` describe, in their order; an
/// entry that describes none is passed over.
pub open spec fn spec_chain(table: Seq<(String, ConfigValue)>) -> Seq<MiddlewareModel>
    decreases table.len(),
{
    if table.len() == 0 {
        Seq::empty()
    } else {
        match spec_middleware(table.last().0@, table.last().1) {
            Some(m) => spec_chain(table.drop_last()).push(m),
            None => spec_chain(table.drop_last()),
        }
    }
}

/// What the stages of a chain are set up with.
pub open spec fn chain_model(entries: Seq<Middleware>) -> Seq<MiddlewareModel> {
    entries.map_values(|m: Middleware| model_of(m))
}

/// Makes the chain that the entries of the configuration describe.
pub fn chain_from_config(table: &Vec<(String, ConfigValue)>) -> (chain: MiddlewareChain)
    ensures
        chain_model(chain.entries@) == spec_chain(table@),
        chain.wf(),
        forall|i: int| 0 <= i < chain.entries@.len() ==> is_fresh(#[trigger] chain.entries@[i]),
{
    let mut entries: Vec<Middleware> = Vec::new();
    let mut i: usize = 0;
    assert(table@.subrange(0, 0) =~= Seq::<(String, ConfigValue)>::empty());
    assert(chain_model(entries@) =~= Seq::<MiddlewareModel>::empty());
    while i < table.len()
        invariant
            0 <= i <= table.len(),
            chain_model(entries@) == spec_chain(table@.subrange(0, i as int)),
            forall|k: int|
                0 <= k < entries@.len() ==> (#[trigger] entries@[k]).wf() && is_fresh(entries@[k]),
        decreases table.len() - i,
    {
        assert(table@.subrange(0, i + 1).drop_last() == table@.subrange(0, i as int));
        if let Some(middleware) = middleware_from_config(table[i].0.as_str(), &table[i].1) {
            let ghost before = entries@;
            entries.push(middleware);
            assert(chain_model(entries@) =~= chain_model(before).push(model_of(middleware)));
        }
        i += 1;
    }
    assert(table@.subrange(0, table.len() as int) == table@);
    MiddlewareChain { entries }
}

/// What the configuration says of a pool.
#[derive(Debug)]
pub struct BackendPoolConfig {
    pub matcher: String,
    pub addresses: Vec<String>,
    pub schemes: Vec<Scheme>,
    pub client: Option<ClientConfig>,
    pub health_config: HealthTomlConfig,
    pub strategy: LoadBalancingStrategyConfig,
    pub middlewares: Vec<(String, ConfigValue)>,
}

/// Why a configuration cannot be used.
#[derive(Debug, Clone, Copy, PartialEq, Eq)]
pub enum ConfigError {
    /// The rule of the pool with this index cannot be used.
    Matcher(usize, MatcherError),
    /// The pool with this index names an address twice.
    DuplicateAddress(usize),
}

/// Whether every backend of `addresses` counts as healthy and the addresses
/// are `texts`, in their order.
pub open spec fn all_healthy(addresses: Seq<(String, Healthiness)>, texts: Seq<String>) -> bool {
    &&& addresses.len() == texts.len()
    &&& forall|i: int|
        0 <= i < texts.len() ==> (#[trigger] addresses[i]).0@ == texts[i]@ && addresses[i].1
            == Healthiness::Healthy
}

/// Whether `pool` is the pool that `config` describes, as it starts: every
/// backend counts as healthy, and the strategy and the middlewares have seen
/// nothing yet.
pub open spec fn describes_pool(config: BackendPoolConfig, pool: BackendPool) -> bool {
    &&& spec_parse(config.matcher@) == Ok::<MatcherModel, MatcherError>(pool.matcher@)
    &&& all_healthy(pool.addresses@, config.addresses@)
    &&& unique_addresses(pool.addresses@)
    &&& pool.health_config.slow_threshold == config.health_config.slow_threshold
    &&& pool.health_config.timeout == config.health_config.timeout
    &&& pool.health_config.path@ == config.health_config.path@
    &&& describes_strategy(config.strategy, pool.strategy)
    &&& chain_model(pool.chain.entries@) == spec_chain(config.middlewares@)
    &&& forall|i: int|
        0 <= i < pool.chain.entries@.len() ==> is_fresh(#[trigger] pool.chain.entries@[i])
    &&& pool.schemes == config.schemes
    &&& pool.pool_idle_timeout == (match config.client {
        Some(c) => c.pool_idle_timeout,
        None => None,
    })
    &&& pool.pool_max_idle_per_host == (match config.client {
        Some(c) => c.pool_max_idle_per_host,
        None => None,
    })
}

/// Why the pool that `config` describes cannot be made, if it cannot: its
/// rule is refused, or else it names an address twice.
pub open spec fn pool_fault(config: BackendPoolConfig) -> Option<PoolFault> {
    match spec_parse(config.matcher@) {
        Err(e) => Some(PoolFault::Matcher(e)),
        Ok(_) => if exists|i: int, j: int|
            0 <= i < j < config.addresses@.len() && config.addresses@[i]@
                == config.addresses@[j]@ {
            Some(PoolFault::DuplicateAddress)
        } else {
            None
        },
    }
}

/// What is wrong with the description of a pool.
#[derive(Debug, Clone, Copy, PartialEq, Eq)]
pub enum PoolFault {
    Matcher(MatcherError),
    DuplicateAddress,
}

/// Makes the pool that `config` describes.
pub fn pool_from_config(config: BackendPoolConfig) -> (r: Result<BackendPool, PoolFault>)
    ensures
        match r {
            Ok(pool) => pool_fault(config) is None && describes_pool(config, pool) && pool.wf(),
            Err(fault) => pool_fault(config) == Some(fault),
        },
{
    let matcher = match BackendPoolMatcher::parse(config.matcher.as_str()) {
        Ok(matcher) => matcher,
        Err(e) => {
            return Err(PoolFault::Matcher(e));
        },
    };
    let mut addresses: Vec<(String, Healthiness)> = Vec::new();
    let mut i: usize = 0;
    while i < config.addresses.len()
        invariant
            0 <= i <= config.addresses.len(),
            addresses@.len() == i,
            forall|k: int|
                0 <= k < i ==> (#[trigger] addresses@[k]).0@ == config.addresses@[k]@
                    && addresses@[k].1 == Healthiness::Healthy,
        decreases config.addresses.len() - i,
    {
        addresses.push((config.addresses[i].clone(), Healthiness::Healthy));
        i += 1;
    }
    let strategy = strategy_from_config(&config.strategy);
    let chain = chain_from_config(&config.middlewares);
    let health_config = HealthConfig {
        slow_threshold: config.health_config.slow_threshold,
        timeout: config.health_config.timeout,
        path: config.health_config.path,
    };
    let mut builder = BackendPoolBuilder::new(
        matcher,
        addresses,
        health_config,
        strategy,
        chain,
        config.schemes,
    );
    if let Some(client) = config.client {
        if let Some(pool_idle_timeout) = client.pool_idle_timeout {
            builder.pool_idle_timeout(pool_idle_timeout);
        }
        if let Some(pool_max_idle_per_host) = client.pool_max_idle_per_host {
            builder.pool_max_idle_per_host(pool_max_idle_per_host);
        }
    }
    let pool = builder.build();
    if pool.has_unique_addresses() {
        assert(pool_fault(config) is None) by {
            if exists|i: int, j: int|
                0 <= i < j < config.addresses@.len() && config.addresses@[i]@
                    == config.addresses@[j]@ {
                let (a, b) = choose|a: int, b: int|
                    0 <= a < b < config.addresses@.len() && config.addresses@[a]@
                        == config.addresses@[b]@;
                assert(pool.addresses@[a].0@ == pool.addresses@[b].0@);
            }
        }
        Ok(pool)
    } else {
        proof {
            let (a, b) = choose|a: int, b: int|
                0 <= a < b < pool.addresses@.len() && pool.addresses@[a].0@
                    == pool.addresses@[b].0@;
            assert(config.addresses@[a]@ == config.addresses@[b]@);
        }
        Err(PoolFault::DuplicateAddress)
    }
}

/// What is odd about a configuration that can be used all the same.
#[derive(Debug, Clone, Copy, PartialEq, Eq)]
pub enum ConfigWarning {
    /// No pool is configured.
    NoBackendPool,
    /// The pool with this index serves no scheme and cannot be reached.
    NoSchemes(usize),
    /// The pool with this index has no backend and always answers `502`.
    NoAddresses(usize),
    /// The plain listener keeps its address until the proxy is started anew.
    HttpAddressIgnored,
    /// The TLS listener keeps its address until the proxy is started anew.
    HttpsAddressIgnored,
}

/// The warnings that the first `n` of `pools` give rise to, pool by pool.
pub open spec fn pool_warnings(pools: Seq<BackendPoolConfig>, n: int) -> Seq<ConfigWarning>
    decreases n,
{
    if n <= 0 || n > pools.len() {
        Seq::empty()
    } else {
        pool_warnings(pools, n - 1) + (if pools[n - 1].schemes@.len() == 0 {
            seq![ConfigWarning::NoSchemes((n - 1) as usize)]
        } else {
            Seq::empty()
        }) + (if pools[n - 1].addresses@.len() == 0 {
            seq![ConfigWarning::NoAddresses((n - 1) as usize)]
        } else {
            Seq::empty()
        })
    }
}

/// The warnings that the pools `pools` give rise to.
pub open spec fn spec_warnings(pools: Seq<BackendPoolConfig>) -> Seq<ConfigWarning> {
    if pools.len() == 0 {
        seq![ConfigWarning::NoBackendPool]
    } else {
        pool_warnings(pools, pools.len() as int)
    }
}

/// Looks the pools over for what makes them useless.
pub fn print_warnings(backend_pools: &Vec<BackendPoolConfig>) -> (warnings: Vec<ConfigWarning>)
    ensures
        warnings@ == spec_warnings(backend_pools@),
{
    let mut warnings: Vec<ConfigWarning> = Vec::new();
    if backend_pools.len() == 0 {
        warnings.push(ConfigWarning::NoBackendPool);
        assert(warnings@ =~= seq![ConfigWarning::NoBackendPool]);
        return warnings;
    }
    let mut index: usize = 0;
    while index < backend_pools.len()
        invariant
            0 <= index <= backend_pools.len(),
            warnings@ == pool_warnings(backend_pools@, index as int),
        decreases backend_pools.len() - index,
    {
        if backend_pools[index].schemes.len() == 0 {
            warnings.push(ConfigWarning::NoSchemes(index));
        }
        if backend_pools[index].addresses.len() == 0 {
            warnings.push(ConfigWarning::NoAddresses(index));
        }
        index += 1;
        assert(warnings@ =~= pool_warnings(backend_pools@, index as int));
    }
    warnings
}

/// The configuration that the proxy runs with.
#[derive(Debug)]
pub struct RuntimeConfig {
    pub http_address: ClientAddress,
    pub https_address: ClientAddress,
    pub shared_data: SharedData,
    /// The seconds between two rounds of probes.
    pub health_interval: u64,
}

/// Whether `pools` are the pools that `configs` describe, in their order.
pub open spec fn describes_pools(configs: Seq<BackendPoolConfig>, pools: Seq<BackendPool>) -> bool {
    &&& pools.len() == configs.len()
    &&& forall|i: int|
        0 <= i < configs.len() ==> describes_pool(#[trigger] configs[i], pools[i]) && pools[i].wf()
}

/// The first pool among `configs` that cannot be made, with the reason.
pub open spec fn first_fault(configs: Seq<BackendPoolConfig>, from: int) -> Option<ConfigError>
    decreases configs.len() - from,
{
    if from < 0 || from >= configs.len() {
        None
    } else {
        match pool_fault(configs[from]) {
            Some(PoolFault::Matcher(e)) => Some(ConfigError::Matcher(from as usize, e)),
            Some(PoolFault::DuplicateAddress) => Some(ConfigError::DuplicateAddress(from as usize)),
            None => first_fault(configs, from + 1),
        }
    }
}

/// Makes the running configuration of what the file says. Fails where a pool
/// cannot be made; the pools before it have then been made in vain.
pub fn runtime_config_from_toml_config(
    http_address: ClientAddress,
    https_address: ClientAddress,
    backend_pools: Vec<BackendPoolConfig>,
    health_interval: HealthIntervalConfig,
    acme_handler: AcmeHandler,
) -> (r: Result<RuntimeConfig, ConfigError>)
    ensures
        match r {
            Ok(config) => {
                &&& first_fault(backend_pools@, 0) is None
                &&& config.http_address == http_address
                &&& config.https_address == https_address
                &&& config.health_interval == health_interval.check_every
                &&& config.shared_data.acme_handler == acme_handler
                &&& describes_pools(backend_pools@, config.shared_data.backend_pools@)
                &&& config.shared_data.wf()
            },
            Err(e) => first_fault(backend_pools@, 0) == Some(e),
        },
{
    let ghost configs = backend_pools@;
    let mut remaining = backend_pools;
    let mut pools: Vec<BackendPool> = Vec::new();
    while remaining.len() > 0
        invariant
            configs == backend_pools@,
            pools@.len() + remaining@.len() == configs.len(),
            remaining@ == configs.subrange(pools@.len() as int, configs.len() as int),
            first_fault(configs, 0) == first_fault(configs, pools@.len() as int),
            forall|i: int|
                0 <= i < pools@.len() ==> describes_pool(#[trigger] configs[i], pools@[i])
                    && pools@[i].wf(),
            forall|i: int| 0 <= i < pools@.len() ==> (#[trigger] pools@[i]).wf(),
        decreases remaining@.len(),
    {
        let index = pools.len();
        let ghost made = pools@;
        let config = remaining.remove(0);
        assert(config == configs[index as int]);
        assert(remaining@ == configs.subrange(index + 1, configs.len() as int));
        let result = pool_from_config(config);
        assert(first_fault(configs, index as int) == (match pool_fault(configs[index as int]) {
            Some(PoolFault::Matcher(e)) => Some(ConfigError::Matcher(index, e)),
            Some(PoolFault::DuplicateAddress) => Some(ConfigError::DuplicateAddress(index)),
            None => first_fault(configs, index + 1),
        }));
        match result {
            Ok(pool) => {
                pools.push(pool);
                assert(forall|i: int| 0 <= i < made.len() ==> pools@[i] == made[i]);
            },
            Err(PoolFault::Matcher(e)) => {
                return Err(ConfigError::Matcher(index, e));
            },
            Err(PoolFault::DuplicateAddress) => {
                return Err(ConfigError::DuplicateAddress(index));
            },
        }
    }
    Ok(
        RuntimeConfig {
            http_address,
            https_address,
            shared_data: SharedData { backend_pools: pools, acme_handler },
            health_interval: health_interval.check_every,
        },
    )
}

/// Whether two addresses are the same.
pub fn same_address(a: &ClientAddress, b: &ClientAddress) -> (r: bool)
    ensures
        r == (a.port == b.port && a.ip.octets() == b.ip.octets() && (a.ip is V4 == b.ip is V4)),
{
    let x = crate::middleware::rate_limiter::client_key(a);
    let y = crate::middleware::rate_limiter::client_key(b);
    proof {
        if x == y {
            crate::middleware::rate_limiter::lemma_key_tells_addresses_apart(*a, *b);
        }
        if a.port == b.port && a.ip.octets() == b.ip.octets() && (a.ip is V4 == b.ip is V4) {
            match (a.ip, b.ip) {
                (crate::http::IpAddress::V4(o), crate::http::IpAddress::V4(p)) => {
                    assert(o@ == p@);
                    assert(forall|i: int| 0 <= i < 4 ==> o[i] == p[i]);
                },
                (crate::http::IpAddress::V6(o), crate::http::IpAddress::V6(p)) => {
                    assert(o@ == p@);
                    assert(forall|i: int| 0 <= i < 16 ==> o[i] == p[i]);
                },
                _ => {},
            }
        }
    }
    x.0 == y.0 && x.1 == y.1 && x.2 == y.2
}

/// The changes of a new configuration that do not take effect: the addresses
/// of the listeners, which stay bound as they are.
pub fn warn_about_ineffectual_config_changes(old: &RuntimeConfig, new: &RuntimeConfig) -> (warnings:
    Vec<ConfigWarning>)
    ensures
        warnings@ == (if same_addresses(old.http_address, new.http_address) {
            Seq::<ConfigWarning>::empty()
        } else {
            seq![ConfigWarning::HttpAddressIgnored]
        }) + (if same_addresses(old.https_address, new.https_address) {
            Seq::<ConfigWarning>::empty()
        } else {
            seq![ConfigWarning::HttpsAddressIgnored]
        }),
{
    let mut warnings: Vec<ConfigWarning> = Vec::new();
    if !same_address(&old.http_address, &new.http_address) {
        warnings.push(ConfigWarning::HttpAddressIgnored);
    }
    if !same_address(&old.https_address, &new.https_address) {
        warnings.push(ConfigWarning::HttpsAddressIgnored);
    }
    assert(warnings@ =~= (if same_addresses(old.http_address, new.http_address) {
        Seq::<ConfigWarning>::empty()
    } else {
        seq![ConfigWarning::HttpAddressIgnored]
    }) + (if same_addresses(old.https_address, new.https_address) {
        Seq::<ConfigWarning>::empty()
    } else {
        seq![ConfigWarning::HttpsAddressIgnored]
    }));
    warnings
}

/// Whether `a` and `b` are the same address.
pub open spec fn same_addresses(a: ClientAddress, b: ClientAddress) -> bool {
    a.port == b.port && a.ip.octets() == b.ip.octets() && (a.ip is V4 == b.ip is V4)
}

} // verus!

use arlb::acme::AcmeHandler;
use arlb::backend_pool_matcher::{BackendPoolMatcher, MatcherError};
use arlb::configuration::{
  chain_from_config, default_health_config, default_health_interval_config, default_http_address,
  default_https_address, default_path, default_slow_threshold, default_timeout, lookup, middleware_from_config,
  needs_certificate, pool_from_config, print_warnings, runtime_config_from_toml_config, same_address,
  strategy_from_config, warn_about_ineffectual_config_changes, BackendPoolConfig, CertificateConfig, ClientConfig,
  ConfigError, ConfigValue, ConfigWarning, HealthIntervalConfig, HealthTomlConfig, LoadBalancingStrategyConfig,
  PoolFault, RuntimeConfig, StickyCookieSameSite,
};
use arlb::health::Healthiness;
use arlb::http::{ClientAddress, IpAddress, Scheme};
use arlb::load_balancing::LoadBalancingStrategy;
use arlb::middleware::Middleware;
use arlb::server::SharedData;

fn table(entries: Vec<(&str, ConfigValue)>) -> ConfigValue {
  ConfigValue::Table(entries.into_iter().map(|(k, v)| (k.to_string(), v)).collect())
}

fn text(value: &str) -> ConfigValue {
  ConfigValue::Text(value.to_string())
}

fn pool_config(matcher: &str, addresses: Vec<&str>) -> BackendPoolConfig {
  BackendPoolConfig {
    matcher: matcher.to_string(),
    addresses: addresses.into_iter().map(|a| a.to_string()).collect(),
    schemes: vec![Scheme::HTTP],
    client: None,
    health_config: default_health_config(),
    strategy: LoadBalancingStrategyConfig::RoundRobin,
    middlewares: Vec::new(),
  }
}

fn address(last: u8, port: u16) -> ClientAddress {
  ClientAddress {
    ip: IpAddress::V4([0, 0, 0, last]),
    port,
  }
}

#[test]
fn defaults_are_as_documented() {
  assert_eq!(default_http_address(), "[::]:80");
  assert_eq!(default_https_address(), "[::]:443");
  assert_eq!(default_health_interval_config(), HealthIntervalConfig { check_every: 10 });
  assert_eq!(default_slow_threshold(), 300);
  assert_eq!(default_timeout(), 500);
  assert_eq!(default_path(), "/");
  assert_eq!(
    default_health_config(),
    HealthTomlConfig {
      slow_threshold: 300,
      timeout: 500,
      path: "/".to_string()
    }
  );
}

#[test]
fn certificates_of_an_authority_wait_for_the_listener() {
  let local = CertificateConfig::Local {
    certificate_path: "cert.pem".to_string(),
    private_key_path: "key.pem".to_string(),
  };
  let acme = CertificateConfig::ACME {
    staging: true,
    email: "a@b.c".to_string(),
    persist_dir: "certs".to_string(),
  };
  assert!(needs_certificate(false, &local));
  assert!(needs_certificate(true, &local));
  assert!(!needs_certificate(false, &acme));
  assert!(needs_certificate(true, &acme));
}

#[test]
fn strategies_are_made_of_their_description() {
  assert!(matches!(
    strategy_from_config(&LoadBalancingStrategyConfig::Random),
    LoadBalancingStrategy::Random(_)
  ));
  assert!(matches!(
    strategy_from_config(&LoadBalancingStrategyConfig::IPHash),
    LoadBalancingStrategy::IPHash(_)
  ));
  assert!(matches!(
    strategy_from_config(&LoadBalancingStrategyConfig::RoundRobin),
    LoadBalancingStrategy::RoundRobin(_)
  ));
  assert!(matches!(
    strategy_from_config(&LoadBalancingStrategyConfig::LeastConnection),
    LoadBalancingStrategy::LeastConnection(_)
  ));
  let sticky = LoadBalancingStrategyConfig::StickyCookie {
    cookie_name: "lb".to_string(),
    http_only: true,
    secure: false,
    same_site: StickyCookieSameSite::Strict,
    inner: Box::new(LoadBalancingStrategyConfig::LeastConnection),
  };
  match strategy_from_config(&sticky) {
    LoadBalancingStrategy::StickyCookie(s) => {
      assert_eq!(s.cookie_name, "lb");
      assert!(s.http_only);
      assert!(!s.secure);
      assert_eq!(s.same_site, StickyCookieSameSite::Strict);
      assert!(matches!(*s.inner, LoadBalancingStrategy::LeastConnection(_)));
    }
    other => panic!("unexpected {:?}", other),
  }
}

#[test]
fn tables_are_searched_by_key() {
  let entries = vec![
    ("a".to_string(), ConfigValue::Integer(1)),
    ("b".to_string(), ConfigValue::Boolean(true)),
    ("a".to_string(), ConfigValue::Integer(2)),
  ];
  assert_eq!(lookup(&entries, "a"), Some(&ConfigValue::Integer(1)));
  assert_eq!(lookup(&entries, "b"), Some(&ConfigValue::Boolean(true)));
  assert_eq!(lookup(&entries, "c"), None);
  assert_eq!(lookup(&entries, "A"), None);
}

#[test]
fn middlewares_are_made_of_their_description() {
  assert!(matches!(
    middleware_from_config("Compression", &ConfigValue::Other),
    Some(Middleware::Compression(_))
  ));
  assert!(matches!(
    middleware_from_config("HttpsRedirector", &table(vec![])),
    Some(Middleware::HttpsRedirector(_))
  ));
  match middleware_from_config("MaxBodySize", &table(vec![("limit", ConfigValue::Integer(-4))])) {
    Some(Middleware::MaxBodySize(m)) => assert_eq!(m.limit, -4),
    other => panic!("unexpected {:?}", other),
  }
  match middleware_from_config(
    "RateLimiter",
    &table(vec![
      ("window_sec", ConfigValue::Integer(1)),
      ("limit", ConfigValue::Integer(2)),
    ]),
  ) {
    Some(Middleware::RateLimiter(mut limiter)) => {
      let who = address(1, 1);
      assert!(limiter.count_request(&who, 0));
      assert!(limiter.count_request(&who, 999));
      assert!(!limiter.count_request(&who, 999));
      assert!(limiter.count_request(&who, 1999));
    }
    other => panic!("unexpected {:?}", other),
  }
  match middleware_from_config(
    "Authentication",
    &table(vec![
      ("ldap_address", text("ldap://l")),
      ("user_directory", text("ou=u")),
      ("rdn_identifier", text("cn")),
      ("recursive", ConfigValue::Boolean(true)),
    ]),
  ) {
    Some(Middleware::Authentication(a)) => {
      assert_eq!(a.ldap_address, "ldap://l");
      assert_eq!(a.user_directory, "ou=u");
      assert_eq!(a.rdn_identifier, "cn");
      assert!(a.recursive);
    }
    other => panic!("unexpected {:?}", other),
  }
  match middleware_from_config(
    "CustomErrorPages",
    &table(vec![
      ("location", text("pages")),
      (
        "errors",
        ConfigValue::Array(vec![
          ConfigValue::Integer(404),
          text("502"),
          ConfigValue::Integer(65536 + 500),
          ConfigValue::Integer(-1),
          ConfigValue::Integer(i64::MIN),
          ConfigValue::Other,
        ]),
      ),
    ]),
  ) {
    Some(Middleware::CustomErrorPages(pages)) => {
      assert_eq!(pages.location, "pages");
      assert_eq!(pages.errors, vec![404, 500, 65535, 0]);
    }
    other => panic!("unexpected {:?}", other),
  }
}

#[test]
fn descriptions_with_faults_make_no_middleware() {
  for (name, payload) in [
    ("Unknown", table(vec![])),
    ("compression", ConfigValue::Other),
    ("MaxBodySize", ConfigValue::Integer(3)),
    ("MaxBodySize", table(vec![])),
    ("MaxBodySize", table(vec![("limit", text("3"))])),
    ("RateLimiter", table(vec![("limit", ConfigValue::Integer(2))])),
    (
      "RateLimiter",
      table(vec![
        ("limit", ConfigValue::Integer(-1)),
        ("window_sec", ConfigValue::Integer(1)),
      ]),
    ),
    (
      "RateLimiter",
      table(vec![
        ("limit", ConfigValue::Integer(1)),
        ("window_sec", ConfigValue::Integer(-1)),
      ]),
    ),
    (
      "Authentication",
      table(vec![
        ("ldap_address", text("ldap://l")),
        ("user_directory", text("ou=u")),
        ("rdn_identifier", text("cn")),
      ]),
    ),
    ("CustomErrorPages", table(vec![("location", text("pages"))])),
    (
      "CustomErrorPages",
      table(vec![("location", text("pages")), ("errors", ConfigValue::Integer(404))]),
    ),
    ("CustomErrorPages", table(vec![("errors", ConfigValue::Array(vec![]))])),
  ] {
    assert!(middleware_from_config(name, &payload).is_none(), "{} {:?}", name, payload);
  }
}

#[test]
fn chains_keep_the_order_of_the_entries() {
  let entries = vec![
    ("MaxBodySize".to_string(), table(vec![("limit", ConfigValue::Integer(1))])),
    ("Nonsense".to_string(), ConfigValue::Other),
    ("Compression".to_string(), ConfigValue::Other),
    ("MaxBodySize".to_string(), ConfigValue::Other),
    ("HttpsRedirector".to_string(), ConfigValue::Other),
  ];
  let chain = chain_from_config(&entries);
  assert_eq!(chain.entries.len(), 3);
  assert!(matches!(chain.entries[0], Middleware::MaxBodySize(_)));
  assert!(matches!(chain.entries[1], Middleware::Compression(_)));
  assert!(matches!(chain.entries[2], Middleware::HttpsRedirector(_)));
  assert!(chain_from_config(&Vec::new()).entries.is_empty());
}

#[test]
fn pools_are_made_of_their_description() {
  let mut config = pool_config("Host('a.de') && Path('/x')", vec!["a:1", "b:1"]);
  config.client = Some(ClientConfig {
    pool_idle_timeout: Some(30),
    pool_max_idle_per_host: None,
  });
  config.health_config.path = "/health".to_string();
  config.middlewares = vec![("Compression".to_string(), ConfigValue::Other)];
  let pool = pool_from_config(config).unwrap();
  assert_eq!(
    pool.matcher,
    BackendPoolMatcher::And(
      Box::new(BackendPoolMatcher::Host("a.de".to_string())),
      Box::new(BackendPoolMatcher::Path("/x".to_string()))
    )
  );
  assert_eq!(
    pool.addresses,
    vec![
      ("a:1".to_string(), Healthiness::Healthy),
      ("b:1".to_string(), Healthiness::Healthy)
    ]
  );
  assert_eq!(pool.health_config.slow_threshold, 300);
  assert_eq!(pool.health_config.timeout, 500);
  assert_eq!(pool.health_config.path, "/health");
  assert_eq!(pool.schemes, vec![Scheme::HTTP]);
  assert_eq!(pool.pool_idle_timeout, Some(30));
  assert_eq!(pool.pool_max_idle_per_host, None);
  assert_eq!(pool.chain.entries.len(), 1);
  assert!(matches!(pool.strategy, LoadBalancingStrategy::RoundRobin(_)));
}

#[test]
fn pools_with_faults_are_refused() {
  assert_eq!(
    pool_from_config(pool_config("Host('a.de'", vec!["a:1"])).unwrap_err(),
    PoolFault::Matcher(MatcherError::Syntax)
  );
  assert_eq!(
    pool_from_config(pool_config("HostRegexp('(')", vec!["a:1", "a:1"])).unwrap_err(),
    PoolFault::Matcher(MatcherError::Regex)
  );
  assert_eq!(
    pool_from_config(pool_config("Host('a.de')", vec!["a:1", "b:1", "a:1"])).unwrap_err(),
    PoolFault::DuplicateAddress
  );
}

#[test]
fn useless_pools_are_warned_about() {
  assert_eq!(print_warnings(&Vec::new()), vec![ConfigWarning::NoBackendPool]);
  let mut unreachable = pool_config("Host('a')", vec!["a:1"]);
  unreachable.schemes = Vec::new();
  let mut both = pool_config("Host('a')", vec![]);
  both.schemes = Vec::new();
  let pools = vec![
    pool_config("Host('a')", vec!["a:1"]),
    unreachable,
    pool_config("Host('a')", vec![]),
    both,
  ];
  assert_eq!(
    print_warnings(&pools),
    vec![
      ConfigWarning::NoSchemes(1),
      ConfigWarning::NoAddresses(2),
      ConfigWarning::NoSchemes(3),
      ConfigWarning::NoAddresses(3)
    ]
  );
}

fn runtime(http: ClientAddress, https: ClientAddress) -> RuntimeConfig {
  RuntimeConfig {
    http_address: http,
    https_address: https,
    shared_data: SharedData {
      backend_pools: Vec::new(),
      acme_handler: AcmeHandler::new(),
    },
    health_interval: 10,
  }
}

#[test]
fn running_configuration_is_made_of_the_pools() {
  let config = runtime_config_from_toml_config(
    address(0, 80),
    address(0, 443),
    vec![
      pool_config("Host('a.de')", vec!["a:1"]),
      pool_config("Host('b.de')", vec!["b:1", "b:2"]),
    ],
    HealthIntervalConfig { check_every: 7 },
    AcmeHandler::new(),
  )
  .unwrap();
  assert_eq!(config.http_address, address(0, 80));
  assert_eq!(config.https_address, address(0, 443));
  assert_eq!(config.health_interval, 7);
  assert_eq!(config.shared_data.backend_pools.len(), 2);
  assert_eq!(
    config.shared_data.backend_pools[1].matcher,
    BackendPoolMatcher::Host("b.de".to_string())
  );

  let error = runtime_config_from_toml_config(
    address(0, 80),
    address(0, 443),
    vec![
      pool_config("Host('a.de')", vec!["a:1"]),
      pool_config("Host('b.de')", vec!["b:1", "b:1"]),
      pool_config("nonsense", vec![]),
    ],
    HealthIntervalConfig { check_every: 7 },
    AcmeHandler::new(),
  )
  .unwrap_err();
  assert_eq!(error, ConfigError::DuplicateAddress(1));
  let error = runtime_config_from_toml_config(
    address(0, 80),
    address(0, 443),
    vec![pool_config("Method('')", vec![])],
    HealthIntervalConfig { check_every: 7 },
    AcmeHandler::new(),
  )
  .unwrap_err();
  assert_eq!(error, ConfigError::Matcher(0, MatcherError::Method));
}

#[test]
fn changed_listener_addresses_are_warned_about() {
  let old = runtime(address(0, 80), address(0, 443));
  assert!(warn_about_ineffectual_config_changes(&old, &runtime(address(0, 80), address(0, 443))).is_empty());
  assert_eq!(
    warn_about_ineffectual_config_changes(&old, &runtime(address(0, 8080), address(0, 443))),
    vec![ConfigWarning::HttpAddressIgnored]
  );
  assert_eq!(
    warn_about_ineffectual_config_changes(&old, &runtime(address(1, 80), address(0, 444))),
    vec![ConfigWarning::HttpAddressIgnored, ConfigWarning::HttpsAddressIgnored]
  );
  assert!(same_address(&address(1, 1), &address(1, 1)));
  assert!(!same_address(&address(1, 1), &address(1, 2)));
  let mut octets = [0u8; 16];
  octets[15] = 1;
  let v6 = ClientAddress {
    ip: IpAddress::V6(octets),
    port: 1,
  };
  assert!(!same_address(&address(1, 1), &v6));
  assert!(same_address(&v6, &v6));
}

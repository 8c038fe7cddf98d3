use arlb::acme::AcmeHandler;
use arlb::backend_pool_matcher::BackendPoolMatcher;
use arlb::error_response::{bad_gateway, bad_request, internal_server_error, not_found, request_entity_to_large, too_many_requests};
use arlb::health::{HealthConfig, Healthiness};
use arlb::http::{Body, ClientAddress, Header, IpAddress, PathAndQuery, Request, Scheme, Uri};
use arlb::load_balancing::random::Random;
use arlb::load_balancing::round_robin::RoundRobin;
use arlb::load_balancing::LoadBalancingStrategy;
use arlb::middleware::MiddlewareChain;
use arlb::server::{pool_by_req, BackendPool, BackendPoolBuilder, Dispatch, SharedData};

fn pool(host: &str, addresses: Vec<(&str, Healthiness)>, schemes: Vec<Scheme>) -> BackendPool {
  BackendPoolBuilder::new(
    BackendPoolMatcher::Host(host.to_string()),
    addresses.into_iter().map(|(a, h)| (a.to_string(), h)).collect(),
    HealthConfig {
      slow_threshold: 200,
      timeout: 500,
      path: String::from("/"),
    },
    LoadBalancingStrategy::RoundRobin(RoundRobin::new()),
    MiddlewareChain { entries: Vec::new() },
    schemes,
  )
  .build()
}

fn generate_test_service(host: String) -> SharedData {
  SharedData {
    backend_pools: vec![BackendPoolBuilder::new(
      BackendPoolMatcher::Host(host),
      vec![("127.0.0.1:8084".into(), Healthiness::Healthy)],
      HealthConfig {
        slow_threshold: 200,
        timeout: 500,
        path: String::from("/"),
      },
      LoadBalancingStrategy::Random(Random::new()),
      MiddlewareChain { entries: Vec::new() },
      vec![Scheme::HTTP],
    )
    .build()],
    acme_handler: AcmeHandler::new(),
  }
}

fn request(path: &str, host: &str) -> Request {
  Request {
    method: "GET".to_string(),
    uri: Uri {
      authority: None,
      path_and_query: Some(PathAndQuery {
        path: path.to_string(),
        query: None,
      }),
    },
    headers: vec![Header {
      name: "host".to_string(),
      value: Some(host.to_string()),
      bytes: Vec::new(),
    }],
  }
}

fn client() -> ClientAddress {
  ClientAddress {
    ip: IpAddress::V4([127, 0, 0, 1]),
    port: 3000,
  }
}

#[test]
fn pool_by_req_no_matching_pool() {
  let shared_data = generate_test_service("whoami.localhost".into());
  let request = request("/", "whoami.de");

  let pool = pool_by_req(&shared_data, &request, &Scheme::HTTP);

  assert_eq!(pool, None);
}

#[test]
fn pool_by_req_matching_pool() {
  let shared_data = generate_test_service("whoami.localhost".into());
  let request = request("/", "whoami.localhost");

  let pool = pool_by_req(&shared_data, &request, &Scheme::HTTP);

  assert_eq!(pool, Some(0));
}

#[test]
fn pool_by_req_takes_the_first_pool_of_the_scheme() {
  let shared_data = SharedData {
    backend_pools: vec![
      pool("a.de", vec![], vec![Scheme::HTTPS]),
      pool("b.de", vec![], vec![Scheme::HTTP, Scheme::HTTPS]),
      pool("a.de", vec![], vec![Scheme::HTTP]),
      pool("a.de", vec![], vec![Scheme::HTTP, Scheme::HTTPS]),
      pool("c.de", vec![], vec![]),
    ],
    acme_handler: AcmeHandler::new(),
  };
  assert_eq!(pool_by_req(&shared_data, &request("/", "a.de"), &Scheme::HTTP), Some(2));
  assert_eq!(pool_by_req(&shared_data, &request("/", "a.de"), &Scheme::HTTPS), Some(0));
  assert_eq!(pool_by_req(&shared_data, &request("/", "b.de"), &Scheme::HTTP), Some(1));
  assert_eq!(pool_by_req(&shared_data, &request("/", "c.de"), &Scheme::HTTP), None);
  assert!(shared_data.backend_pools[1].supports(&Scheme::HTTPS));
  assert!(!shared_data.backend_pools[4].supports(&Scheme::HTTP));
}

#[test]
fn only_healthy_backends_are_offered() {
  let pool = pool(
    "a.de",
    vec![
      ("a:1", Healthiness::Slow(900)),
      ("b:1", Healthiness::Healthy),
      ("c:1", Healthiness::Unresponsive(Some(503))),
      ("d:1", Healthiness::Unresponsive(None)),
      ("e:1", Healthiness::Healthy),
    ],
    vec![Scheme::HTTP],
  );
  assert_eq!(pool.healthy_addresses(), vec!["b:1".to_string(), "e:1".to_string()]);
  assert!(pool.has_unique_addresses());
  let twice = self::pool(
    "a.de",
    vec![("a:1", Healthiness::Healthy), ("b:1", Healthiness::Healthy), ("a:1", Healthiness::Slow(1))],
    vec![],
  );
  assert!(!twice.has_unique_addresses());
}

#[test]
fn dispatch_answers_challenges_first() {
  let mut shared_data = generate_test_service("whoami.localhost".into());
  shared_data.acme_handler.add_challenge("abc123", "xyz".to_string());
  match shared_data.dispatch(
    &request("/.well-known/acme-challenge/abc123", "whoami.localhost"),
    Scheme::HTTP,
    client(),
  ) {
    Dispatch::Respond(response) => {
      assert_eq!(response.status, 200);
      assert_eq!(response.body, Body::Text("xyz".to_string()));
    }
    other => panic!("unexpected {:?}", other),
  }
  match shared_data.dispatch(
    &request("/.well-known/acme-challenge/other", "whoami.localhost"),
    Scheme::HTTP,
    client(),
  ) {
    Dispatch::Respond(response) => assert_eq!(response.status, 404),
    other => panic!("unexpected {:?}", other),
  }
}

#[test]
fn dispatch_without_a_pool_is_not_found() {
  let mut shared_data = generate_test_service("whoami.localhost".into());
  match shared_data.dispatch(&request("/", "nobody.localhost"), Scheme::HTTP, client()) {
    Dispatch::Respond(response) => assert_eq!(response, not_found()),
    other => panic!("unexpected {:?}", other),
  }
  match shared_data.dispatch(&request("/", "whoami.localhost"), Scheme::HTTPS, client()) {
    Dispatch::Respond(response) => assert_eq!(response.status, 404),
    other => panic!("unexpected {:?}", other),
  }
}

#[test]
fn dispatch_without_a_healthy_backend_is_bad_gateway() {
  let mut shared_data = SharedData {
    backend_pools: vec![
      pool(
        "a.de",
        vec![("a:1", Healthiness::Slow(700)), ("b:1", Healthiness::Unresponsive(None))],
        vec![Scheme::HTTP],
      ),
      pool("a.de", vec![("c:1", Healthiness::Healthy)], vec![Scheme::HTTP]),
    ],
    acme_handler: AcmeHandler::new(),
  };
  match shared_data.dispatch(&request("/", "a.de"), Scheme::HTTP, client()) {
    Dispatch::Respond(response) => assert_eq!(response, bad_gateway()),
    other => panic!("unexpected {:?}", other),
  }
  shared_data.backend_pools[0].addresses[1].1 = Healthiness::Healthy;
  match shared_data.dispatch(&request("/", "a.de"), Scheme::HTTP, client()) {
    Dispatch::Forward { pool, forwarder } => {
      assert_eq!(pool, 0);
      assert_eq!(forwarder.backend_address, "b:1");
    }
    other => panic!("unexpected {:?}", other),
  }
}

#[test]
fn dispatch_selects_among_the_healthy_backends() {
  let mut shared_data = SharedData {
    backend_pools: vec![pool(
      "a.de",
      vec![
        ("a:1", Healthiness::Healthy),
        ("b:1", Healthiness::Unresponsive(Some(500))),
        ("c:1", Healthiness::Healthy),
      ],
      vec![Scheme::HTTP],
    )],
    acme_handler: AcmeHandler::new(),
  };
  let mut picked = Vec::new();
  for _ in 0..4 {
    match shared_data.dispatch(&request("/", "a.de"), Scheme::HTTP, client()) {
      Dispatch::Forward { pool, forwarder } => {
        assert_eq!(pool, 0);
        picked.push(forwarder.backend_address);
      }
      other => panic!("unexpected {:?}", other),
    }
  }
  assert_eq!(picked, vec!["c:1", "a:1", "c:1", "a:1"]);
  assert_eq!(shared_data.backend_pools.len(), 1);
  assert_eq!(shared_data.backend_pools[0].addresses.len(), 3);
}

#[test]
fn builder_keeps_the_client_settings() {
  let mut builder = BackendPoolBuilder::new(
    BackendPoolMatcher::Path("/".to_string()),
    Vec::new(),
    HealthConfig {
      slow_threshold: 1,
      timeout: 2,
      path: "/health".to_string(),
    },
    LoadBalancingStrategy::Random(Random::new()),
    MiddlewareChain { entries: Vec::new() },
    vec![Scheme::HTTPS],
  );
  builder.pool_idle_timeout(90);
  builder.pool_max_idle_per_host(4);
  let pool = builder.build();
  assert_eq!(pool.pool_idle_timeout, Some(90));
  assert_eq!(pool.pool_max_idle_per_host, Some(4));
  assert_eq!(pool.schemes, vec![Scheme::HTTPS]);
  assert_eq!(pool.health_config.path, "/health");
  assert_eq!(pool.matcher, BackendPoolMatcher::Path("/".to_string()));
}

#[test]
fn error_responses_have_their_status() {
  assert_eq!(not_found().status, 404);
  assert_eq!(not_found().body, Body::Text("404 - page not found".to_string()));
  assert_eq!(bad_gateway().status, 502);
  assert_eq!(bad_gateway().body, Body::Empty);
  assert_eq!(bad_request("why").status, 400);
  assert_eq!(bad_request("why").body, Body::Text("why".to_string()));
  assert_eq!(internal_server_error().status, 500);
  assert_eq!(request_entity_to_large().status, 413);
  assert_eq!(too_many_requests().status, 429);
}

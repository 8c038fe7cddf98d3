use arlb::configuration::StickyCookieSameSite;
use arlb::http::{Body, ClientAddress, Header, IpAddress, PathAndQuery, Request, Response, Scheme, Uri};
use arlb::load_balancing::ip_hash::{hash_ip, IPHash};
use arlb::load_balancing::least_connection::LeastConnection;
use arlb::load_balancing::random::{forwarder_at, Random};
use arlb::load_balancing::round_robin::RoundRobin;
use arlb::load_balancing::sticky_cookie::{cookie_value, StickyCookie};
use arlb::load_balancing::{find_address, Context, LoadBalancingStrategy, RequestForwarder};

fn empty_request() -> Request {
  Request {
    method: "GET".to_string(),
    uri: Uri {
      authority: None,
      path_and_query: Some(PathAndQuery {
        path: "/".to_string(),
        query: None,
      }),
    },
    headers: Vec::new(),
  }
}

fn request_with_cookie(cookie: &str) -> Request {
  let mut request = empty_request();
  request.headers.push(Header {
    name: "cookie".to_string(),
    value: Some(cookie.to_string()),
    bytes: Vec::new(),
  });
  request
}

fn client(ip: [u8; 4], port: u16) -> ClientAddress {
  ClientAddress {
    ip: IpAddress::V4(ip),
    port,
  }
}

fn context(ip: [u8; 4], addresses: &[&str]) -> Context {
  Context {
    client_address: client(ip, 3000),
    backend_addresses: addresses.iter().map(|a| a.to_string()).collect(),
  }
}

fn index_of(context: &Context, forwarder: &RequestForwarder) -> usize {
  context
    .backend_addresses
    .iter()
    .position(|a| *a == forwarder.backend_address)
    .unwrap()
}

fn authority(address: &str) -> Uri {
  Uri {
    authority: Some(address.to_string()),
    path_and_query: None,
  }
}

fn ok_response() -> Response {
  Response {
    status: 200,
    headers: vec![Header {
      name: "content-type".to_string(),
      value: Some("text/plain".to_string()),
      bytes: Vec::new(),
    }],
    body: Body::Upstream,
    encodings: Vec::new(),
  }
}

#[test]
fn round_robin_round_robin_strategy_single_address() {
  let request = empty_request();
  let address = "127.0.0.1:1";
  let context = context([127, 0, 0, 1], &[address]);
  let mut strategy = RoundRobin::new();

  assert_eq!(strategy.select_backend(&request, &context).backend_address, address);
  assert_eq!(strategy.select_backend(&request, &context).backend_address, address);
  assert_eq!(strategy.select_backend(&request, &context).backend_address, address);
}

#[test]
fn round_robin_round_robin_strategy_multiple_addresses() {
  let request = empty_request();
  let address_1 = "127.0.0.1:1";
  let address_2 = "127.0.0.1:2";
  let context = context([127, 0, 0, 1], &[address_1, address_2]);
  let mut strategy = RoundRobin::new();

  assert_eq!(strategy.select_backend(&request, &context).backend_address, address_2);
  assert_eq!(strategy.select_backend(&request, &context).backend_address, address_1);
  assert_eq!(strategy.select_backend(&request, &context).backend_address, address_2);
  assert_eq!(strategy.select_backend(&request, &context).backend_address, address_1);
}

#[test]
fn lb_strategies_round_robin_strategy_single_address() {
  let request = empty_request();
  let context = context([127, 0, 0, 1], &["127.0.0.1:1"]);
  let mut strategy = RoundRobin::new();

  assert_eq!(index_of(&context, &strategy.select_backend(&request, &context)), 0);
  assert_eq!(index_of(&context, &strategy.select_backend(&request, &context)), 0);
  assert_eq!(index_of(&context, &strategy.select_backend(&request, &context)), 0);
}

#[test]
fn lb_strategies_round_robin_strategy_multiple_addresses() {
  let request = empty_request();
  let context = context([127, 0, 0, 1], &["127.0.0.1:1", "127.0.0.1:2"]);
  let mut strategy = RoundRobin::new();

  assert_eq!(index_of(&context, &strategy.select_backend(&request, &context)), 1);
  assert_eq!(index_of(&context, &strategy.select_backend(&request, &context)), 0);
  assert_eq!(index_of(&context, &strategy.select_backend(&request, &context)), 1);
  assert_eq!(index_of(&context, &strategy.select_backend(&request, &context)), 0);
}

#[test]
fn round_robin_over_three_addresses() {
  let request = empty_request();
  let context = context([10, 0, 0, 9], &["10.0.0.1:80", "10.0.0.2:80", "10.0.0.3:80"]);
  let mut strategy = RoundRobin::new();
  let picked: Vec<usize> = (0..7)
    .map(|_| index_of(&context, &strategy.select_backend(&request, &context)))
    .collect();
  assert_eq!(picked, vec![1, 2, 0, 1, 2, 0, 1]);
}

#[test]
fn round_robin_visits_every_address_once_in_a_round() {
  let request = empty_request();
  let addresses = ["a:1", "b:1", "c:1", "d:1", "e:1"];
  let context = context([10, 0, 0, 9], &addresses);
  let mut strategy = RoundRobin::new();
  strategy.select_backend(&request, &context);
  strategy.select_backend(&request, &context);
  let mut seen = vec![0; addresses.len()];
  for _ in 0..addresses.len() {
    seen[index_of(&context, &strategy.select_backend(&request, &context))] += 1;
  }
  assert_eq!(seen, vec![1; addresses.len()]);
}

#[test]
fn round_robin_goes_on_when_the_healthy_set_shrinks() {
  let request = empty_request();
  let mut strategy = RoundRobin::new();
  let three = context([10, 0, 0, 9], &["a:1", "b:1", "c:1"]);
  assert_eq!(strategy.select_backend(&request, &three).backend_address, "b:1");
  assert_eq!(strategy.select_backend(&request, &three).backend_address, "c:1");
  let one = context([10, 0, 0, 9], &["a:1"]);
  assert_eq!(strategy.select_backend(&request, &one).backend_address, "a:1");
  assert_eq!(strategy.select_backend(&request, &three).backend_address, "b:1");
}

#[test]
fn ip_hash_ip_hash_strategy_same_ip() {
  let request = empty_request();
  let context = context([127, 0, 0, 1], &["127.0.0.1:1", "127.0.0.1:2"]);
  let strategy = IPHash::new();

  let address = strategy.select_backend(&request, &context).backend_address;
  assert_eq!(strategy.select_backend(&request, &context).backend_address, address);
  assert_eq!(strategy.select_backend(&request, &context).backend_address, address);
  assert_eq!(strategy.select_backend(&request, &context).backend_address, address);
  assert_eq!(strategy.select_backend(&request, &context).backend_address, address);
}

#[test]
fn ip_hash_ip_hash_strategy_different_ip() {
  let request_1 = empty_request();
  let context_1 = context(
    [127, 0, 0, 1],
    &["127.0.0.1:1", "127.0.0.1:2", "127.0.0.1:3", "127.0.0.1:4"],
  );

  let request_2 = empty_request();
  let context_2 = context(
    [192, 168, 0, 4],
    &["127.0.0.1:1", "127.0.0.1:2", "127.0.0.1:3", "127.0.0.1:4"],
  );

  let strategy = IPHash::new();

  assert_ne!(
    strategy.select_backend(&request_1, &context_1).backend_address,
    strategy.select_backend(&request_2, &context_2).backend_address
  );
}

#[test]
fn lb_strategies_ip_hash_strategy_same_ip() {
  let request = empty_request();
  let context = context([127, 0, 0, 1], &["127.0.0.1:1", "127.0.0.1:2"]);
  let strategy = IPHash::new();

  let index = index_of(&context, &strategy.select_backend(&request, &context));
  assert_eq!(index_of(&context, &strategy.select_backend(&request, &context)), index);
  assert_eq!(index_of(&context, &strategy.select_backend(&request, &context)), index);
  assert_eq!(index_of(&context, &strategy.select_backend(&request, &context)), index);
  assert_eq!(index_of(&context, &strategy.select_backend(&request, &context)), index);
}

#[test]
fn lb_strategies_ip_hash_strategy_different_ip() {
  let request = empty_request();
  let addresses = ["127.0.0.1:1", "127.0.0.1:2", "127.0.0.1:3", "127.0.0.1:4"];
  let context_1 = context([127, 0, 0, 1], &addresses);
  let context_2 = context([192, 168, 0, 4], &addresses);

  let strategy = IPHash::new();

  assert_ne!(
    index_of(&context_1, &strategy.select_backend(&request, &context_1)),
    index_of(&context_2, &strategy.select_backend(&request, &context_2))
  );
}

#[test]
fn ip_hash_ignores_port_and_request() {
  let addresses = ["a:1", "b:1", "c:1", "d:1", "e:1", "f:1", "g:1"];
  let strategy = IPHash::new();
  let mut first = context([203, 0, 113, 7], &addresses);
  let mut second = context([203, 0, 113, 7], &addresses);
  first.client_address.port = 1;
  second.client_address.port = 65535;
  assert_eq!(
    strategy.select_backend(&empty_request(), &first),
    strategy.select_backend(&request_with_cookie("lb=a:1"), &second)
  );
}

#[test]
fn ip_hash_index_is_hash_modulo_count() {
  let addresses = ["a:1", "b:1", "c:1"];
  let context = context([198, 51, 100, 23], &addresses);
  let expected = (hash_ip(&context.client_address.ip) % 3) as usize;
  let forwarder = IPHash::new().select_backend(&empty_request(), &context);
  assert_eq!(forwarder.backend_address, addresses[expected]);
  assert!(forwarder.set_cookies.is_empty());
}

#[test]
fn least_connection_single_least_address() {
  let request = empty_request();
  let context = context([127, 0, 0, 1], &["127.0.0.1:1", "127.0.0.1:2"]);

  let mut strategy = LeastConnection::new();

  strategy.on_tcp_open(&authority("127.0.0.1:1"));

  assert_eq!(
    strategy.select_backend(&request, &context).backend_address,
    context.backend_addresses[1]
  );
}

#[test]
fn least_connection_multiple_least_addresses() {
  let request = empty_request();
  let context = context([127, 0, 0, 1], &["127.0.0.1:1", "127.0.0.1:2", "127.0.0.1:3"]);

  let mut strategy = LeastConnection::new();
  strategy.on_tcp_open(&authority("127.0.0.1:1"));

  assert_ne!(
    strategy.select_backend(&request, &context).backend_address,
    context.backend_addresses[0]
  );
  assert_ne!(
    strategy.select_backend(&request, &context).backend_address,
    context.backend_addresses[0]
  );
  assert_ne!(
    strategy.select_backend(&request, &context).backend_address,
    context.backend_addresses[0]
  );
}

#[test]
fn least_connection_counts_opens_and_closes() {
  let mut strategy = LeastConnection::new();
  assert_eq!(strategy.connection_count("a:1"), None);
  strategy.on_tcp_open(&authority("a:1"));
  strategy.on_tcp_open(&authority("a:1"));
  strategy.on_tcp_open(&authority("b:1"));
  assert_eq!(strategy.connection_count("a:1"), Some(2));
  assert_eq!(strategy.connection_count("b:1"), Some(1));
  strategy.on_tcp_close(&authority("a:1"));
  assert_eq!(strategy.connection_count("a:1"), Some(1));
  strategy.on_tcp_close(&authority("a:1"));
  strategy.on_tcp_close(&authority("a:1"));
  assert_eq!(strategy.connection_count("a:1"), Some(0));
  strategy.on_tcp_close(&authority("c:1"));
  assert_eq!(strategy.connection_count("c:1"), Some(0));
  strategy.on_tcp_open(&Uri {
    authority: None,
    path_and_query: None,
  });
  assert_eq!(strategy.connection_count(""), None);
}

#[test]
fn least_connection_prefers_the_least_loaded() {
  let request = empty_request();
  let context = context([127, 0, 0, 1], &["a:1", "b:1", "c:1"]);
  let mut strategy = LeastConnection::new();
  for _ in 0..3 {
    strategy.on_tcp_open(&authority("a:1"));
  }
  for _ in 0..2 {
    strategy.on_tcp_open(&authority("b:1"));
  }
  assert_eq!(strategy.least_loaded(&context), vec![2]);
  assert_eq!(strategy.select_backend(&request, &context).backend_address, "c:1");
  for _ in 0..2 {
    strategy.on_tcp_open(&authority("c:1"));
  }
  assert_eq!(strategy.least_loaded(&context), vec![1, 2]);
  strategy.on_tcp_open(&authority("stale:1"));
  strategy.on_tcp_close(&authority("stale:1"));
  assert_eq!(strategy.least_loaded(&context), vec![1, 2]);
  let picked = strategy.select_backend(&request, &context).backend_address;
  assert!(picked == "b:1" || picked == "c:1");
  let only_a = Context {
    client_address: client([127, 0, 0, 1], 1),
    backend_addresses: vec!["a:1".to_string()],
  };
  assert_eq!(strategy.select_backend(&request, &only_a).backend_address, "a:1");
}

#[test]
fn random_picks_a_healthy_address() {
  let request = empty_request();
  let context = context([127, 0, 0, 1], &["a:1", "b:1", "c:1"]);
  let strategy = Random::new();
  let mut seen = [false; 3];
  for _ in 0..200 {
    let forwarder = strategy.select_backend(&request, &context);
    assert!(forwarder.set_cookies.is_empty());
    seen[index_of(&context, &forwarder)] = true;
  }
  assert_eq!(seen, [true; 3]);
  assert_eq!(forwarder_at(&context, 2), RequestForwarder::new("c:1"));
}

fn sticky(inner: LoadBalancingStrategy) -> LoadBalancingStrategy {
  LoadBalancingStrategy::StickyCookie(StickyCookie::new(
    "lb".to_string(),
    Box::new(inner),
    true,
    false,
    StickyCookieSameSite::Unrestricted,
  ))
}

#[test]
fn sticky_cookie_hit_keeps_the_backend() {
  let context = context([127, 0, 0, 1], &["10.0.0.1:80", "10.0.0.2:80", "10.0.0.3:80"]);
  let mut strategy = sticky(LoadBalancingStrategy::RoundRobin(RoundRobin::new()));
  for _ in 0..3 {
    let forwarder = strategy.select_backend(&request_with_cookie("a=b; lb=10.0.0.2:80; c=d"), &context);
    assert_eq!(forwarder.backend_address, "10.0.0.2:80");
    assert!(forwarder.set_cookies.is_empty());
    let response = forwarder.modify_response(ok_response());
    assert_eq!(response, ok_response());
  }
  let next = strategy.select_backend(&empty_request(), &context);
  assert_eq!(next.backend_address, "10.0.0.2:80");
  assert_eq!(next.set_cookies.len(), 1);
}

#[test]
fn sticky_cookie_miss_delegates_and_sets_cookie() {
  let healthy = context([127, 0, 0, 1], &["10.0.0.1:80", "10.0.0.3:80"]);
  let mut strategy = sticky(LoadBalancingStrategy::RoundRobin(RoundRobin::new()));
  let forwarder = strategy.select_backend(&request_with_cookie("lb=10.0.0.2:80"), &healthy);
  assert_eq!(forwarder.backend_address, "10.0.0.3:80");
  assert_eq!(forwarder.set_cookies, vec!["lb=10.0.0.3:80; HttpOnly; SameSite=None".to_string()]);

  let response = forwarder.modify_response(ok_response());
  assert_eq!(response.status, 200);
  assert_eq!(response.headers.len(), 2);
  assert_eq!(response.headers[0], ok_response().headers[0]);
  assert_eq!(response.headers[1].name, "set-cookie");
  assert_eq!(
    response.headers[1].value,
    Some("lb=10.0.0.3:80; HttpOnly; SameSite=None".to_string())
  );
}

#[test]
fn sticky_cookie_attributes_follow_the_settings() {
  let strict = StickyCookie::new(
    "srv".to_string(),
    Box::new(LoadBalancingStrategy::Random(Random::new())),
    false,
    true,
    StickyCookieSameSite::Strict,
  );
  assert_eq!(strict.cookie_for("a:1"), "srv=a:1; SameSite=Strict; Secure");
  let lax = StickyCookie::new(
    "srv".to_string(),
    Box::new(LoadBalancingStrategy::Random(Random::new())),
    true,
    true,
    StickyCookieSameSite::Lax,
  );
  assert_eq!(lax.cookie_for("b:2"), "srv=b:2; HttpOnly; SameSite=Lax; Secure");
  let response = lax.modify_response(ok_response(), "b:2");
  assert_eq!(
    response.headers[1].value,
    Some("srv=b:2; HttpOnly; SameSite=Lax; Secure".to_string())
  );
}

#[test]
fn sticky_cookie_reads_the_first_cookie_of_its_name() {
  let strategy = StickyCookie::new(
    "lb".to_string(),
    Box::new(LoadBalancingStrategy::Random(Random::new())),
    false,
    false,
    StickyCookieSameSite::Lax,
  );
  assert_eq!(
    strategy.try_parse_sticky_cookie(&request_with_cookie("x=1; lb = first ;lb=second")),
    Some("first".to_string())
  );
  assert_eq!(strategy.try_parse_sticky_cookie(&request_with_cookie("x=1; LB=upper")), None);
  assert_eq!(strategy.try_parse_sticky_cookie(&request_with_cookie("lb")), None);
  assert_eq!(strategy.try_parse_sticky_cookie(&empty_request()), None);
  let cookies = vec![
    None,
    Some(("a".to_string(), "1".to_string())),
    Some(("b".to_string(), "2".to_string())),
    Some(("a".to_string(), "3".to_string())),
  ];
  assert_eq!(cookie_value(&cookies, "a"), Some("1".to_string()));
  assert_eq!(cookie_value(&cookies, "b"), Some("2".to_string()));
  assert_eq!(cookie_value(&cookies, "c"), None);
}

#[test]
fn nested_sticky_cookies_set_both_cookies() {
  let inner = LoadBalancingStrategy::StickyCookie(StickyCookie::new(
    "in".to_string(),
    Box::new(LoadBalancingStrategy::IPHash(IPHash::new())),
    false,
    false,
    StickyCookieSameSite::Lax,
  ));
  let mut strategy = sticky(inner);
  let context = context([127, 0, 0, 1], &["a:1"]);
  let forwarder = strategy.select_backend(&empty_request(), &context);
  assert_eq!(
    forwarder.set_cookies,
    vec![
      "in=a:1; SameSite=Lax".to_string(),
      "lb=a:1; HttpOnly; SameSite=None".to_string()
    ]
  );
  let response = forwarder.modify_response(ok_response());
  assert_eq!(response.headers.len(), 3);
  assert_eq!(response.headers[1].value, Some("in=a:1; SameSite=Lax".to_string()));
}

#[test]
fn strategies_other_than_random_repeat_their_choice() {
  let context = context([127, 0, 0, 1], &["a:1", "b:1", "c:1"]);
  let request = request_with_cookie("lb=c:1");
  let mut first = sticky(LoadBalancingStrategy::IPHash(IPHash::new()));
  let mut second = sticky(LoadBalancingStrategy::IPHash(IPHash::new()));
  assert_eq!(
    first.select_backend(&request, &context),
    second.select_backend(&request, &context)
  );
  let mut first = LoadBalancingStrategy::RoundRobin(RoundRobin::new());
  let mut second = LoadBalancingStrategy::RoundRobin(RoundRobin::new());
  assert_eq!(
    first.select_backend(&request, &context),
    second.select_backend(&request, &context)
  );
  let mut first = LoadBalancingStrategy::LeastConnection(LeastConnection::new());
  let mut second = LoadBalancingStrategy::LeastConnection(LeastConnection::new());
  for strategy in [&mut first, &mut second] {
    strategy.on_tcp_open(&authority("a:1"));
    strategy.on_tcp_open(&authority("c:1"));
    strategy.on_tcp_close(&authority("unknown:1"));
  }
  assert_eq!(
    first.select_backend(&request, &context),
    second.select_backend(&request, &context)
  );
  assert_eq!(first.select_backend(&request, &context).backend_address, "b:1");
}

#[test]
fn only_least_connection_keeps_count() {
  let mut strategy = sticky(LoadBalancingStrategy::LeastConnection(LeastConnection::new()));
  strategy.on_tcp_open(&authority("a:1"));
  match &strategy {
    LoadBalancingStrategy::StickyCookie(s) => match s.inner.as_ref() {
      LoadBalancingStrategy::LeastConnection(l) => assert_eq!(l.connection_count("a:1"), None),
      other => panic!("unexpected {:?}", other),
    },
    other => panic!("unexpected {:?}", other),
  }
}

#[test]
fn forwarder_names_the_backend_uri() {
  let mut request = empty_request();
  request.uri.path_and_query = Some(PathAndQuery {
    path: "/a/b".to_string(),
    query: Some("x=1".to_string()),
  });
  let uri = RequestForwarder::new("10.0.0.1:80").backend_uri(&request);
  assert_eq!(uri.authority, Some("10.0.0.1:80".to_string()));
  assert_eq!(uri.path_and_query, request.uri.path_and_query);
  let seen = RequestForwarder::new("10.0.0.1:80").forward_context(
    &request,
    Scheme::HTTPS,
    client([192, 0, 2, 1], 50000),
    "192.0.2.1".to_string(),
  );
  assert_eq!(seen.client_scheme, Scheme::HTTPS);
  assert_eq!(seen.client_address, client([192, 0, 2, 1], 50000));
  assert_eq!(seen.client_ip, "192.0.2.1");
  assert_eq!(seen.backend_uri, uri);
  let context = context([127, 0, 0, 1], &["a:1", "b:1"]);
  assert_eq!(find_address(&context, "b:1"), Some(1));
  assert_eq!(find_address(&context, "c:1"), None);
}

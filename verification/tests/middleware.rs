use arlb::http::{Body, ClientAddress, Encoding, Header, IpAddress, PathAndQuery, Request, Response, Scheme, Uri};
use arlb::middleware::authentication::{
  response_unauthorized, Authentication, BindOutcome, Credentials, Scope, Verdict,
};
use arlb::middleware::compression::Compression;
use arlb::middleware::custom_error_pages::{canonical_body, canonical_line, CustomErrorPages};
use arlb::middleware::https_redirector::HttpsRedirector;
use arlb::middleware::maxbodysize::MaxBodySize;
use arlb::middleware::rate_limiter::{client_key, RateLimiter};
use arlb::middleware::{
  backend_request, forwarded_for_header, Context, Middleware, MiddlewareChain, RequestStep, ResponseStep,
};

fn header(name: &str, value: &str) -> Header {
  Header {
    name: name.to_string(),
    value: Some(value.to_string()),
    bytes: Vec::new(),
  }
}

fn request(path: &str, query: Option<&str>, headers: Vec<Header>) -> Request {
  Request {
    method: "GET".to_string(),
    uri: Uri {
      authority: None,
      path_and_query: Some(PathAndQuery {
        path: path.to_string(),
        query: query.map(|q| q.to_string()),
      }),
    },
    headers,
  }
}

fn client(last: u8) -> ClientAddress {
  ClientAddress {
    ip: IpAddress::V4([1, 2, 3, last]),
    port: 4000,
  }
}

fn context(scheme: Scheme) -> Context {
  Context {
    client_scheme: scheme,
    client_address: client(4),
    client_ip: "1.2.3.4".to_string(),
    backend_uri: Uri {
      authority: Some("10.0.0.1:80".to_string()),
      path_and_query: Some(PathAndQuery {
        path: "/a".to_string(),
        query: Some("b=c".to_string()),
      }),
    },
  }
}

fn response(status: u16, headers: Vec<Header>) -> Response {
  Response {
    status,
    headers,
    body: Body::Upstream,
    encodings: Vec::new(),
  }
}

#[test]
fn test_build_forwarded_for_header_empty() {
  let forwarded_for_header = forwarded_for_header(None, "127.0.0.1".into());

  assert_eq!(forwarded_for_header, "127.0.0.1");
}

#[test]
fn test_build_forwarded_for_header_existing() {
  let forwarded_for_header = forwarded_for_header(Some(&header("x-forwarded-for", "127.0.0.2")), "127.0.0.1".into());

  assert_eq!(forwarded_for_header, "127.0.0.2, 127.0.0.1");
}

#[test]
fn forwarded_for_header_that_is_not_text_counts_as_empty() {
  let opaque = Header {
    name: "x-forwarded-for".to_string(),
    value: None,
    bytes: Vec::new(),
  };
  assert_eq!(forwarded_for_header(Some(&opaque), "::1".into()), ", ::1");
  let invisible = header("x-forwarded-for", "a\u{0}b");
  assert_eq!(forwarded_for_header(Some(&invisible), "::1".into()), ", ::1");
}

#[test]
fn backend_request_adds_the_forwarding_headers() {
  let received = request(
    "/a",
    Some("b=c"),
    vec![header("Host", "example.org"), header("X-Forwarded-For", "9.9.9.9")],
  );
  let sent = backend_request(received, &context(Scheme::HTTPS), Some("proxy-1".to_string()));
  assert_eq!(sent.method, "GET");
  assert_eq!(sent.uri, context(Scheme::HTTPS).backend_uri);
  assert_eq!(
    sent.headers,
    vec![
      header("Host", "example.org"),
      header("x-forwarded-for", "9.9.9.9, 1.2.3.4"),
      header("x-real-ip", "1.2.3.4"),
      header("x-forwarded-port", "443"),
      header("x-forwarded-proto", "https"),
      header("x-forwarded-server", "proxy-1"),
    ]
  );
  let sent = backend_request(request("/", None, Vec::new()), &context(Scheme::HTTP), None);
  assert_eq!(
    sent.headers,
    vec![
      header("x-forwarded-for", "1.2.3.4"),
      header("x-real-ip", "1.2.3.4"),
      header("x-forwarded-port", "80"),
      header("x-forwarded-proto", "http"),
    ]
  );
}

#[test]
fn backend_request_writes_each_forwarding_header_once() {
  let received = request(
    "/",
    None,
    vec![
      header("X-Real-IP", "6.6.6.6"),
      header("accept", "*/*"),
      header("x-forwarded-for", "8.8.8.8"),
      header("X-Forwarded-Proto", "https"),
      header("x-forwarded-for", "7.7.7.7"),
      header("x-forwarded-port", "8443"),
      header("X-Forwarded-Server", "elsewhere"),
      header("x-forwarded-host", "example.org"),
      Header {
        name: "cookie".to_string(),
        value: None,
        bytes: vec![0x6c, 0x62, 0x3d, 0xff],
      },
    ],
  );
  let sent = backend_request(received, &context(Scheme::HTTP), None);
  assert_eq!(
    sent.headers,
    vec![
      header("accept", "*/*"),
      header("x-forwarded-host", "example.org"),
      Header {
        name: "cookie".to_string(),
        value: None,
        bytes: vec![0x6c, 0x62, 0x3d, 0xff],
      },
      header("x-forwarded-for", "8.8.8.8, 1.2.3.4"),
      header("x-real-ip", "1.2.3.4"),
      header("x-forwarded-port", "80"),
      header("x-forwarded-proto", "http"),
    ]
  );
  for name in ["x-forwarded-for", "x-real-ip", "x-forwarded-port", "x-forwarded-proto"] {
    let count = sent
      .headers
      .iter()
      .filter(|h| h.name.eq_ignore_ascii_case(name))
      .count();
    assert_eq!(count, 1, "{}", name);
  }
  assert!(sent.headers.iter().all(|h| h.name != "X-Forwarded-Server"));
}

#[test]
fn rate_limit_window_of_one_second() {
  let mut limiter = RateLimiter::new(2, 1);
  let who = client(4);
  assert!(limiter.accepts_time(0));
  assert!(limiter.count_request(&who, 0));
  assert!(limiter.count_request(&who, 0));
  assert!(!limiter.count_request(&who, 500));
  assert!(limiter.accepts_time(1500));
  assert!(!limiter.accepts_time(499));
  assert!(limiter.count_request(&who, 1500));
}

#[test]
fn rate_limit_counts_each_client_on_its_own() {
  let mut limiter = RateLimiter::new(1, 10);
  assert!(limiter.count_request(&client(4), 0));
  assert!(limiter.count_request(&client(5), 1));
  assert!(!limiter.count_request(&client(4), 2));
  assert!(!limiter.count_request(&client(5), 9_999));
  let mut other_port = client(4);
  other_port.port = 4001;
  assert!(limiter.count_request(&other_port, 9_999));
  assert!(!limiter.count_request(&client(5), 19_998));
  assert!(limiter.count_request(&client(4), 19_998));
  assert!(limiter.count_request(&client(5), 29_998));
}

#[test]
fn rate_limit_window_ends_after_whole_seconds() {
  let mut limiter = RateLimiter::new(1, 2);
  assert!(limiter.count_request(&client(4), 1_000));
  assert!(!limiter.count_request(&client(4), 2_999));
  assert!(!limiter.count_request(&client(4), 4_998));
  assert!(limiter.count_request(&client(4), 6_998));
  let mut none = RateLimiter::new(0, 1);
  assert!(!none.count_request(&client(4), 0));
  let mut no_window = RateLimiter::new(1, 0);
  assert!(no_window.count_request(&client(4), 0));
  assert!(no_window.count_request(&client(4), 0));
}

#[test]
fn client_keys_tell_addresses_apart() {
  let v4 = ClientAddress {
    ip: IpAddress::V4([1, 2, 3, 4]),
    port: 80,
  };
  let mut v6_octets = [0u8; 16];
  v6_octets[12..].copy_from_slice(&[1, 2, 3, 4]);
  let v6 = ClientAddress {
    ip: IpAddress::V6(v6_octets),
    port: 80,
  };
  assert_eq!(client_key(&v4), (4, 0x01020304, 80));
  assert_eq!(client_key(&v6), (6, 0x01020304, 80));
  let full = ClientAddress {
    ip: IpAddress::V6([0xff; 16]),
    port: 65535,
  };
  assert_eq!(client_key(&full), (6, u128::MAX, 65535));
}

#[test]
fn redirector_lets_https_pass() {
  let received = request("/x", None, Vec::new());
  let passed = HttpsRedirector.modify_request(received, Scheme::HTTPS).unwrap();
  assert_eq!(passed, request("/x", None, Vec::new()));
}

#[test]
fn redirector_sends_plain_requests_to_https() {
  let received = request("/x/y", Some("a=1&b=2"), vec![header("host", "example.org:8080")]);
  let response = HttpsRedirector.modify_request(received, Scheme::HTTP).unwrap_err();
  assert_eq!(response.status, 301);
  assert_eq!(response.body, Body::Empty);
  assert_eq!(
    response.headers,
    vec![header("location", "https://example.org:8080/x/y?a=1&b=2")]
  );

  let mut absolute = request("/", None, vec![header("host", "other.example")]);
  absolute.uri.authority = Some("example.org".to_string());
  let response = HttpsRedirector.modify_request(absolute, Scheme::HTTP).unwrap_err();
  assert_eq!(response.headers, vec![header("location", "https://example.org/")]);
}

#[test]
fn redirector_refuses_requests_without_a_usable_host() {
  let response = HttpsRedirector
    .modify_request(request("/", None, Vec::new()), Scheme::HTTP)
    .unwrap_err();
  assert_eq!(response.status, 400);
  assert_eq!(response.body, Body::Text("missing host header".to_string()));

  let response = HttpsRedirector
    .modify_request(request("/", None, vec![header("host", "exa mple.org")]), Scheme::HTTP)
    .unwrap_err();
  assert_eq!(response.status, 400);
  assert_eq!(response.body, Body::Text("invalid host header".to_string()));

  let opaque = Header {
    name: "host".to_string(),
    value: None,
    bytes: Vec::new(),
  };
  let response = HttpsRedirector
    .modify_request(request("/", None, vec![opaque]), Scheme::HTTP)
    .unwrap_err();
  assert_eq!(response.status, 400);
  assert_eq!(
    response.body,
    Body::Text("failed to convert header to a str".to_string())
  );

  let mut no_path = request("/", None, vec![header("host", "example.org")]);
  no_path.uri.path_and_query = None;
  let response = HttpsRedirector.modify_request(no_path, Scheme::HTTP).unwrap_err();
  assert_eq!(response.status, 500);
  assert_eq!(response.body, Body::Empty);
}

#[test]
fn error_pages_replace_the_body() {
  let pages = CustomErrorPages {
    location: "/var/www/errors".to_string(),
    errors: vec![404, 502],
  };
  assert!(pages.applies_to(404));
  assert!(pages.applies_to(502));
  assert!(!pages.applies_to(500));
  assert_eq!(pages.page_path(404), "/var/www/errors/404.html");

  let received = response(
    404,
    vec![
      header("content-type", "text/plain"),
      header("Content-Length", "9"),
      header("content-encoding", "gzip"),
    ],
  );
  let mut encoded = received;
  encoded.encodings.push(Encoding::GZIP);
  let replaced = pages.replace_response(encoded, Some("<h1>gone</h1>".to_string()));
  assert_eq!(replaced.status, 404);
  assert_eq!(replaced.headers, vec![header("content-type", "text/plain")]);
  assert_eq!(replaced.body, Body::Text("<h1>gone</h1>".to_string()));
  assert!(replaced.encodings.is_empty());

  let replaced = pages.replace_response(response(502, Vec::new()), None);
  assert_eq!(replaced.body, Body::Text("502 - Bad Gateway\n".to_string()));
}

#[test]
fn canonical_bodies_name_the_status() {
  assert_eq!(canonical_body(404), "404 - Not Found\n");
  assert_eq!(canonical_body(429), "429 - Too Many Requests\n");
  assert_eq!(canonical_body(599), "599 - \n");
  assert_eq!(canonical_body(7), "7 - \n");
  assert_eq!(canonical_line(200, Some("OK".to_string())), "200 - OK\n");
  assert_eq!(canonical_line(65535, None), "65535 - \n");
}

fn authentication() -> Authentication {
  Authentication {
    ldap_address: "ldap://localhost:389".to_string(),
    user_directory: "ou=users,dc=example,dc=org".to_string(),
    rdn_identifier: "cn".to_string(),
    recursive: false,
  }
}

#[test]
fn credentials_are_read_from_the_authorization_header() {
  let auth = authentication();
  assert_eq!(
    auth.credentials(&vec![header("Authorization", "Basic dHlyaW9uOmZvbw==")]),
    Some(Credentials {
      user_id: "tyrion".to_string(),
      password: "foo".to_string()
    })
  );
  assert_eq!(
    auth.credentials(&vec![header("authorization", "basic dHlyaW9uOmZvbw==")]),
    Some(Credentials {
      user_id: "tyrion".to_string(),
      password: "foo".to_string()
    })
  );
  assert_eq!(auth.credentials(&Vec::new()), None);
  assert_eq!(auth.credentials(&vec![header("Authorization", "Bearer dHlyaW9uOmZvbw==")]), None);
  assert_eq!(auth.credentials(&vec![header("Authorization", "Basic !!!")]), None);
  assert_eq!(auth.credentials(&vec![header("Authorization", "dHlyaW9uOmZvbw==")]), None);
}

#[test]
fn directory_search_is_described() {
  let mut auth = authentication();
  assert_eq!(auth.filter("tyrion"), "(cn=tyrion)");
  assert_eq!(auth.scope(), Scope::OneLevel);
  auth.recursive = true;
  assert_eq!(auth.scope(), Scope::Subtree);
}

#[test]
fn binds_decide_in_turn() {
  let auth = authentication();
  assert_eq!(auth.after_search(0), Verdict::Deny);
  assert_eq!(auth.after_search(2), Verdict::Bind(0));
  assert_eq!(auth.after_bind(2, 0, BindOutcome::Accepted), Verdict::Allow);
  assert_eq!(auth.after_bind(2, 0, BindOutcome::Refused), Verdict::Bind(1));
  assert_eq!(auth.after_bind(2, 1, BindOutcome::Refused), Verdict::Deny);
  assert_eq!(auth.after_bind(2, 1, BindOutcome::Accepted), Verdict::Allow);
  assert_eq!(auth.after_bind(2, 0, BindOutcome::Failed), Verdict::Deny);
}

#[test]
fn unauthorized_response_carries_the_challenge() {
  let response = response_unauthorized();
  assert_eq!(response.status, 401);
  assert_eq!(response.body, Body::Empty);
  assert_eq!(
    response.headers,
    vec![header(
      "www-authenticate",
      "Basic realm=\"Another Rust Load Balancer requires authentication\""
    )]
  );
}

fn chain() -> MiddlewareChain {
  MiddlewareChain {
    entries: vec![
      Middleware::CustomErrorPages(CustomErrorPages {
        location: "pages".to_string(),
        errors: vec![413, 429],
      }),
      Middleware::Compression(Compression),
      Middleware::RateLimiter(RateLimiter::new(1, 1)),
      Middleware::MaxBodySize(MaxBodySize { limit: 10 }),
      Middleware::Authentication(authentication()),
      Middleware::HttpsRedirector(HttpsRedirector),
    ],
  }
}

#[test]
fn chain_stops_at_the_first_stage_that_answers() {
  let mut chain = chain();
  let big = request("/", None, vec![header("content-length", "11")]);
  match chain.forward_request(0, big, &context(Scheme::HTTP), 0) {
    RequestStep::Respond { index, response } => {
      assert_eq!(index, 3);
      assert_eq!(response.status, 413);
    }
    other => panic!("unexpected {:?}", other),
  }
  let small = request("/", None, vec![header("content-length", "10")]);
  match chain.forward_request(0, small, &context(Scheme::HTTP), 100) {
    RequestStep::Respond { index, response } => {
      assert_eq!(index, 2);
      assert_eq!(response.status, 429);
    }
    other => panic!("unexpected {:?}", other),
  }
}

#[test]
fn chain_asks_for_credentials_to_be_checked() {
  let mut chain = chain();
  let anonymous = request("/", None, Vec::new());
  match chain.forward_request(0, anonymous, &context(Scheme::HTTPS), 0) {
    RequestStep::Respond { index, response } => {
      assert_eq!(index, 4);
      assert_eq!(response.status, 401);
    }
    other => panic!("unexpected {:?}", other),
  }
  let known = request("/", None, vec![header("authorization", "Basic dHlyaW9uOmZvbw==")]);
  let (index, passed) = match chain.forward_request(0, known, &context(Scheme::HTTPS), 5_000) {
    RequestStep::Authenticate {
      index,
      request,
      credentials,
    } => {
      assert_eq!(credentials.user_id, "tyrion");
      assert_eq!(credentials.password, "foo");
      (index, request)
    }
    other => panic!("unexpected {:?}", other),
  };
  assert_eq!(index, 4);
  match chain.resume_authenticated(index, passed, &context(Scheme::HTTPS), 5_000, true) {
    RequestStep::Forward(request) => {
      assert_eq!(request.headers, vec![header("authorization", "Basic dHlyaW9uOmZvbw==")])
    }
    other => panic!("unexpected {:?}", other),
  }
  let again = request("/", None, Vec::new());
  match chain.resume_authenticated(4, again, &context(Scheme::HTTP), 5_000, true) {
    RequestStep::Respond { index, response } => {
      assert_eq!(index, 5);
      assert_eq!(response.status, 400);
    }
    other => panic!("unexpected {:?}", other),
  }
  let refused = request("/", None, Vec::new());
  match chain.resume_authenticated(4, refused, &context(Scheme::HTTPS), 5_000, false) {
    RequestStep::Respond { index, response } => {
      assert_eq!(index, 4);
      assert_eq!(response.status, 401);
    }
    other => panic!("unexpected {:?}", other),
  }
}

#[test]
fn response_passes_earlier_stages_last_first() {
  let chain = chain();
  let asked = request("/", None, vec![header("accept-encoding", "gzip")]);
  let refused = response(429, vec![header("content-length", "0")]);
  let (index, path, compressed) = match chain.modify_response(2, &asked, refused) {
    ResponseStep::LoadPage { index, path, response } => (index, path, response),
    other => panic!("unexpected {:?}", other),
  };
  assert_eq!(index, 0);
  assert_eq!(path, "pages/429.html");
  assert_eq!(compressed.encodings, vec![Encoding::GZIP]);
  assert_eq!(compressed.headers, vec![header("content-encoding", "gzip")]);
  match chain.resume_with_page(index, &asked, compressed, None) {
    ResponseStep::Done(response) => {
      assert_eq!(response.status, 429);
      assert_eq!(response.body, Body::Text("429 - Too Many Requests\n".to_string()));
      assert!(response.headers.is_empty());
      assert!(response.encodings.is_empty());
    }
    other => panic!("unexpected {:?}", other),
  }

  let fine = response(200, vec![header("content-length", "5")]);
  match chain.modify_response(chain.entries.len(), &asked, fine) {
    ResponseStep::Done(response) => {
      assert_eq!(response.status, 200);
      assert_eq!(response.encodings, vec![Encoding::GZIP]);
    }
    other => panic!("unexpected {:?}", other),
  }

  let short_circuit = response(429, Vec::new());
  match chain.modify_response(0, &asked, short_circuit) {
    ResponseStep::Done(response) => assert_eq!(response, self::response(429, Vec::new())),
    other => panic!("unexpected {:?}", other),
  }
}

#[test]
fn empty_chain_forwards_at_once() {
  let mut chain = MiddlewareChain { entries: Vec::new() };
  match chain.forward_request(0, request("/", None, Vec::new()), &context(Scheme::HTTP), 0) {
    RequestStep::Forward(request) => assert_eq!(request.method, "GET"),
    other => panic!("unexpected {:?}", other),
  }
  match chain.modify_response(0, &request("/", None, Vec::new()), response(200, Vec::new())) {
    ResponseStep::Done(response) => assert_eq!(response.status, 200),
    other => panic!("unexpected {:?}", other),
  }
}

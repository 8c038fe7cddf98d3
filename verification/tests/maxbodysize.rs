use arlb::http::{Body, Header, PathAndQuery, Request, Uri};
use arlb::middleware::maxbodysize::{get_content_length, MaxBodySize};
use arlb::text::{decimal, parse_i64};

fn content_length(value: &str) -> Vec<Header> {
  vec![Header {
    name: "Content-Length".to_string(),
    value: Some(value.to_string()),
    bytes: Vec::new(),
  }]
}

fn request(headers: Vec<Header>) -> Request {
  Request {
    method: "POST".to_string(),
    uri: Uri {
      authority: None,
      path_and_query: Some(PathAndQuery {
        path: "/upload".to_string(),
        query: None,
      }),
    },
    headers,
  }
}

#[test]
fn test_get_content_length_no_headers() {
  let headers = Vec::new();
  let actual = get_content_length(&headers);
  assert_eq!(actual, None);
}

#[test]
fn test_get_content_length_non_integer() {
  let headers = content_length("unknown");
  let actual = get_content_length(&headers);
  assert_eq!(actual, None);
}

#[test]
fn test_get_content_length_integer() {
  let headers = content_length("256");
  let actual = get_content_length(&headers);
  assert_eq!(actual, Some(256));
}

#[test]
fn numbers_are_read_as_the_standard_library_reads_them() {
  for text in [
    "0",
    "7",
    "-7",
    "+7",
    "007",
    "-0",
    "9223372036854775807",
    "-9223372036854775808",
    "+9223372036854775807",
    "9223372036854775808",
    "-9223372036854775809",
    "99999999999999999999999999",
    "00000000000000000000000000000000000000001",
    "",
    "+",
    "-",
    "--1",
    "+-1",
    "1 ",
    " 1",
    "1_000",
    "12a",
    "0x10",
    "\u{661}",
  ] {
    assert_eq!(parse_i64(text), text.parse::<i64>().ok(), "{:?}", text);
  }
  assert_eq!(parse_i64("-9223372036854775808"), Some(i64::MIN));
  assert_eq!(parse_i64("9223372036854775807"), Some(i64::MAX));
}

#[test]
fn numbers_are_written_in_decimal() {
  assert_eq!(decimal(0), "0");
  assert_eq!(decimal(9), "9");
  assert_eq!(decimal(10), "10");
  assert_eq!(decimal(404), "404");
  assert_eq!(decimal(u64::MAX), "18446744073709551615");
}

#[test]
fn body_within_the_limit_passes() {
  let limit = MaxBodySize { limit: 100 };
  let passed = limit.modify_request(request(content_length("100"))).unwrap();
  assert_eq!(passed, request(content_length("100")));
  assert!(limit.modify_request(request(Vec::new())).is_ok());
  assert!(limit.modify_request(request(content_length("many"))).is_ok());
  assert!(limit.modify_request(request(content_length("-5"))).is_ok());
}

#[test]
fn body_over_the_limit_is_refused() {
  let limit = MaxBodySize { limit: 100 };
  let response = limit.modify_request(request(content_length("101"))).unwrap_err();
  assert_eq!(response.status, 413);
  assert_eq!(response.body, Body::Empty);
  assert!(response.headers.is_empty());
  let none = MaxBodySize { limit: -1 };
  assert!(none.modify_request(request(content_length("0"))).is_err());
}

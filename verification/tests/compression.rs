use arlb::http::{Body, Encoding, Header, PathAndQuery, Request, Response, Uri};
use arlb::middleware::compression::{
  get_preferred_encoding, parse_encoding_and_qvalue, parse_qvalue, pick_offer, Compression,
};
use arlb::text::split_once;

fn accept_encoding(value: &str) -> Vec<Header> {
  vec![Header {
    name: "Accept-Encoding".to_string(),
    value: Some(value.to_string()),
    bytes: Vec::new(),
  }]
}

fn request(headers: Vec<Header>) -> Request {
  Request {
    method: "GET".to_string(),
    uri: Uri {
      authority: None,
      path_and_query: Some(PathAndQuery {
        path: "/".to_string(),
        query: None,
      }),
    },
    headers,
  }
}

fn response(headers: Vec<(&str, &str)>) -> Response {
  Response {
    status: 200,
    headers: headers
      .into_iter()
      .map(|(name, value)| Header {
        name: name.to_string(),
        value: Some(value.to_string()),
        bytes: Vec::new(),
      })
      .collect(),
    body: Body::Upstream,
    encodings: Vec::new(),
  }
}

#[test]
fn test_get_preferred_encoding_no_headers() {
  let headers = Vec::new();
  let actual = get_preferred_encoding(&headers);
  assert_eq!(actual, None);
}

#[test]
fn test_get_preferred_encoding_unknown_encoding() {
  let headers = accept_encoding("unknown");
  let actual = get_preferred_encoding(&headers);
  assert_eq!(actual, None);
}

#[test]
fn test_get_preferred_encoding_brotli() {
  let headers = accept_encoding("br");
  let actual = get_preferred_encoding(&headers);
  assert_eq!(actual, Some(Encoding::BROTLI));
}

#[test]
fn test_get_preferred_encoding_deflate() {
  let headers = accept_encoding("deflate");
  let actual = get_preferred_encoding(&headers);
  assert_eq!(actual, Some(Encoding::DEFLATE));
}

#[test]
fn test_get_preferred_encoding_gzip() {
  let headers = accept_encoding("gzip");
  let actual = get_preferred_encoding(&headers);
  assert_eq!(actual, Some(Encoding::GZIP));
}

#[test]
fn test_get_preferred_encoding_deflate_and_gzip() {
  let headers = accept_encoding("deflate, gzip");
  let actual = get_preferred_encoding(&headers);
  assert_eq!(actual, Some(Encoding::DEFLATE));
}

#[test]
fn test_get_preferred_encoding_deflate_and_gzip_qvalues() {
  let headers = accept_encoding("deflate;q=0.9, gzip;q=1");
  let actual = get_preferred_encoding(&headers);
  assert_eq!(actual, Some(Encoding::GZIP));
}

#[test]
fn test_get_preferred_encoding_deflate_and_gzip_qvalues_with_different_decimal_places() {
  let headers = accept_encoding("deflate;q=0.75, gzip;q=0.8");
  let actual = get_preferred_encoding(&headers);
  assert_eq!(actual, Some(Encoding::GZIP));
}

#[test]
fn test_get_preferred_encoding_deflate_zero_qvalue() {
  let headers = accept_encoding("deflate;q=0");
  let actual = get_preferred_encoding(&headers);
  assert_eq!(actual, None);
}

#[test]
fn test_get_preferred_encoding_deflate_zero_qvalue_with_decimals() {
  let headers = accept_encoding("deflate;q=0.000");
  let actual = get_preferred_encoding(&headers);
  assert_eq!(actual, None);
}

#[test]
fn test_get_preferred_encoding_deflate_zero_qvalue_gzip_non_zero_qvalue() {
  let headers = accept_encoding("deflate;q=0, gzip;q=0.5");
  let actual = get_preferred_encoding(&headers);
  assert_eq!(actual, Some(Encoding::GZIP));
}

#[test]
fn qvalues_count_thousandths() {
  assert_eq!(parse_qvalue("q=1"), Some(1000));
  assert_eq!(parse_qvalue("q=1."), Some(1000));
  assert_eq!(parse_qvalue("q=1.0"), Some(1000));
  assert_eq!(parse_qvalue("q=1.000"), Some(1000));
  assert_eq!(parse_qvalue("q=0.5"), Some(500));
  assert_eq!(parse_qvalue("q=0.75"), Some(750));
  assert_eq!(parse_qvalue("q=0.125"), Some(125));
  assert_eq!(parse_qvalue("q=0.001"), Some(1));
  assert_eq!(parse_qvalue("q=0.010"), Some(10));
}

#[test]
fn qvalues_that_are_zero_or_malformed_give_nothing() {
  for text in [
    "q=0", "q=0.", "q=0.0", "q=0.000", "q=", "q", "", "0.5", "Q=0.5", "q=2", "q=1.001", "q=1.5", "q=0.1234",
    "q=0.+5", "q=0.5 ", " q=0.5", "q=.5", "q=00.5", "q=0,5", "q=1.0000", "q=-0.5", "q=0.a",
  ] {
    assert_eq!(parse_qvalue(text), None, "{:?}", text);
  }
}

#[test]
fn clauses_name_an_encoding_and_a_weight() {
  assert_eq!(parse_encoding_and_qvalue("gzip"), Some((Encoding::GZIP, 1000)));
  assert_eq!(parse_encoding_and_qvalue("br;q=0.3"), Some((Encoding::BROTLI, 300)));
  assert_eq!(parse_encoding_and_qvalue("deflate;q=0"), None);
  assert_eq!(parse_encoding_and_qvalue("gzip;"), None);
  assert_eq!(parse_encoding_and_qvalue("gzip; q=0.5"), None);
  assert_eq!(parse_encoding_and_qvalue("gzip;q=0.5;x"), None);
  assert_eq!(parse_encoding_and_qvalue("GZIP"), None);
  assert_eq!(parse_encoding_and_qvalue("identity"), None);
  assert_eq!(parse_encoding_and_qvalue("*"), None);
}

#[test]
fn encodings_have_names() {
  assert_eq!(Encoding::BROTLI.to_str(), "br");
  assert_eq!(Encoding::DEFLATE.to_str(), "deflate");
  assert_eq!(Encoding::GZIP.to_str(), "gzip");
  assert_eq!(Encoding::from_str("br"), Some(Encoding::BROTLI));
  assert_eq!(Encoding::from_str("deflate"), Some(Encoding::DEFLATE));
  assert_eq!(Encoding::from_str("gzip"), Some(Encoding::GZIP));
  assert_eq!(Encoding::from_str("Gzip"), None);
  assert_eq!(Encoding::from_str(""), None);
}

#[test]
fn ties_go_to_the_first_offer() {
  assert_eq!(get_preferred_encoding(&accept_encoding("gzip;q=0.5, br;q=0.5")), Some(Encoding::GZIP));
  assert_eq!(
    get_preferred_encoding(&accept_encoding("x, gzip;q=0.2,\tbr;q=0.9 ,deflate;q=0.9")),
    Some(Encoding::BROTLI)
  );
  assert_eq!(pick_offer(&vec![]), None);
  assert_eq!(
    pick_offer(&vec![(Encoding::GZIP, 1), (Encoding::BROTLI, 7), (Encoding::DEFLATE, 7)]),
    Some(Encoding::BROTLI)
  );
}

#[test]
fn header_that_is_not_text_offers_nothing() {
  let headers = vec![Header {
    name: "accept-encoding".to_string(),
    value: None,
    bytes: Vec::new(),
  }];
  assert_eq!(get_preferred_encoding(&headers), None);
  assert_eq!(get_preferred_encoding(&accept_encoding("gzip\u{7f}")), None);
  let two = vec![
    Header {
      name: "ACCEPT-ENCODING".to_string(),
      value: Some("br".to_string()),
      bytes: Vec::new(),
    },
    Header {
      name: "accept-encoding".to_string(),
      value: Some("gzip".to_string()),
      bytes: Vec::new(),
    },
  ];
  assert_eq!(get_preferred_encoding(&two), Some(Encoding::BROTLI));
}

#[test]
fn split_once_cuts_at_the_first_separator() {
  assert_eq!(split_once("a;b;c", ';'), Some(("a", "b;c")));
  assert_eq!(split_once(";", ';'), Some(("", "")));
  assert_eq!(split_once("abc", ';'), None);
  assert_eq!(split_once("", ';'), None);
  assert_eq!(split_once("gr\u{fc}n;\u{e4}", ';'), Some(("gr\u{fc}n", "\u{e4}")));
}

#[test]
fn compression_sets_the_headers_and_marks_the_body() {
  let compressed = Compression.compress_response(
    response(vec![("content-type", "text/html"), ("Content-Length", "12"), ("x-a", "b")]),
    Encoding::GZIP,
  );
  assert_eq!(compressed.status, 200);
  assert_eq!(compressed.body, Body::Upstream);
  assert_eq!(compressed.encodings, vec![Encoding::GZIP]);
  assert_eq!(
    compressed.headers,
    response(vec![("content-type", "text/html"), ("x-a", "b"), ("content-encoding", "gzip")]).headers
  );
}

#[test]
fn compression_applies_only_where_wanted_and_possible() {
  let wants_br = request(accept_encoding("gzip;q=0.1, br"));
  let plain = response(vec![("content-length", "3")]);
  let done = Compression.modify_response(&wants_br, plain);
  assert_eq!(done.encodings, vec![Encoding::BROTLI]);
  assert_eq!(done.headers, response(vec![("content-encoding", "br")]).headers);

  let encoded = response(vec![("Content-Encoding", "deflate"), ("content-length", "3")]);
  let kept = Compression.modify_response(&wants_br, encoded);
  assert_eq!(
    kept,
    response(vec![("Content-Encoding", "deflate"), ("content-length", "3")])
  );

  let wants_nothing = request(accept_encoding("gzip;q=0"));
  let kept = Compression.modify_response(&wants_nothing, response(vec![("content-length", "3")]));
  assert_eq!(kept, response(vec![("content-length", "3")]));
}

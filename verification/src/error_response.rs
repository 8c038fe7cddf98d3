//! The responses that the proxy writes itself.

use vstd::prelude::*;
use crate::http::{Body, Response};

verus! {

/// Whether `r` is the response with the status `status`, no headers and the
/// text `text` as its body; without text the body is empty.
pub open spec fn is_plain(r: Response, status: u16, text: Option<Seq<char>>) -> bool {
    &&& r.status == status
    &&& r.headers@.len() == 0
    &&& r.encodings@.len() == 0
    &&& match text {
        Some(t) => r.body is Text && r.body->Text_0@ == t,
        None => r.body is Empty,
    }
}

fn plain(status: u16) -> (r: Response)
    ensures
        is_plain(r, status, None),
{
    Response { status, headers: Vec::new(), body: Body::Empty, encodings: Vec::new() }
}

/// `404 Not Found`, with a short text.
pub fn not_found() -> (r: Response)
    ensures
        is_plain(r, 404, Some("404 - page not found"@)),
{
    Response {
        status: 404,
        headers: Vec::new(),
        body: Body::Text("404 - page not found".to_owned()),
        encodings: Vec::new(),
    }
}

/// `502 Bad Gateway`.
pub fn bad_gateway() -> (r: Response)
    ensures
        is_plain(r, 502, None),
{
    plain(502)
}

/// `400 Bad Request`, with `message` as its body.
pub fn bad_request(message: &str) -> (r: Response)
    ensures
        is_plain(r, 400, Some(message@)),
{
    Response {
        status: 400,
        headers: Vec::new(),
        body: Body::Text(message.to_owned()),
        encodings: Vec::new(),
    }
}

/// `500 Internal Server Error`.
pub fn internal_server_error() -> (r: Response)
    ensures
        is_plain(r, 500, None),
{
    plain(500)
}

/// `413 Payload Too Large`.
pub fn request_entity_to_large() -> (r: Response)
    ensures
        is_plain(r, 413, None),
{
    plain(413)
}

/// `429 Too Many Requests`.
pub fn too_many_requests() -> (r: Response)
    ensures
        is_plain(r, 429, None),
{
    plain(429)
}

} // verus!

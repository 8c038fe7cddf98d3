//! A limit on the size of request bodies.

use vstd::prelude::*;
use crate::error_response::{is_plain, request_entity_to_large};
use crate::http::{Header, Request, Response, get_header_text, header_text};
use crate::text::{parse_i64, spec_parse_i64};

verus! {

/// The length that the headers announce for the body.
pub open spec fn spec_content_length(headers: Seq<Header>) -> Option<i64> {
    match header_text(headers, "content-length"@) {
        Some(text) => spec_parse_i64(text),
        None => None,
    }
}

/// Reads the `Content-Length` header.
pub fn get_content_length(headers: &Vec<Header>) -> (r: Option<i64>)
    ensures
        r == spec_content_length(headers@),
{
    parse_i64(get_header_text(headers, "content-length")?)
}

#[derive(Debug)]
pub struct MaxBodySize {
    pub limit: i64,
}

impl MaxBodySize {
    /// Whether a request with these headers announces a body over the limit.
    pub open spec fn refuses(&self, headers: Seq<Header>) -> bool {
        match spec_content_length(headers) {
            Some(length) => length > self.limit,
            None => false,
        }
    }

    /// Lets a request pass unless it announces a body over the limit; such a
    /// request is answered with `413`. A request that announces no length
    /// passes.
    pub fn modify_request(&self, request: Request) -> (r: Result<Request, Response>)
        ensures
            match r {
                Ok(passed) => !self.refuses(request.headers@) && passed == request,
                Err(response) => self.refuses(request.headers@) && is_plain(response, 413, None),
            },
    {
        match get_content_length(&request.headers) {
            Some(length) => {
                if length > self.limit {
                    Err(request_entity_to_large())
                } else {
                    Ok(request)
                }
            },
            None => Ok(request),
        }
    }
}

} // verus!

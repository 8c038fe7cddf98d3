//! The redirection of plain requests to HTTPS.

use vstd::prelude::*;
use vstd::string::StringExecFns;
use crate::error_response::{bad_request, internal_server_error, is_plain};
use crate::http::{
    Body, Header, Request, Response, Scheme, check_visible_text, find_header, first_named,
    header_is, is_visible_text,
};

verus! {

/// Whether `hyper::http::uri::Authority` accepts `text` as the authority of a
/// URI.
pub uninterp spec fn authority_is_valid(text: Seq<char>) -> bool;

/// Calls `Authority::try_from` and tells whether it accepted `text`.
#[verifier::external_body]
fn authority_accepted(text: &str) -> (b: bool)
    ensures
        b == authority_is_valid(text@),
{
    hyper::http::uri::Authority::try_from(text).is_ok()
}

/// What is wrong with the `Host` header of a request, if anything: the text
/// of the complaint.
pub open spec fn host_complaint(headers: Seq<Header>) -> Option<Seq<char>> {
    match first_named(headers, "host"@) {
        None => Some("missing host header"@),
        Some(h) => match h.value {
            None => Some("failed to convert header to a str"@),
            Some(v) => if !is_visible_text(v@) {
                Some("failed to convert header to a str"@)
            } else if !authority_is_valid(v@) {
                Some("invalid host header"@)
            } else {
                None
            },
        },
    }
}

/// The place under HTTPS that a request is sent on to: the authority of its
/// URI, or else its `Host` header, then its path and query.
pub open spec fn https_location(request: Request) -> Seq<char> {
    let authority = match request.uri.authority {
        Some(a) => a@,
        None => first_named(request.headers@, "host"@)->Some_0.value->Some_0@,
    };
    let query = match request.spec_query() {
        Some(q) => "?"@ + q,
        None => Seq::empty(),
    };
    "https://"@ + authority + request.spec_path() + query
}

/// Whether `response` is the answer to a plain `request`.
pub open spec fn is_redirection(request: Request, response: Response) -> bool {
    match host_complaint(request.headers@) {
        Some(text) => is_plain(response, 400, Some(text)),
        None => if request.uri.path_and_query is None {
            is_plain(response, 500, None)
        } else {
            &&& response.status == 301
            &&& response.body is Empty
            &&& response.encodings@.len() == 0
            &&& response.headers@.len() == 1
            &&& header_is(response.headers@[0], "location"@, https_location(request))
        },
    }
}

#[derive(Debug)]
pub struct HttpsRedirector;

impl HttpsRedirector {
    /// Reads the `Host` header as an authority.
    pub fn parse_host_header<'a>(request: &'a Request) -> (r: Result<&'a str, Response>)
        ensures
            match r {
                Ok(host) => host_complaint(request.headers@) is None && first_named(
                    request.headers@,
                    "host"@,
                )->Some_0.value->Some_0@ == host@,
                Err(response) => host_complaint(request.headers@) is Some && is_plain(
                    response,
                    400,
                    host_complaint(request.headers@),
                ),
            },
    {
        match find_header(&request.headers, "host") {
            None => Err(bad_request("missing host header")),
            Some(h) => match &h.value {
                None => Err(bad_request("failed to convert header to a str")),
                Some(v) => {
                    if !check_visible_text(v.as_str()) {
                        Err(bad_request("failed to convert header to a str"))
                    } else if !authority_accepted(v.as_str()) {
                        Err(bad_request("invalid host header"))
                    } else {
                        Ok(v.as_str())
                    }
                },
            },
        }
    }

    /// Lets a request that came over HTTPS pass. One that came over plain
    /// HTTP is answered: with `301` and the same place under HTTPS, with `400`
    /// where its `Host` header is missing or cannot be used, with `500` where
    /// its URI has no path.
    pub fn modify_request(&self, request: Request, client_scheme: Scheme) -> (r: Result<
        Request,
        Response,
    >)
        ensures
            match r {
                Ok(passed) => client_scheme == Scheme::HTTPS && passed == request,
                Err(response) => client_scheme == Scheme::HTTP && is_redirection(
                    request,
                    response,
                ),
            },
    {
        match client_scheme {
            Scheme::HTTP => {
                let host = match HttpsRedirector::parse_host_header(&request) {
                    Ok(host) => host,
                    Err(response) => {
                        return Err(response);
                    },
                };
                let authority = match &request.uri.authority {
                    Some(a) => a.as_str(),
                    None => host,
                };
                if request.uri.path_and_query.is_none() {
                    return Err(internal_server_error());
                }
                let mut location = "https://".to_owned();
                location.append(authority);
                location.append(request.path());
                match request.query() {
                    Some(q) => {
                        location.append("?");
                        location.append(q);
                        assert(location@ =~= https_location(request));
                    },
                    None => {
                        assert(location@ =~= https_location(request));
                    },
                }
                let mut headers: Vec<Header> = Vec::new();
                headers.push(Header::new("location", location));
                Err(
                    Response { status: 301, headers, body: Body::Empty, encodings: Vec::new() },
                )
            },
            Scheme::HTTPS => Ok(request),
        }
    }
}

} // verus!

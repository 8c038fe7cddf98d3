//! Pages of one's own for responses that report an error.

use vstd::prelude::*;
use vstd::string::StringExecFns;
use crate::http::{Body, Response, remove_header, without_header};
use crate::text::{decimal, spec_decimal};

verus! {

/// The reason phrase that `hyper::StatusCode` knows for the status `code`;
/// `None` where `code` is no status code or has no phrase.
pub uninterp spec fn canonical_reason(code: u16) -> Option<Seq<char>>;

/// Makes a `hyper::StatusCode` of `code` and asks it for its
/// `canonical_reason`.
#[verifier::external_body]
fn reason_of(code: u16) -> (r: Option<String>)
    ensures
        match r {
            Some(reason) => canonical_reason(code) == Some(reason@),
            None => canonical_reason(code) is None,
        },
{
    match hyper::StatusCode::from_u16(code) {
        Ok(status) => status.canonical_reason().map(|reason| reason.to_string()),
        Err(_) => None,
    }
}

/// The page that stands in where none is on file: the status, a dash and
/// the reason phrase, one line.
pub open spec fn spec_canonical_body(code: u16) -> Seq<char> {
    spec_decimal(code as nat) + " - "@ + (match canonical_reason(code) {
        Some(reason) => reason,
        None => Seq::empty(),
    }) + "\n"@
}

/// The body that takes the place of the body of a response with the status
/// `code`: the page, or the canonical line where there is none.
pub open spec fn page_text(page: Option<String>, code: u16) -> Seq<char> {
    match page {
        Some(text) => text@,
        None => spec_canonical_body(code),
    }
}

/// The line that `reason`, if any, makes for the status `code`.
pub fn canonical_line(code: u16, reason: Option<String>) -> (r: String)
    ensures
        r@ == spec_decimal(code as nat) + " - "@ + (match reason {
            Some(text) => text@,
            None => Seq::empty(),
        }) + "\n"@,
{
    let mut line = decimal(code as u64);
    line.append(" - ");
    match &reason {
        Some(text) => {
            line.append(text.as_str());
        },
        None => {
            assert(line@ + Seq::<char>::empty() =~= line@);
        },
    }
    line.append("\n");
    line
}

/// Writes the page that stands in where none is on file.
pub fn canonical_body(code: u16) -> (r: String)
    ensures
        r@ == spec_canonical_body(code),
{
    canonical_line(code, reason_of(code))
}

#[derive(Debug)]
pub struct CustomErrorPages {
    pub location: String,
    pub errors: Vec<u16>,
}

impl CustomErrorPages {
    /// Whether responses with the status `status` get a page of their own.
    pub fn applies_to(&self, status: u16) -> (r: bool)
        ensures
            r == self.errors@.contains(status),
    {
        let mut i: usize = 0;
        while i < self.errors.len()
            invariant
                0 <= i <= self.errors.len(),
                forall|k: int| 0 <= k < i ==> self.errors@[k] != status,
            decreases self.errors.len() - i,
        {
            if self.errors[i] == status {
                return true;
            }
            i += 1;
        }
        false
    }

    /// The file that holds the page for the status `status`.
    pub fn page_path(&self, status: u16) -> (r: String)
        ensures
            r@ == self.location@ + "/"@ + spec_decimal(status as nat) + ".html"@,
    {
        let mut path = self.location.clone();
        path.append("/");
        path.append(decimal(status as u64).as_str());
        path.append(".html");
        path
    }

    /// Whether `replaced` is `response` with the body `body` in place of its
    /// own: `Content-Length` and `Content-Encoding` are gone, so that the
    /// framing is worked out anew, and nothing is left to encode.
    pub open spec fn replaces(response: Response, replaced: Response, body: Seq<char>) -> bool {
        &&& replaced.status == response.status
        &&& replaced.headers@ == without_header(
            without_header(response.headers@, "content-length"@),
            "content-encoding"@,
        )
        &&& replaced.body is Text
        &&& replaced.body->Text_0@ == body
        &&& replaced.encodings@.len() == 0
    }

    /// Puts the page `page` in place of the body of `response`, or the
    /// canonical line where there is no page.
    pub fn replace_response(&self, response: Response, page: Option<String>) -> (r: Response)
        ensures
            CustomErrorPages::replaces(response, r, page_text(page, response.status)),
    {
        let mut headers = response.headers;
        remove_header(&mut headers, "content-length");
        remove_header(&mut headers, "content-encoding");
        let body = match page {
            Some(payload) => payload,
            None => canonical_body(response.status),
        };
        Response { status: response.status, headers, body: Body::Text(body), encodings: Vec::new() }
    }
}

} // verus!

//! The parts of HTTP messages that routing decisions read and write.
//!
//! A [`Request`] holds what was received as plain text: the method, the parts
//! of the request URI and the header fields. A [`Response`] holds a status, the
//! header fields and a description of its body. How the bytes travel is not a
//! concern of this crate.

use vstd::prelude::*;
use crate::text::chars_of;

verus! {

/// The scheme of the listener that accepted a request.
#[derive(Clone, Copy, Debug, PartialEq, Eq, Structural, Hash)]
pub enum Scheme {
    HTTP,
    HTTPS,
}

impl Scheme {
    /// The name of the scheme as it stands in a URI.
    pub fn to_str(&self) -> (s: &'static str)
        ensures
            s@ == self.name(),
    {
        match self {
            Scheme::HTTP => "http",
            Scheme::HTTPS => "https",
        }
    }

    pub open spec fn name(&self) -> Seq<char> {
        match self {
            Scheme::HTTP => "http"@,
            Scheme::HTTPS => "https"@,
        }
    }

    /// The port that the scheme is served on by default.
    pub fn default_port(&self) -> (s: &'static str)
        ensures
            s@ == self.port_text(),
    {
        match self {
            Scheme::HTTP => "80",
            Scheme::HTTPS => "443",
        }
    }

    pub open spec fn port_text(&self) -> Seq<char> {
        match self {
            Scheme::HTTP => "80"@,
            Scheme::HTTPS => "443"@,
        }
    }
}

/// An IP address by its octets, in network order.
#[derive(Clone, Copy, Debug, PartialEq, Eq, Hash)]
pub enum IpAddress {
    V4([u8; 4]),
    V6([u8; 16]),
}

impl IpAddress {
    /// The octets of the address.
    pub open spec fn octets(&self) -> Seq<u8> {
        match self {
            IpAddress::V4(o) => o@,
            IpAddress::V6(o) => o@,
        }
    }
}

/// The address of a client: its IP address and port.
#[derive(Clone, Copy, Debug, PartialEq, Eq, Hash)]
pub struct ClientAddress {
    pub ip: IpAddress,
    pub port: u16,
}

/// One header field. The value is `None` where the bytes received are not
/// text at all; `bytes` then holds them as they came, so that the header can
/// go on as it is. Where the value is text, `bytes` is empty.
#[derive(Clone, Debug, PartialEq, Eq)]
pub struct Header {
    pub name: String,
    pub value: Option<String>,
    pub bytes: Vec<u8>,
}

/// The path and the query of a request URI.
#[derive(Clone, Debug, PartialEq, Eq)]
pub struct PathAndQuery {
    pub path: String,
    pub query: Option<String>,
}

/// A request URI.
#[derive(Clone, Debug, PartialEq, Eq)]
pub struct Uri {
    pub authority: Option<String>,
    pub path_and_query: Option<PathAndQuery>,
}

/// A request as routing sees it.
#[derive(Clone, Debug, PartialEq, Eq)]
pub struct Request {
    pub method: String,
    pub uri: Uri,
    pub headers: Vec<Header>,
}

/// The lower-case form of an ASCII letter; any other character is itself.
pub open spec fn lower(c: char) -> char {
    if 'A' <= c && c <= 'Z' {
        ((c as u8) + 32) as char
    } else {
        c
    }
}

/// Header names are compared without regard to the case of ASCII letters.
pub open spec fn same_name(a: Seq<char>, b: Seq<char>) -> bool {
    &&& a.len() == b.len()
    &&& forall|i: int| 0 <= i < a.len() ==> lower(a[i]) == lower(b[i])
}

fn to_lower(c: char) -> (r: char)
    ensures
        r == lower(c),
{
    if c >= 'A' && c <= 'Z' {
        ((c as u8) + 32) as char
    } else {
        c
    }
}

/// Compares two header names.
pub fn names_match(a: &str, b: &str) -> (r: bool)
    ensures
        r == same_name(a@, b@),
{
    let x = chars_of(a);
    let y = chars_of(b);
    if x.len() != y.len() {
        return false;
    }
    let mut i: usize = 0;
    while i < x.len()
        invariant
            x@ == a@,
            y@ == b@,
            x.len() == y.len(),
            0 <= i <= x.len(),
            forall|k: int| 0 <= k < i ==> lower(x@[k]) == lower(y@[k]),
        decreases x.len() - i,
    {
        if to_lower(x[i]) != to_lower(y[i]) {
            return false;
        }
        i += 1;
    }
    true
}

/// The first of `headers` that is named `name`.
pub open spec fn first_named(headers: Seq<Header>, name: Seq<char>) -> Option<Header>
    decreases headers.len(),
{
    if headers.len() == 0 {
        None
    } else if same_name(headers[0].name@, name) {
        Some(headers[0])
    } else {
        first_named(headers.drop_first(), name)
    }
}

/// Text that a header value may hold and still be read as a string: visible
/// ASCII, blanks and tabs.
pub open spec fn is_visible_text(s: Seq<char>) -> bool {
    forall|i: int| 0 <= i < s.len() ==> (' ' <= #[trigger] s[i] && s[i] <= '~') || s[i] == '\t'
}

/// The value of the first header named `name`, where it is visible text.
pub open spec fn header_text(headers: Seq<Header>, name: Seq<char>) -> Option<Seq<char>> {
    match first_named(headers, name) {
        Some(h) => match h.value {
            Some(v) => if is_visible_text(v@) {
                Some(v@)
            } else {
                None
            },
            None => None,
        },
        None => None,
    }
}

/// Whether `h` is the header `name` with the text `value`.
pub open spec fn header_is(h: Header, name: Seq<char>, value: Seq<char>) -> bool {
    &&& h.name@ == name
    &&& h.value is Some
    &&& h.value->Some_0@ == value
    &&& h.bytes@.len() == 0
}

/// Whether `after` is `before` with the header `name: value` added at the end.
pub open spec fn headers_extended(
    before: Seq<Header>,
    after: Seq<Header>,
    name: Seq<char>,
    value: Seq<char>,
) -> bool {
    &&& after.len() == before.len() + 1
    &&& after.subrange(0, before.len() as int) == before
    &&& header_is(after.last(), name, value)
}

/// Whether any of `headers` is named `name`.
pub open spec fn has_header(headers: Seq<Header>, name: Seq<char>) -> bool {
    first_named(headers, name) is Some
}

/// `headers` without those named `name`; the others keep their order.
pub open spec fn without_header(headers: Seq<Header>, name: Seq<char>) -> Seq<Header>
    decreases headers.len(),
{
    if headers.len() == 0 {
        Seq::empty()
    } else if same_name(headers[0].name@, name) {
        without_header(headers.drop_first(), name)
    } else {
        seq![headers[0]] + without_header(headers.drop_first(), name)
    }
}

/// What `without_header` keeps: headers that stood in `headers`, none of
/// them named `name`.
pub proof fn lemma_without_header(headers: Seq<Header>, name: Seq<char>)
    ensures
        forall|i: int|
            0 <= i < without_header(headers, name).len() ==> headers.contains(
                #[trigger] without_header(headers, name)[i],
            ) && !same_name(without_header(headers, name)[i].name@, name),
    decreases headers.len(),
{
    if headers.len() > 0 {
        let rest = headers.drop_first();
        lemma_without_header(rest, name);
        let kept = without_header(headers, name);
        assert forall|i: int| 0 <= i < kept.len() implies headers.contains(#[trigger] kept[i])
            && !same_name(kept[i].name@, name) by {
            if same_name(headers[0].name@, name) {
                let w = choose|w: int| 0 <= w < rest.len() && rest[w] == kept[i];
                assert(headers[w + 1] == kept[i]);
            } else if i == 0 {
                assert(headers[0] == kept[0]);
            } else {
                let below = without_header(rest, name);
                assert(kept[i] == below[i - 1]);
                let w = choose|w: int| 0 <= w < rest.len() && rest[w] == below[i - 1];
                assert(headers[w + 1] == kept[i]);
            }
        }
    }
}

/// Where none of the first `n` headers is named `name`, the first header of
/// that name is the first among the others.
pub proof fn lemma_first_named_skips(headers: Seq<Header>, name: Seq<char>, n: int)
    requires
        0 <= n <= headers.len(),
        forall|i: int| 0 <= i < n ==> !same_name((#[trigger] headers[i]).name@, name),
    ensures
        first_named(headers, name) == first_named(
            headers.subrange(n, headers.len() as int),
            name,
        ),
    decreases n,
{
    if n == 0 {
        assert(headers.subrange(0, headers.len() as int) == headers);
    } else {
        let rest = headers.drop_first();
        assert(!same_name(headers[0].name@, name));
        assert forall|i: int| 0 <= i < n - 1 implies !same_name(
            (#[trigger] rest[i]).name@,
            name,
        ) by {
            assert(rest[i] == headers[i + 1]);
        }
        lemma_first_named_skips(rest, name, n - 1);
        assert(rest.subrange(n - 1, rest.len() as int) == headers.subrange(
            n,
            headers.len() as int,
        ));
    }
}

/// Removes every header named `name`.
pub fn remove_header(headers: &mut Vec<Header>, name: &str)
    ensures
        final(headers)@ == without_header(old(headers)@, name@),
{
    let mut i: usize = 0;
    assert(headers@.subrange(0, 0) + without_header(headers@, name@) =~= without_header(
        headers@,
        name@,
    ));
    assert(headers@.subrange(0, headers.len() as int) == headers@);
    while i < headers.len()
        invariant
            0 <= i <= headers.len(),
            without_header(old(headers)@, name@) == headers@.subrange(0, i as int)
                + without_header(headers@.subrange(i as int, headers.len() as int), name@),
        decreases headers.len() - i,
    {
        let ghost rest = headers@.subrange(i as int, headers.len() as int);
        let ghost kept = headers@.subrange(0, i as int);
        if names_match(headers[i].name.as_str(), name) {
            headers.remove(i);
            assert(headers@.subrange(i as int, headers.len() as int) == rest.drop_first());
            assert(headers@.subrange(0, i as int) == kept);
        } else {
            assert(headers@.subrange(0, i + 1) + without_header(rest.drop_first(), name@) =~= kept
                + (seq![rest[0]] + without_header(rest.drop_first(), name@)));
            assert(headers@.subrange(i + 1, headers.len() as int) == rest.drop_first());
            i += 1;
        }
    }
    assert(headers@.subrange(0, headers.len() as int) == headers@);
    assert(headers@ + without_header(Seq::<Header>::empty(), name@) =~= headers@);
}

/// Finds the first header named `name`.
pub fn find_header<'a>(headers: &'a Vec<Header>, name: &str) -> (r: Option<&'a Header>)
    ensures
        match r {
            Some(h) => first_named(headers@, name@) == Some(*h),
            None => first_named(headers@, name@) is None,
        },
{
    let mut i: usize = 0;
    assert(headers@.subrange(0, headers.len() as int) == headers@);
    while i < headers.len()
        invariant
            0 <= i <= headers.len(),
            first_named(headers@, name@) == first_named(
                headers@.subrange(i as int, headers.len() as int),
                name@,
            ),
        decreases headers.len() - i,
    {
        if names_match(headers[i].name.as_str(), name) {
            return Some(&headers[i]);
        }
        assert(headers@.subrange(i as int, headers.len() as int).drop_first()
            == headers@.subrange(i + 1, headers.len() as int));
        i += 1;
    }
    None
}

/// Tests whether `s` is visible text.
pub fn check_visible_text(s: &str) -> (r: bool)
    ensures
        r == is_visible_text(s@),
{
    let v = chars_of(s);
    let mut i: usize = 0;
    while i < v.len()
        invariant
            v@ == s@,
            0 <= i <= v.len(),
            forall|k: int| 0 <= k < i ==> (' ' <= #[trigger] v@[k] && v@[k] <= '~') || v@[k] == '\t',
        decreases v.len() - i,
    {
        let c = v[i];
        if !((c >= ' ' && c <= '~') || c == '\t') {
            return false;
        }
        i += 1;
    }
    true
}

/// Reads the value of the first header named `name` as text.
pub fn get_header_text<'a>(headers: &'a Vec<Header>, name: &str) -> (r: Option<&'a str>)
    ensures
        match r {
            Some(v) => header_text(headers@, name@) == Some(v@),
            None => header_text(headers@, name@) is None,
        },
{
    match find_header(headers, name) {
        Some(h) => match &h.value {
            Some(v) => {
                if check_visible_text(v.as_str()) {
                    Some(v.as_str())
                } else {
                    None
                }
            },
            None => None,
        },
        None => None,
    }
}

/// A copy of an optional text.
pub fn copy_text(text: &Option<String>) -> (r: Option<String>)
    ensures
        r == *text,
{
    match text {
        Some(t) => Some(t.clone()),
        None => None,
    }
}

impl Header {
    /// A header named `name` with the text `value`.
    pub fn new(name: &str, value: String) -> (h: Header)
        ensures
            h.name@ == name@,
            h.value == Some(value),
            h.bytes@.len() == 0,
    {
        Header { name: name.to_owned(), value: Some(value), bytes: Vec::new() }
    }
}

impl Uri {
    /// A copy of the URI.
    pub fn copy(&self) -> (r: Uri)
        ensures
            r == *self,
    {
        Uri {
            authority: copy_text(&self.authority),
            path_and_query: match &self.path_and_query {
                Some(pq) => Some(
                    PathAndQuery { path: pq.path.clone(), query: copy_text(&pq.query) },
                ),
                None => None,
            },
        }
    }
}

impl Request {
    /// The path of the request URI; empty where the URI has none.
    pub open spec fn spec_path(&self) -> Seq<char> {
        match self.uri.path_and_query {
            Some(pq) => pq.path@,
            None => Seq::empty(),
        }
    }

    /// The query of the request URI.
    pub open spec fn spec_query(&self) -> Option<Seq<char>> {
        match self.uri.path_and_query {
            Some(pq) => match pq.query {
                Some(q) => Some(q@),
                None => None,
            },
            None => None,
        }
    }

    /// The value of the `Host` header: `None` where the request has no such
    /// header, `Some(None)` where its value is not text.
    pub open spec fn spec_host(&self) -> Option<Option<Seq<char>>> {
        match first_named(self.headers@, "host"@) {
            Some(h) => match h.value {
                Some(v) => Some(Some(v@)),
                None => Some(None),
            },
            None => None,
        }
    }

    pub fn path(&self) -> (p: &str)
        ensures
            p@ == self.spec_path(),
    {
        match &self.uri.path_and_query {
            Some(pq) => pq.path.as_str(),
            None => {
                proof {
                    reveal_strlit("");
                }
                assert(""@ =~= Seq::<char>::empty());
                ""
            },
        }
    }

    pub fn query(&self) -> (q: Option<&str>)
        ensures
            match q {
                Some(t) => self.spec_query() == Some(t@),
                None => self.spec_query() is None,
            },
    {
        match &self.uri.path_and_query {
            Some(pq) => match &pq.query {
                Some(q) => Some(q.as_str()),
                None => None,
            },
            None => None,
        }
    }
}

/// How a body is encoded on its way to the client.
#[derive(Clone, Copy, Debug, PartialEq, Eq, Structural)]
pub enum Encoding {
    BROTLI,
    DEFLATE,
    GZIP,
}

/// Where the content of a response comes from.
#[derive(Clone, Debug, PartialEq, Eq)]
pub enum Body {
    /// No content.
    Empty,
    /// Content that the proxy wrote itself.
    Text(String),
    /// The content that the backend sent, as it came.
    Upstream,
}

/// A response as routing sees it. The content reaches the client after the
/// `encodings` have been applied to it, first to last.
#[derive(Clone, Debug, PartialEq, Eq)]
pub struct Response {
    pub status: u16,
    pub headers: Vec<Header>,
    pub body: Body,
    pub encodings: Vec<Encoding>,
}

} // verus!

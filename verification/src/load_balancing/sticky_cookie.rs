//! The strategy that keeps a client with the backend named in its cookie.

use vstd::prelude::*;
use crate::configuration::StickyCookieSameSite;
use crate::http::{Header, Request, Response, get_header_text, header_text, headers_extended};
use crate::load_balancing::LoadBalancingStrategy;
use crate::text::{same_text, split, spec_split, texts};

verus! {

/// The name and the value that `cookie::Cookie::parse` reads from `text`, or
/// `None` where it refuses `text`.
pub uninterp spec fn cookie_pair(text: Seq<char>) -> Option<(Seq<char>, Seq<char>)>;

/// How a `SameSite` attribute is written.
pub open spec fn same_site_name(same_site: StickyCookieSameSite) -> Seq<char> {
    match same_site {
        StickyCookieSameSite::Strict => "Strict"@,
        StickyCookieSameSite::Lax => "Lax"@,
        StickyCookieSameSite::Unrestricted => "None"@,
    }
}

/// The value of the `Set-Cookie` header for a cookie with this name, value
/// and attributes: the name, `=` and the value, then `; HttpOnly` where the
/// cookie is for HTTP only, then the `SameSite` attribute, then `; Secure`
/// where the cookie is for secure connections only.
pub open spec fn set_cookie_text(
    name: Seq<char>,
    value: Seq<char>,
    http_only: bool,
    secure: bool,
    same_site: StickyCookieSameSite,
) -> Seq<char> {
    name + "="@ + value + (if http_only {
        "; HttpOnly"@
    } else {
        Seq::empty()
    }) + "; SameSite="@ + same_site_name(same_site) + (if secure {
        "; Secure"@
    } else {
        Seq::empty()
    })
}

/// Calls `cookie::Cookie::parse` and hands out the name and the value of the
/// cookie it read.
#[verifier::external_body]
fn parse_cookie(text: &str) -> (r: Option<(String, String)>)
    ensures
        match r {
            Some((name, value)) => cookie_pair(text@) == Some((name@, value@)),
            None => cookie_pair(text@) is None,
        },
{
    match cookie::Cookie::parse(text) {
        Ok(cookie) => Some((cookie.name().to_string(), cookie.value().to_string())),
        Err(_) => None,
    }
}

/// Builds a cookie with `cookie::Cookie::build`, sets the three attributes
/// and writes the cookie out with its `Display` impl. That impl writes the
/// name, `=` and the value as they are, then, of the attributes that are set
/// here, `; HttpOnly` where it is `true`, `; SameSite=` with `Strict`, `Lax`
/// or `None`, and `; Secure` where it is `true`; it writes nothing for an
/// attribute that is left unset, as the others are.
#[verifier::external_body]
fn render_cookie(
    name: &str,
    value: &str,
    http_only: bool,
    secure: bool,
    same_site: StickyCookieSameSite,
) -> (s: String)
    ensures
        s@ == set_cookie_text(name@, value@, http_only, secure, same_site),
{
    let same_site = match same_site {
        StickyCookieSameSite::Strict => cookie::SameSite::Strict,
        StickyCookieSameSite::Lax => cookie::SameSite::Lax,
        StickyCookieSameSite::Unrestricted => cookie::SameSite::None,
    };
    cookie::Cookie::build(name, value).http_only(http_only).secure(secure).same_site(
        same_site,
    ).finish().to_string()
}

/// The value of the first of `cookies` that is named `name`. An entry is
/// `None` where the text it came from is no cookie.
pub open spec fn first_named_cookie(
    cookies: Seq<Option<(Seq<char>, Seq<char>)>>,
    name: Seq<char>,
) -> Option<Seq<char>>
    decreases cookies.len(),
{
    if cookies.len() == 0 {
        None
    } else {
        match cookies[0] {
            Some((n, v)) => if n == name {
                Some(v)
            } else {
                first_named_cookie(cookies.drop_first(), name)
            },
            None => first_named_cookie(cookies.drop_first(), name),
        }
    }
}

/// The text of a parsed cookie.
pub open spec fn cookie_text(cookie: Option<(String, String)>) -> Option<(Seq<char>, Seq<char>)> {
    match cookie {
        Some((n, v)) => Some((n@, v@)),
        None => None,
    }
}

/// The texts of parsed cookies.
pub open spec fn cookie_texts(cookies: Seq<Option<(String, String)>>) -> Seq<
    Option<(Seq<char>, Seq<char>)>,
> {
    cookies.map_values(|c: Option<(String, String)>| cookie_text(c))
}

/// Finds the value of the first cookie named `name`.
pub fn cookie_value(cookies: &Vec<Option<(String, String)>>, name: &str) -> (r: Option<String>)
    ensures
        match r {
            Some(v) => first_named_cookie(cookie_texts(cookies@), name@) == Some(v@),
            None => first_named_cookie(cookie_texts(cookies@), name@) is None,
        },
{
    let mut i: usize = 0;
    let ghost all = cookie_texts(cookies@);
    assert(all.subrange(0, all.len() as int) == all);
    while i < cookies.len()
        invariant
            all == cookie_texts(cookies@),
            0 <= i <= cookies.len(),
            first_named_cookie(all, name@) == first_named_cookie(
                all.subrange(i as int, all.len() as int),
                name@,
            ),
        decreases cookies.len() - i,
    {
        assert(all.subrange(i as int, all.len() as int).drop_first() == all.subrange(
            i + 1,
            all.len() as int,
        ));
        assert(all.subrange(i as int, all.len() as int)[0] == all[i as int]);
        if let Some((n, v)) = &cookies[i] {
            if same_text(n.as_str(), name) {
                return Some(v.clone());
            }
        }
        i += 1;
    }
    None
}

/// The cookies that the pieces of a `Cookie` header hold.
pub open spec fn parsed_cookies(pieces: Seq<Seq<char>>) -> Seq<Option<(Seq<char>, Seq<char>)>> {
    pieces.map_values(|p: Seq<char>| cookie_pair(p))
}

/// The value of the cookie named `name` that a request with these headers
/// carries: the `Cookie` header is cut at every `;`, and the first piece that
/// is a cookie of that name counts.
pub open spec fn spec_sticky_cookie(headers: Seq<Header>, name: Seq<char>) -> Option<Seq<char>> {
    match header_text(headers, "cookie"@) {
        Some(t) => first_named_cookie(parsed_cookies(spec_split(t, ';')), name),
        None => None,
    }
}

/// The backend that a request asks to stay with: the value of its cookie,
/// where that is one of the healthy addresses.
pub open spec fn sticky_target(
    headers: Seq<Header>,
    name: Seq<char>,
    addresses: Seq<Seq<char>>,
) -> Option<Seq<char>> {
    match spec_sticky_cookie(headers, name) {
        Some(v) => if addresses.contains(v) {
            Some(v)
        } else {
            None
        },
        None => None,
    }
}

#[derive(Debug)]
pub struct StickyCookie {
    pub cookie_name: String,
    pub inner: Box<LoadBalancingStrategy>,
    pub http_only: bool,
    pub secure: bool,
    pub same_site: StickyCookieSameSite,
}

impl StickyCookie {
    pub fn new(
        cookie_name: String,
        inner: Box<LoadBalancingStrategy>,
        http_only: bool,
        secure: bool,
        same_site: StickyCookieSameSite,
    ) -> (s: StickyCookie)
        ensures
            s.cookie_name == cookie_name,
            s.inner == inner,
            s.http_only == http_only,
            s.secure == secure,
            s.same_site == same_site,
    {
        StickyCookie { cookie_name, inner, http_only, secure, same_site }
    }

    /// The text of the cookie that binds a client to `backend_address`.
    pub open spec fn spec_cookie(&self, backend_address: Seq<char>) -> Seq<char> {
        set_cookie_text(
            self.cookie_name@,
            backend_address,
            self.http_only,
            self.secure,
            self.same_site,
        )
    }

    /// Reads the value of the sticky cookie from the `Cookie` header.
    pub fn try_parse_sticky_cookie(&self, request: &Request) -> (r: Option<String>)
        ensures
            match r {
                Some(v) => spec_sticky_cookie(request.headers@, self.cookie_name@) == Some(v@),
                None => spec_sticky_cookie(request.headers@, self.cookie_name@) is None,
            },
    {
        match get_header_text(&request.headers, "cookie") {
            Some(text) => {
                let pieces = split(text, ';');
                let mut cookies: Vec<Option<(String, String)>> = Vec::new();
                let mut i: usize = 0;
                while i < pieces.len()
                    invariant
                        0 <= i <= pieces.len(),
                        cookies@.len() == i,
                        forall|k: int|
                            0 <= k < i ==> cookie_text(#[trigger] cookies@[k]) == cookie_pair(
                                pieces@[k]@,
                            ),
                    decreases pieces.len() - i,
                {
                    let parsed = parse_cookie(pieces[i].as_str());
                    cookies.push(parsed);
                    i += 1;
                }
                assert(cookie_texts(cookies@) =~= parsed_cookies(texts(pieces@)));
                cookie_value(&cookies, self.cookie_name.as_str())
            },
            None => None,
        }
    }

    /// Writes the cookie that binds a client to `backend_address`.
    pub fn cookie_for(&self, backend_address: &str) -> (s: String)
        ensures
            s@ == self.spec_cookie(backend_address@),
    {
        render_cookie(
            self.cookie_name.as_str(),
            backend_address,
            self.http_only,
            self.secure,
            self.same_site,
        )
    }

    /// Adds the cookie that binds a client to `backend_address` to the
    /// response, after the headers that are there.
    pub fn modify_response(&self, response: Response, backend_address: &str) -> (r: Response)
        ensures
            r.status == response.status,
            r.body == response.body,
            r.encodings == response.encodings,
            headers_extended(
                response.headers@,
                r.headers@,
                "set-cookie"@,
                self.spec_cookie(backend_address@),
            ),
    {
        let mut response = response;
        let ghost before = response.headers@;
        let cookie = self.cookie_for(backend_address);
        response.headers.push(Header::new("set-cookie", cookie));
        assert(response.headers@.subrange(0, before.len() as int) == before);
        response
    }
}

} // verus!

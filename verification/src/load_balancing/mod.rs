//! Load balancing: which backend of a pool serves a request.
//!
//! A strategy is handed the addresses of the backends that are healthy right
//! now and answers with a [`RequestForwarder`]: one of those addresses and,
//! where the strategy wants to mark the response, the cookie to set on it.

pub mod ip_hash;
pub mod least_connection;
pub mod random;
pub mod round_robin;
pub mod sticky_cookie;

use vstd::prelude::*;
use crate::http::{
    ClientAddress, Header, IpAddress, Request, Response, Scheme, Uri, header_is,
};
use crate::load_balancing::ip_hash::{IPHash, spec_ip_hash_index};
use crate::load_balancing::least_connection::{LeastConnection, closed, count_in, is_least_loaded, opened};
use crate::load_balancing::random::{Random, forwarder_at};
use crate::load_balancing::round_robin::{RoundRobin, next_turn};
use crate::load_balancing::sticky_cookie::{StickyCookie, sticky_target};
use crate::text::{same_text, texts};

verus! {

/// What a strategy may look at besides the request: who asks, and which
/// backends are healthy.
#[derive(Debug)]
pub struct Context {
    pub client_address: ClientAddress,
    pub backend_addresses: Vec<String>,
}

impl Context {
    /// The healthy addresses as texts.
    pub open spec fn addresses(&self) -> Seq<Seq<char>> {
        self.backend_addresses@.map_values(|a: String| a@)
    }
}

/// The backend chosen for a request, and the cookies that the response is to
/// carry back to the client.
#[derive(Debug, PartialEq, Eq)]
pub struct RequestForwarder {
    pub backend_address: String,
    pub set_cookies: Vec<String>,
}

impl RequestForwarder {
    /// The texts of the cookies to set.
    pub open spec fn cookies(&self) -> Seq<Seq<char>> {
        texts(self.set_cookies@)
    }

    /// A forwarder to `address` that leaves the response as it is.
    pub fn new(address: &str) -> (f: RequestForwarder)
        ensures
            f.backend_address@ == address@,
            f.cookies() == Seq::<Seq<char>>::empty(),
    {
        let f = RequestForwarder { backend_address: address.to_owned(), set_cookies: Vec::new() };
        assert(f.cookies() =~= Seq::<Seq<char>>::empty());
        f
    }

    /// The same forwarder with one more cookie to set on the response, after
    /// those it sets already.
    pub fn map_response(self, cookie: String) -> (f: RequestForwarder)
        ensures
            f.backend_address == self.backend_address,
            f.cookies() == self.cookies().push(cookie@),
    {
        let mut f = self;
        f.set_cookies.push(cookie);
        assert(f.cookies() =~= self.cookies().push(cookie@));
        f
    }

    /// Applies the forwarder to the response of the backend: for each of its
    /// cookies, in order, one `Set-Cookie` header is added after the headers
    /// that are there. Nothing else changes.
    pub fn modify_response(&self, response: Response) -> (r: Response)
        ensures
            r.status == response.status,
            r.body == response.body,
            r.encodings == response.encodings,
            r.headers@.len() == response.headers@.len() + self.set_cookies@.len(),
            r.headers@.subrange(0, response.headers@.len() as int) == response.headers@,
            forall|k: int|
                0 <= k < self.set_cookies@.len() ==> header_is(
                    #[trigger] r.headers@[response.headers@.len() + k],
                    "set-cookie"@,
                    self.cookies()[k],
                ),
    {
        let ghost received = response;
        let ghost before = response.headers@;
        let mut response = response;
        let mut i: usize = 0;
        while i < self.set_cookies.len()
            invariant
                0 <= i <= self.set_cookies.len(),
                response.status == received.status,
                response.body == received.body,
                response.encodings == received.encodings,
                response.headers@.len() == before.len() + i,
                response.headers@.subrange(0, before.len() as int) == before,
                forall|k: int|
                    0 <= k < i ==> header_is(
                        #[trigger] response.headers@[before.len() + k],
                        "set-cookie"@,
                        self.cookies()[k],
                    ),
            decreases self.set_cookies.len() - i,
        {
            let ghost so_far = response.headers@;
            response.headers.push(Header::new("set-cookie", self.set_cookies[i].clone()));
            assert(response.headers@.subrange(0, before.len() as int) == so_far.subrange(
                0,
                before.len() as int,
            ));
            assert(forall|k: int|
                0 <= k < i ==> #[trigger] response.headers@[before.len() + k] == so_far[before.len()
                    + k]);
            i += 1;
        }
        response
    }
}

/// A load-balancing strategy.
#[derive(Debug)]
pub enum LoadBalancingStrategy {
    Random(Random),
    IPHash(IPHash),
    RoundRobin(RoundRobin),
    LeastConnection(LeastConnection),
    StickyCookie(StickyCookie),
}

/// Whether the state of `s`, and of every strategy inside it, is in order.
pub open spec fn strategy_wf(s: LoadBalancingStrategy) -> bool
    decreases s,
{
    match s {
        LoadBalancingStrategy::RoundRobin(r) => r.wf(),
        LoadBalancingStrategy::LeastConnection(l) => l.wf(),
        LoadBalancingStrategy::StickyCookie(c) => strategy_wf(*c.inner),
        _ => true,
    }
}

/// Whether a selection by the strategy `before` may give the backend
/// `address` with the cookies `cookies` and leave the strategy as `after`,
/// for a request with the headers `headers` of a client with the IP address
/// `client` among the healthy addresses `addresses`.
pub open spec fn selects(
    before: LoadBalancingStrategy,
    after: LoadBalancingStrategy,
    headers: Seq<Header>,
    client: IpAddress,
    addresses: Seq<Seq<char>>,
    address: Seq<char>,
    cookies: Seq<Seq<char>>,
) -> bool
    decreases before,
{
    match before {
        LoadBalancingStrategy::Random(_) => {
            &&& after == before
            &&& addresses.contains(address)
            &&& cookies.len() == 0
        },
        LoadBalancingStrategy::IPHash(_) => {
            &&& after == before
            &&& 0 <= spec_ip_hash_index(client, addresses.len() as int) < addresses.len()
            &&& address == addresses[spec_ip_hash_index(client, addresses.len() as int)]
            &&& cookies.len() == 0
        },
        LoadBalancingStrategy::RoundRobin(r) => {
            &&& after is RoundRobin
            &&& after->RoundRobin_0.counter() == next_turn(r.counter(), addresses.len() as int)
            &&& 0 <= after->RoundRobin_0.counter() < addresses.len()
            &&& address == addresses[after->RoundRobin_0.counter()]
            &&& cookies.len() == 0
        },
        LoadBalancingStrategy::LeastConnection(l) => {
            &&& after == before
            &&& exists|i: int|
                is_least_loaded(l.counts(), addresses, i) && address == #[trigger] addresses[i]
            &&& cookies.len() == 0
        },
        LoadBalancingStrategy::StickyCookie(c) => {
            match sticky_target(headers, c.cookie_name@, addresses) {
                Some(v) => {
                    &&& after == before
                    &&& address == v
                    &&& cookies.len() == 0
                },
                None => {
                    &&& after is StickyCookie
                    &&& after->StickyCookie_0.cookie_name == c.cookie_name
                    &&& after->StickyCookie_0.http_only == c.http_only
                    &&& after->StickyCookie_0.secure == c.secure
                    &&& after->StickyCookie_0.same_site == c.same_site
                    &&& cookies.len() > 0
                    &&& cookies.last() == c.spec_cookie(address)
                    &&& selects(
                        *c.inner,
                        *after->StickyCookie_0.inner,
                        headers,
                        client,
                        addresses,
                        address,
                        cookies.drop_last(),
                    )
                },
            }
        },
    }
}

/// Whether a selection by `s` for a request with the headers `headers` among
/// the healthy addresses `addresses` can have one outcome only: chance plays
/// no part in it.
pub open spec fn leaves_no_choice(
    s: LoadBalancingStrategy,
    headers: Seq<Header>,
    addresses: Seq<Seq<char>>,
) -> bool
    decreases s,
{
    match s {
        LoadBalancingStrategy::Random(_) => false,
        LoadBalancingStrategy::IPHash(_) => true,
        LoadBalancingStrategy::RoundRobin(_) => true,
        LoadBalancingStrategy::LeastConnection(l) => forall|i: int, j: int|
            is_least_loaded(l.counts(), addresses, i) && is_least_loaded(l.counts(), addresses, j)
                ==> addresses[i] == addresses[j],
        LoadBalancingStrategy::StickyCookie(c) => sticky_target(headers, c.cookie_name@, addresses)
            is Some || leaves_no_choice(*c.inner, headers, addresses),
    }
}

/// Whether `after` is the strategy `before` once it has been told that a
/// connection to `remote` was opened (`opening`) or closed. Only the strategy
/// of least connections keeps count; a strategy inside another is not told.
pub open spec fn notified(
    before: LoadBalancingStrategy,
    after: LoadBalancingStrategy,
    remote: Uri,
    opening: bool,
) -> bool {
    match before {
        LoadBalancingStrategy::LeastConnection(l) => {
            &&& after is LeastConnection
            &&& match remote.authority {
                Some(a) => after->LeastConnection_0.counts() == l.counts().insert(
                    a@,
                    if opening {
                        opened(count_in(l.counts(), a@))
                    } else {
                        closed(count_in(l.counts(), a@))
                    },
                ),
                None => after->LeastConnection_0.counts() == l.counts(),
            }
        },
        _ => after == before,
    }
}

impl LoadBalancingStrategy {
    /// Selects the backend for `request` among the healthy addresses of
    /// `context`. The address chosen is always one of them.
    pub fn select_backend(&mut self, request: &Request, context: &Context) -> (f: RequestForwarder)
        requires
            strategy_wf(*old(self)),
            context.backend_addresses.len() > 0,
        ensures
            strategy_wf(*final(self)),
            selects(
                *old(self),
                *final(self),
                request.headers@,
                context.client_address.ip,
                context.addresses(),
                f.backend_address@,
                f.cookies(),
            ),
            context.addresses().contains(f.backend_address@),
        decreases *old(self),
    {
        match self {
            LoadBalancingStrategy::Random(s) => s.select_backend(request, context),
            LoadBalancingStrategy::IPHash(s) => s.select_backend(request, context),
            LoadBalancingStrategy::RoundRobin(s) => s.select_backend(request, context),
            LoadBalancingStrategy::LeastConnection(s) => s.select_backend(request, context),
            LoadBalancingStrategy::StickyCookie(s) => {
                let wanted = s.try_parse_sticky_cookie(request);
                let found = match &wanted {
                    Some(value) => find_address(context, value.as_str()),
                    None => None,
                };
                match found {
                    Some(index) => forwarder_at(context, index),
                    None => {
                        let backend = s.inner.select_backend(request, context);
                        let ghost inner_cookies = backend.cookies();
                        let cookie = s.cookie_for(backend.backend_address.as_str());
                        let f = backend.map_response(cookie);
                        assert(f.cookies().drop_last() =~= inner_cookies);
                        f
                    },
                }
            },
        }
    }

    /// Tells the strategy that a connection to `remote` was opened.
    pub fn on_tcp_open(&mut self, remote: &Uri)
        requires
            strategy_wf(*old(self)),
        ensures
            strategy_wf(*final(self)),
            notified(*old(self), *final(self), *remote, true),
    {
        match self {
            LoadBalancingStrategy::LeastConnection(s) => s.on_tcp_open(remote),
            _ => {},
        }
    }

    /// Tells the strategy that a connection to `remote` was closed.
    pub fn on_tcp_close(&mut self, remote: &Uri)
        requires
            strategy_wf(*old(self)),
        ensures
            strategy_wf(*final(self)),
            notified(*old(self), *final(self), *remote, false),
    {
        match self {
            LoadBalancingStrategy::LeastConnection(s) => s.on_tcp_close(remote),
            _ => {},
        }
    }
}

/// Finds the first healthy address that is `value`.
pub fn find_address(context: &Context, value: &str) -> (r: Option<usize>)
    ensures
        match r {
            Some(i) => i < context.backend_addresses.len() && context.addresses()[i as int]
                == value@,
            None => !context.addresses().contains(value@),
        },
{
    let mut i: usize = 0;
    while i < context.backend_addresses.len()
        invariant
            0 <= i <= context.backend_addresses.len(),
            forall|k: int| 0 <= k < i ==> context.addresses()[k] != value@,
        decreases context.backend_addresses.len() - i,
    {
        if same_text(context.backend_addresses[i].as_str(), value) {
            return Some(i);
        }
        i += 1;
    }
    None
}

/// Where a strategy leaves no choice, two selections from the same state for
/// the same request among the same healthy addresses give the same backend.
pub proof fn lemma_selection_is_determined(
    s: LoadBalancingStrategy,
    headers: Seq<Header>,
    client: IpAddress,
    addresses: Seq<Seq<char>>,
    after1: LoadBalancingStrategy,
    address1: Seq<char>,
    cookies1: Seq<Seq<char>>,
    after2: LoadBalancingStrategy,
    address2: Seq<char>,
    cookies2: Seq<Seq<char>>,
)
    requires
        leaves_no_choice(s, headers, addresses),
        selects(s, after1, headers, client, addresses, address1, cookies1),
        selects(s, after2, headers, client, addresses, address2, cookies2),
    ensures
        address1 == address2,
    decreases s,
{
    match s {
        LoadBalancingStrategy::StickyCookie(c) => {
            if sticky_target(headers, c.cookie_name@, addresses) is None {
                lemma_selection_is_determined(
                    *c.inner,
                    headers,
                    client,
                    addresses,
                    *after1->StickyCookie_0.inner,
                    address1,
                    cookies1.drop_last(),
                    *after2->StickyCookie_0.inner,
                    address2,
                    cookies2.drop_last(),
                );
            }
        },
        _ => {},
    }
}

/// A selection by hash of the IP address depends on the IP address of the
/// client and on the healthy addresses alone: neither the port of the client
/// nor the request plays a part.
pub proof fn lemma_ip_hash_reads_ip_and_addresses(
    s: LoadBalancingStrategy,
    client: IpAddress,
    addresses: Seq<Seq<char>>,
    headers1: Seq<Header>,
    after1: LoadBalancingStrategy,
    address1: Seq<char>,
    cookies1: Seq<Seq<char>>,
    headers2: Seq<Header>,
    after2: LoadBalancingStrategy,
    address2: Seq<char>,
    cookies2: Seq<Seq<char>>,
)
    requires
        s is IPHash,
        selects(s, after1, headers1, client, addresses, address1, cookies1),
        selects(s, after2, headers2, client, addresses, address2, cookies2),
    ensures
        address1 == address2,
{
}

impl RequestForwarder {
    /// What the middlewares get to see of a request on its way to the backend
    /// chosen: who sent it, over which scheme, and where it goes.
    pub fn forward_context(
        &self,
        request: &Request,
        client_scheme: Scheme,
        client_address: ClientAddress,
        client_ip: String,
    ) -> (context: crate::middleware::Context)
        requires
            request.uri.path_and_query is Some,
        ensures
            context.client_scheme == client_scheme,
            context.client_address == client_address,
            context.client_ip == client_ip,
            context.backend_uri.authority == Some(self.backend_address),
            context.backend_uri.path_and_query == request.uri.path_and_query,
    {
        crate::middleware::Context {
            client_scheme,
            client_address,
            client_ip,
            backend_uri: self.backend_uri(request),
        }
    }

    /// Where the request goes: the backend chosen, with the path and the
    /// query of the request.
    pub fn backend_uri(&self, request: &Request) -> (uri: Uri)
        requires
            request.uri.path_and_query is Some,
        ensures
            uri.authority == Some(self.backend_address),
            uri.path_and_query == request.uri.path_and_query,
    {
        let request_uri = request.uri.copy();
        Uri {
            authority: Some(self.backend_address.clone()),
            path_and_query: request_uri.path_and_query,
        }
    }
}

} // verus!

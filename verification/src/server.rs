//! Pools of backends and the routing of a request to one of them.

use vstd::prelude::*;
use crate::acme::{AcmeHandler, is_challenge_path};
use crate::backend_pool_matcher::{BackendPoolMatcher, spec_matches};
use crate::error_response::{bad_gateway, is_plain, not_found};
use crate::health::{HealthConfig, Healthiness};
use crate::http::{ClientAddress, Request, Response, Scheme};
use crate::load_balancing::{Context, LoadBalancingStrategy, RequestForwarder, selects, strategy_wf};
use crate::middleware::MiddlewareChain;
use crate::text::{same_text, texts};

verus! {

/// A group of backends that serve the same requests.
#[derive(Debug)]
pub struct BackendPool {
    pub matcher: BackendPoolMatcher,
    pub addresses: Vec<(String, Healthiness)>,
    pub health_config: HealthConfig,
    pub strategy: LoadBalancingStrategy,
    pub chain: MiddlewareChain,
    pub schemes: Vec<Scheme>,
    /// How long, in seconds, an idle connection to a backend is kept.
    pub pool_idle_timeout: Option<u64>,
    /// How many idle connections are kept for each backend.
    pub pool_max_idle_per_host: Option<usize>,
}

/// The addresses among `addresses` that are healthy, in their order.
pub open spec fn healthy(addresses: Seq<(String, Healthiness)>) -> Seq<Seq<char>>
    decreases addresses.len(),
{
    if addresses.len() == 0 {
        Seq::empty()
    } else if addresses.last().1 == Healthiness::Healthy {
        healthy(addresses.drop_last()).push(addresses.last().0@)
    } else {
        healthy(addresses.drop_last())
    }
}

/// Whether no address occurs twice.
pub open spec fn unique_addresses(addresses: Seq<(String, Healthiness)>) -> bool {
    forall|i: int, j: int|
        0 <= i < j < addresses.len() ==> addresses[i].0@ != addresses[j].0@
}

impl BackendPool {
    /// The state of the strategy and of the middlewares is in order.
    pub open spec fn wf(&self) -> bool {
        strategy_wf(self.strategy) && self.chain.wf()
    }

    /// Whether the pool serves requests that come over `scheme` and that its
    /// rule accepts.
    pub open spec fn accepts(&self, request: Request, scheme: Scheme) -> bool {
        self.schemes@.contains(scheme) && spec_matches(
            self.matcher@,
            request.method@,
            request.spec_path(),
            request.spec_query(),
            request.spec_host(),
        )
    }

    /// Whether the pool serves requests that come over `scheme`.
    pub fn supports(&self, scheme: &Scheme) -> (r: bool)
        ensures
            r == self.schemes@.contains(*scheme),
    {
        let mut i: usize = 0;
        while i < self.schemes.len()
            invariant
                0 <= i <= self.schemes.len(),
                forall|k: int| 0 <= k < i ==> self.schemes@[k] != *scheme,
            decreases self.schemes.len() - i,
        {
            if self.schemes[i] == *scheme {
                return true;
            }
            i += 1;
        }
        false
    }

    /// The addresses of the backends that are healthy right now. A backend
    /// that is slow or unresponsive is left out.
    pub fn healthy_addresses(&self) -> (r: Vec<String>)
        ensures
            texts(r@) == healthy(self.addresses@),
    {
        let mut r: Vec<String> = Vec::new();
        let mut i: usize = 0;
        assert(self.addresses@.subrange(0, 0) =~= Seq::<(String, Healthiness)>::empty());
        assert(texts(r@) =~= Seq::<Seq<char>>::empty());
        while i < self.addresses.len()
            invariant
                0 <= i <= self.addresses.len(),
                texts(r@) == healthy(self.addresses@.subrange(0, i as int)),
            decreases self.addresses.len() - i,
        {
            assert(self.addresses@.subrange(0, i + 1).drop_last() == self.addresses@.subrange(
                0,
                i as int,
            ));
            if self.addresses[i].1.is_healthy() {
                let ghost before = r@;
                r.push(self.addresses[i].0.clone());
                assert(texts(r@) =~= texts(before).push(self.addresses@[i as int].0@));
            }
            i += 1;
        }
        assert(self.addresses@.subrange(0, self.addresses.len() as int) == self.addresses@);
        r
    }

    /// Whether no address of the pool occurs twice.
    pub fn has_unique_addresses(&self) -> (r: bool)
        ensures
            r == unique_addresses(self.addresses@),
    {
        let mut j: usize = 0;
        while j < self.addresses.len()
            invariant
                0 <= j <= self.addresses.len(),
                forall|a: int, b: int|
                    0 <= a < b < j ==> self.addresses@[a].0@ != self.addresses@[b].0@,
            decreases self.addresses.len() - j,
        {
            let mut i: usize = 0;
            while i < j
                invariant
                    0 <= i <= j < self.addresses.len(),
                    forall|a: int| 0 <= a < i ==> self.addresses@[a].0@ != self.addresses@[j as int].0@,
                decreases j - i,
            {
                if same_text(self.addresses[i].0.as_str(), self.addresses[j].0.as_str()) {
                    return false;
                }
                i += 1;
            }
            j += 1;
        }
        true
    }
}

/// Collects what a pool is made of.
#[derive(Debug)]
pub struct BackendPoolBuilder {
    matcher: BackendPoolMatcher,
    addresses: Vec<(String, Healthiness)>,
    health_config: HealthConfig,
    strategy: LoadBalancingStrategy,
    chain: MiddlewareChain,
    schemes: Vec<Scheme>,
    pool_idle_timeout: Option<u64>,
    pool_max_idle_per_host: Option<usize>,
}

impl BackendPoolBuilder {
    /// The pool that `build` would make now.
    pub closed spec fn pool(&self) -> BackendPool {
        BackendPool {
            matcher: self.matcher,
            addresses: self.addresses,
            health_config: self.health_config,
            strategy: self.strategy,
            chain: self.chain,
            schemes: self.schemes,
            pool_idle_timeout: self.pool_idle_timeout,
            pool_max_idle_per_host: self.pool_max_idle_per_host,
        }
    }

    pub fn new(
        matcher: BackendPoolMatcher,
        addresses: Vec<(String, Healthiness)>,
        health_config: HealthConfig,
        strategy: LoadBalancingStrategy,
        chain: MiddlewareChain,
        schemes: Vec<Scheme>,
    ) -> (b: BackendPoolBuilder)
        ensures
            b.pool() == (BackendPool {
                matcher,
                addresses,
                health_config,
                strategy,
                chain,
                schemes,
                pool_idle_timeout: None,
                pool_max_idle_per_host: None,
            }),
    {
        BackendPoolBuilder {
            matcher,
            addresses,
            health_config,
            strategy,
            chain,
            schemes,
            pool_idle_timeout: None,
            pool_max_idle_per_host: None,
        }
    }

    /// Sets how long, in seconds, an idle connection to a backend is kept.
    pub fn pool_idle_timeout(&mut self, duration: u64)
        ensures
            final(self).pool() == (BackendPool {
                pool_idle_timeout: Some(duration),
                ..old(self).pool()
            }),
    {
        self.pool_idle_timeout = Some(duration);
    }

    /// Sets how many idle connections are kept for each backend.
    pub fn pool_max_idle_per_host(&mut self, max_idle: usize)
        ensures
            final(self).pool() == (BackendPool {
                pool_max_idle_per_host: Some(max_idle),
                ..old(self).pool()
            }),
    {
        self.pool_max_idle_per_host = Some(max_idle);
    }

    pub fn build(self) -> (pool: BackendPool)
        ensures
            pool == self.pool(),
    {
        BackendPool {
            matcher: self.matcher,
            addresses: self.addresses,
            health_config: self.health_config,
            strategy: self.strategy,
            chain: self.chain,
            schemes: self.schemes,
            pool_idle_timeout: self.pool_idle_timeout,
            pool_max_idle_per_host: self.pool_max_idle_per_host,
        }
    }
}

/// What the listeners share: the pools, in the order of the configuration,
/// and the challenges that wait.
#[derive(Debug)]
pub struct SharedData {
    pub backend_pools: Vec<BackendPool>,
    pub acme_handler: AcmeHandler,
}

/// The first of `pools` from `from` on that accepts the request.
pub open spec fn first_pool(pools: Seq<BackendPool>, from: int, request: Request, scheme: Scheme) -> Option<
    int,
>
    decreases pools.len() - from,
{
    if from < 0 || from >= pools.len() {
        None
    } else if pools[from].accepts(request, scheme) {
        Some(from)
    } else {
        first_pool(pools, from + 1, request, scheme)
    }
}

/// Finds the pool that serves `request`: the first that serves the scheme and
/// whose rule accepts the request.
pub fn pool_by_req(shared_data: &SharedData, request: &Request, scheme: &Scheme) -> (r: Option<
    usize,
>)
    ensures
        match r {
            Some(i) => first_pool(shared_data.backend_pools@, 0, *request, *scheme) == Some(
                i as int,
            ) && i < shared_data.backend_pools@.len(),
            None => first_pool(shared_data.backend_pools@, 0, *request, *scheme) is None,
        },
{
    let mut i: usize = 0;
    while i < shared_data.backend_pools.len()
        invariant
            0 <= i <= shared_data.backend_pools.len(),
            first_pool(shared_data.backend_pools@, 0, *request, *scheme) == first_pool(
                shared_data.backend_pools@,
                i as int,
                *request,
                *scheme,
            ),
        decreases shared_data.backend_pools.len() - i,
    {
        let pool = &shared_data.backend_pools[i];
        if pool.supports(scheme) && pool.matcher.matches(request) {
            return Some(i);
        }
        i += 1;
    }
    None
}

/// What is to be done with a request.
#[derive(Debug)]
pub enum Dispatch {
    /// The request is answered at once.
    Respond(Response),
    /// The request goes through the middlewares of the pool `pool` and on to
    /// the backend of `forwarder`.
    Forward { pool: usize, forwarder: RequestForwarder },
}

impl SharedData {
    /// The state of every pool is in order.
    pub open spec fn wf(&self) -> bool {
        forall|i: int| 0 <= i < self.backend_pools@.len() ==> (#[trigger] self.backend_pools@[i]).wf()
    }

    /// Whether routing `request`, which came over `scheme` from `client`, may
    /// end in `dispatch` and leave the shared data as `after`.
    ///
    /// A request for a challenge is answered by the handler. Any other goes
    /// to the first pool that accepts it, and is answered with `404` where
    /// there is none. A pool without a healthy backend answers with `502`,
    /// and neither its strategy nor its middlewares get to see the request.
    /// Otherwise the strategy of the pool selects among the healthy backends;
    /// nothing but that strategy changes.
    pub open spec fn routes(
        &self,
        after: SharedData,
        request: Request,
        scheme: Scheme,
        client: ClientAddress,
        dispatch: Dispatch,
    ) -> bool {
        if is_challenge_path(request.spec_path()) {
            &&& after == *self
            &&& dispatch is Respond
            &&& self.acme_handler.answers(request.spec_path(), Some(dispatch->Respond_0))
        } else {
            match first_pool(self.backend_pools@, 0, request, scheme) {
                None => {
                    &&& after == *self
                    &&& dispatch is Respond
                    &&& is_plain(dispatch->Respond_0, 404, Some("404 - page not found"@))
                },
                Some(i) => {
                    let pool = self.backend_pools@[i];
                    if healthy(pool.addresses@).len() == 0 {
                        &&& after == *self
                        &&& dispatch is Respond
                        &&& is_plain(dispatch->Respond_0, 502, None)
                    } else {
                        &&& dispatch is Forward
                        &&& dispatch->Forward_pool == i
                        &&& after.acme_handler == self.acme_handler
                        &&& after.backend_pools@.len() == self.backend_pools@.len()
                        &&& forall|j: int|
                            0 <= j < self.backend_pools@.len() && j != i
                                ==> #[trigger] after.backend_pools@[j] == self.backend_pools@[j]
                        &&& after.backend_pools@[i] == (BackendPool {
                            strategy: after.backend_pools@[i].strategy,
                            ..pool
                        })
                        &&& selects(
                            pool.strategy,
                            after.backend_pools@[i].strategy,
                            request.headers@,
                            client.ip,
                            healthy(pool.addresses@),
                            dispatch->Forward_forwarder.backend_address@,
                            dispatch->Forward_forwarder.cookies(),
                        )
                        &&& healthy(pool.addresses@).contains(
                            dispatch->Forward_forwarder.backend_address@,
                        )
                    }
                },
            }
        }
    }

    /// Routes a request.
    pub fn dispatch(&mut self, request: &Request, scheme: Scheme, client_address: ClientAddress) -> (d:
        Dispatch)
        requires
            old(self).wf(),
        ensures
            final(self).wf(),
            old(self).routes(*final(self), *request, scheme, client_address, d),
    {
        if let Some(response) = self.acme_handler.respond_to_challenge(request) {
            return Dispatch::Respond(response);
        }
        match pool_by_req(self, request, &scheme) {
            Some(index) => {
                let healthy_addresses = self.backend_pools[index].healthy_addresses();
                if healthy_addresses.len() == 0 {
                    Dispatch::Respond(bad_gateway())
                } else {
                    let context = Context {
                        client_address,
                        backend_addresses: healthy_addresses,
                    };
                    let ghost before = self.backend_pools@;
                    let mut pool = self.backend_pools.remove(index);
                    let forwarder = pool.strategy.select_backend(request, &context);
                    self.backend_pools.insert(index, pool);
                    proof {
                        assert(self.backend_pools@[index as int] == pool);
                        assert(forall|j: int|
                            0 <= j < before.len() && j != index ==> self.backend_pools@[j]
                                == before[j]);
                    }
                    Dispatch::Forward { pool: index, forwarder }
                }
            },
            None => Dispatch::Respond(not_found()),
        }
    }
}

/// A pool without a healthy backend answers with `502 Bad Gateway`, and the
/// request reaches neither the strategy nor the middlewares of the pool: the
/// shared data is left as it was.
pub proof fn lemma_no_healthy_backend_is_bad_gateway(
    before: SharedData,
    after: SharedData,
    request: Request,
    scheme: Scheme,
    client: ClientAddress,
    dispatch: Dispatch,
    pool: int,
)
    requires
        before.routes(after, request, scheme, client, dispatch),
        !is_challenge_path(request.spec_path()),
        first_pool(before.backend_pools@, 0, request, scheme) == Some(pool),
        healthy(before.backend_pools@[pool].addresses@).len() == 0,
    ensures
        dispatch is Respond,
        is_plain(dispatch->Respond_0, 502, None),
        after == before,
{
}

} // verus!

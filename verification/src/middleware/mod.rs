//! Middlewares: the stages that a request passes on its way to the backend and
//! that the response passes on its way back.
//!
//! A chain is run in steps. [`MiddlewareChain::forward_request`] takes the
//! request through the middlewares until one of them answers it, needs to
//! have credentials checked, or the end of the chain is reached, where the
//! request is to be sent to the backend. [`MiddlewareChain::modify_response`]
//! takes a response back through the middlewares that the request has passed,
//! last first. The caller does what lies between the steps: it asks the
//! directory, sends the request, reads the error page.

pub mod authentication;
pub mod compression;
pub mod custom_error_pages;
pub mod https_redirector;
pub mod maxbodysize;
pub mod rate_limiter;

use vstd::prelude::*;
use vstd::string::StringExecFns;
use crate::error_response::{is_plain, too_many_requests};
use crate::http::{
    ClientAddress, Header, Request, Response, Scheme, Uri, check_visible_text, find_header,
    first_named, header_is, is_visible_text, lemma_first_named_skips, lemma_without_header,
    remove_header, same_name, without_header,
};
use crate::middleware::authentication::{
    Authentication, Credentials, is_unauthorized, response_unauthorized, spec_credentials,
};
use crate::middleware::compression::Compression;
use crate::middleware::custom_error_pages::{CustomErrorPages, page_text};
use crate::middleware::https_redirector::{HttpsRedirector, is_redirection};
use crate::middleware::maxbodysize::MaxBodySize;
use crate::middleware::rate_limiter::{
    RateLimiter, after_request, count_with_request, none_after, spec_key,
};
use crate::text::spec_decimal;

verus! {

/// What a middleware may look at besides the request.
#[derive(Debug)]
pub struct Context {
    /// The scheme of the listener that accepted the request.
    pub client_scheme: Scheme,
    /// The address of the client.
    pub client_address: ClientAddress,
    /// The IP address of the client as text.
    pub client_ip: String,
    /// Where the request goes once the chain has let it pass.
    pub backend_uri: Uri,
}

/// The value of `x-forwarded-for` for a request of the client `client_ip`:
/// the client is added to the list that is there, if any.
pub open spec fn spec_forwarded_for(existing: Option<Header>, client_ip: Seq<char>) -> Seq<char> {
    match existing {
        Some(h) => (match h.value {
            Some(v) => if is_visible_text(v@) {
                v@
            } else {
                Seq::empty()
            },
            None => Seq::empty(),
        }) + ", "@ + client_ip,
        None => client_ip,
    }
}

/// Writes the value of `x-forwarded-for`.
pub fn forwarded_for_header(existing_forwarded_for: Option<&Header>, client_ip: String) -> (r:
    String)
    ensures
        r@ == spec_forwarded_for(
            match existing_forwarded_for {
                Some(h) => Some(*h),
                None => None,
            },
            client_ip@,
        ),
{
    match existing_forwarded_for {
        Some(existing) => {
            let mut forwarded_for = match &existing.value {
                Some(v) => if check_visible_text(v.as_str()) {
                    v.clone()
                } else {
                    String::new()
                },
                None => String::new(),
            };
            forwarded_for.append(", ");
            forwarded_for.append(client_ip.as_str());
            forwarded_for
        },
        None => client_ip,
    }
}

/// The headers of a request that go on to the backend as they are: all but
/// those that the proxy writes itself, in their order.
pub open spec fn passed_on(headers: Seq<Header>) -> Seq<Header> {
    let first = without_header(headers, "x-forwarded-for"@);
    let second = without_header(first, "x-real-ip"@);
    let third = without_header(second, "x-forwarded-port"@);
    let fourth = without_header(third, "x-forwarded-proto"@);
    without_header(fourth, "x-forwarded-server"@)
}

/// Whether `sent` is the request that goes to the backend for `request`: it
/// asks the backend of `context` with the method of `request`. It carries the
/// headers of `request` that the proxy does not write itself, as they are, and
/// after them the forwarding headers, one of each: `x-forwarded-for` with the
/// client added to the list that the request brought, `x-real-ip`,
/// `x-forwarded-port`, `x-forwarded-proto` and, where the name of the host is
/// known, `x-forwarded-server`.
pub open spec fn is_backend_request(
    request: Request,
    context: Context,
    hostname: Option<String>,
    sent: Request,
) -> bool {
    let kept = passed_on(request.headers@);
    let n = kept.len() as int;
    &&& sent.method == request.method
    &&& sent.uri == context.backend_uri
    &&& sent.headers@.len() == n + 4 + (if hostname is Some {
        1int
    } else {
        0int
    })
    &&& sent.headers@.subrange(0, n) == kept
    &&& header_is(
        sent.headers@[n],
        "x-forwarded-for"@,
        spec_forwarded_for(first_named(request.headers@, "x-forwarded-for"@), context.client_ip@),
    )
    &&& header_is(sent.headers@[n + 1], "x-real-ip"@, context.client_ip@)
    &&& header_is(sent.headers@[n + 2], "x-forwarded-port"@, context.client_scheme.port_text())
    &&& header_is(sent.headers@[n + 3], "x-forwarded-proto"@, context.client_scheme.name())
    &&& match hostname {
        Some(name) => header_is(sent.headers@[n + 4], "x-forwarded-server"@, name@),
        None => true,
    }
}

/// Makes the request that goes to the backend. `hostname` is the name of the
/// host that the proxy runs on, where it is known. What the request says of
/// forwarding itself does not go on: the list in its `x-forwarded-for` is
/// taken up into the new header, the rest is dropped.
pub fn backend_request(request: Request, context: &Context, hostname: Option<String>) -> (sent:
    Request)
    ensures
        is_backend_request(request, *context, hostname, sent),
{
    let forwarded_for = forwarded_for_header(
        find_header(&request.headers, "x-forwarded-for"),
        context.client_ip.clone(),
    );
    let mut headers = request.headers;
    remove_header(&mut headers, "x-forwarded-for");
    remove_header(&mut headers, "x-real-ip");
    remove_header(&mut headers, "x-forwarded-port");
    remove_header(&mut headers, "x-forwarded-proto");
    remove_header(&mut headers, "x-forwarded-server");
    let ghost kept = headers@;
    headers.push(Header::new("x-forwarded-for", forwarded_for));
    headers.push(Header::new("x-real-ip", context.client_ip.clone()));
    headers.push(Header::new("x-forwarded-port", context.client_scheme.default_port().to_owned()));
    headers.push(Header::new("x-forwarded-proto", context.client_scheme.to_str().to_owned()));
    match hostname {
        Some(name) => {
            headers.push(Header::new("x-forwarded-server", name));
        },
        None => {},
    }
    assert(headers@.subrange(0, kept.len() as int) == kept);
    Request { method: request.method, uri: context.backend_uri.copy(), headers }
}

/// None of the headers that go on as they are bears the name `name`, where
/// `name` is one of the five that the proxy writes itself.
proof fn lemma_passed_on_has_none(headers: Seq<Header>, name: Seq<char>)
    requires
        name == "x-forwarded-for"@ || name == "x-real-ip"@ || name == "x-forwarded-port"@ || name
            == "x-forwarded-proto"@ || name == "x-forwarded-server"@,
    ensures
        forall|i: int|
            0 <= i < passed_on(headers).len() ==> !same_name(
                (#[trigger] passed_on(headers)[i]).name@,
                name,
            ),
{
    let first = without_header(headers, "x-forwarded-for"@);
    let second = without_header(first, "x-real-ip"@);
    let third = without_header(second, "x-forwarded-port"@);
    let fourth = without_header(third, "x-forwarded-proto"@);
    let fifth = without_header(fourth, "x-forwarded-server"@);
    lemma_without_header(headers, "x-forwarded-for"@);
    lemma_without_header(first, "x-real-ip"@);
    lemma_without_header(second, "x-forwarded-port"@);
    lemma_without_header(third, "x-forwarded-proto"@);
    lemma_without_header(fourth, "x-forwarded-server"@);
    assert forall|i: int| 0 <= i < fifth.len() implies !same_name(
        (#[trigger] fifth[i]).name@,
        name,
    ) by {
        let h = fifth[i];
        assert(fourth.contains(h));
        let a = choose|a: int| 0 <= a < fourth.len() && fourth[a] == h;
        assert(third.contains(fourth[a]));
        let b = choose|b: int| 0 <= b < third.len() && third[b] == h;
        assert(second.contains(third[b]));
        let c = choose|c: int| 0 <= c < second.len() && second[c] == h;
        assert(first.contains(second[c]));
        let d = choose|d: int| 0 <= d < first.len() && first[d] == h;
    }
}

/// The request that goes to the backend bears each forwarding header once,
/// and it is the one that the proxy wrote: a header that the client sent
/// under one of these names is not among the headers that went on, so that
/// whoever looks a forwarding header up by its name finds what the proxy
/// says. Without the name of the host there is no `x-forwarded-server` at
/// all.
pub proof fn lemma_forwarding_headers_are_the_proxys(
    request: Request,
    context: Context,
    hostname: Option<String>,
    sent: Request,
)
    requires
        is_backend_request(request, context, hostname, sent),
    ensures
        first_named(sent.headers@, "x-forwarded-for"@) is Some,
        header_is(
            first_named(sent.headers@, "x-forwarded-for"@)->Some_0,
            "x-forwarded-for"@,
            spec_forwarded_for(
                first_named(request.headers@, "x-forwarded-for"@),
                context.client_ip@,
            ),
        ),
        first_named(sent.headers@, "x-real-ip"@) is Some,
        header_is(first_named(sent.headers@, "x-real-ip"@)->Some_0, "x-real-ip"@, context.client_ip@),
        first_named(sent.headers@, "x-forwarded-port"@) is Some,
        header_is(
            first_named(sent.headers@, "x-forwarded-port"@)->Some_0,
            "x-forwarded-port"@,
            context.client_scheme.port_text(),
        ),
        first_named(sent.headers@, "x-forwarded-proto"@) is Some,
        header_is(
            first_named(sent.headers@, "x-forwarded-proto"@)->Some_0,
            "x-forwarded-proto"@,
            context.client_scheme.name(),
        ),
        match hostname {
            Some(name) => first_named(sent.headers@, "x-forwarded-server"@) is Some && header_is(
                first_named(sent.headers@, "x-forwarded-server"@)->Some_0,
                "x-forwarded-server"@,
                name@,
            ),
            None => first_named(sent.headers@, "x-forwarded-server"@) is None,
        },
{
    reveal_strlit("x-forwarded-for");
    reveal_strlit("x-real-ip");
    reveal_strlit("x-forwarded-port");
    reveal_strlit("x-forwarded-proto");
    reveal_strlit("x-forwarded-server");
    let all = sent.headers@;
    let kept = passed_on(request.headers@);
    let n = kept.len() as int;
    assert(forall|i: int| 0 <= i < n ==> all[i] == kept[i]) by {
        assert(forall|i: int| 0 <= i < n ==> all.subrange(0, n)[i] == all[i]);
    }
    lemma_passed_on_has_none(request.headers@, "x-forwarded-for"@);
    lemma_first_named_skips(all, "x-forwarded-for"@, n);
    assert(all.subrange(n, all.len() as int)[0] == all[n]);
    lemma_passed_on_has_none(request.headers@, "x-real-ip"@);
    lemma_first_named_skips(all, "x-real-ip"@, n + 1);
    assert(all.subrange(n + 1, all.len() as int)[0] == all[n + 1]);
    lemma_passed_on_has_none(request.headers@, "x-forwarded-port"@);
    lemma_first_named_skips(all, "x-forwarded-port"@, n + 2);
    assert(all.subrange(n + 2, all.len() as int)[0] == all[n + 2]);
    lemma_passed_on_has_none(request.headers@, "x-forwarded-proto"@);
    lemma_first_named_skips(all, "x-forwarded-proto"@, n + 3);
    assert(all.subrange(n + 3, all.len() as int)[0] == all[n + 3]);
    lemma_passed_on_has_none(request.headers@, "x-forwarded-server"@);
    lemma_first_named_skips(all, "x-forwarded-server"@, n + 4);
    if hostname is Some {
        assert(all.subrange(n + 4, all.len() as int)[0] == all[n + 4]);
    }
}

/// One stage of a chain.
#[derive(Debug)]
pub enum Middleware {
    Compression(Compression),
    HttpsRedirector(HttpsRedirector),
    Authentication(Authentication),
    RateLimiter(RateLimiter),
    MaxBodySize(MaxBodySize),
    CustomErrorPages(CustomErrorPages),
}

impl Middleware {
    /// The state of the middleware is in order.
    pub open spec fn wf(&self) -> bool {
        match self {
            Middleware::RateLimiter(l) => l.wf(),
            _ => true,
        }
    }

    /// The middleware has seen no request later than `now`.
    pub open spec fn accepts_time(&self, now: u64) -> bool {
        match self {
            Middleware::RateLimiter(l) => none_after(l.entries(), now),
            _ => true,
        }
    }

    /// Whether the middleware lets `request` pass on to the next stage
    /// without further ado.
    pub open spec fn passes(&self, request: Request, context: Context, now: u64) -> bool {
        match self {
            Middleware::Compression(_) => true,
            Middleware::HttpsRedirector(_) => context.client_scheme == Scheme::HTTPS,
            Middleware::Authentication(_) => false,
            Middleware::RateLimiter(l) => count_with_request(
                l.entries(),
                spec_key(context.client_address),
                now,
                l.window(),
            ) <= l.limit(),
            Middleware::MaxBodySize(m) => !m.refuses(request.headers@),
            Middleware::CustomErrorPages(_) => true,
        }
    }

    /// Whether `after` is the middleware once a request of the client of
    /// `context` has reached it at the time `now`. Only a rate limiter keeps
    /// a record.
    pub open spec fn reached(&self, after: Middleware, context: Context, now: u64) -> bool {
        match self {
            Middleware::RateLimiter(l) => {
                &&& after is RateLimiter
                &&& after->RateLimiter_0.limit() == l.limit()
                &&& after->RateLimiter_0.window() == l.window()
                &&& after->RateLimiter_0.entries() == after_request(
                    l.entries(),
                    spec_key(context.client_address),
                    now,
                    l.window(),
                )
            },
            _ => after == *self,
        }
    }

    /// Whether `response` is the answer of the middleware to a `request` that
    /// it does not let pass.
    pub open spec fn answers(&self, request: Request, response: Response) -> bool {
        match self {
            Middleware::HttpsRedirector(_) => is_redirection(request, response),
            Middleware::Authentication(_) => is_unauthorized(response),
            Middleware::RateLimiter(_) => is_plain(response, 429, None),
            Middleware::MaxBodySize(_) => is_plain(response, 413, None),
            _ => false,
        }
    }

    /// Whether the middleware needs a page read before the response can go
    /// on.
    pub open spec fn wants_page(&self, response: Response) -> bool {
        match self {
            Middleware::CustomErrorPages(c) => c.errors@.contains(response.status),
            _ => false,
        }
    }

    /// Whether `result` is what the middleware makes of `response` on its
    /// way back, where it needs no page for it.
    pub open spec fn transforms(&self, request: Request, response: Response, result: Response) -> bool {
        match self {
            Middleware::Compression(_) => Compression::transforms(
                request.headers@,
                response,
                result,
            ),
            _ => result == response,
        }
    }
}

/// Where a chain stands after a step on the way to the backend.
#[derive(Debug)]
pub enum RequestStep {
    /// Every middleware let the request pass: it is to be sent to the
    /// backend.
    Forward(Request),
    /// The middleware at `index` answered the request itself.
    Respond { index: usize, response: Response },
    /// The middleware at `index` asks for the credentials to be checked.
    Authenticate { index: usize, request: Request, credentials: Credentials },
}

/// Where a chain stands after a step on the way back.
#[derive(Debug)]
pub enum ResponseStep {
    /// The response is ready for the client.
    Done(Response),
    /// The middleware at `index` asks for the page in the file `path`.
    LoadPage { index: usize, path: String, response: Response },
}

/// The middlewares of a pool, in the order in which a request passes them.
#[derive(Debug)]
pub struct MiddlewareChain {
    pub entries: Vec<Middleware>,
}

/// The first stage from `start` on that does not let `request` pass, or the
/// length of the chain where every stage does.
pub open spec fn first_stop(
    entries: Seq<Middleware>,
    start: int,
    request: Request,
    context: Context,
    now: u64,
) -> int
    decreases entries.len() - start,
{
    if start < 0 || start >= entries.len() {
        entries.len() as int
    } else if entries[start].passes(request, context, now) {
        first_stop(entries, start + 1, request, context, now)
    } else {
        start
    }
}

/// Whether `step` is where the response `response` ends up on its way back
/// through the stages before `from`, last first.
pub open spec fn leads_back(
    entries: Seq<Middleware>,
    from: int,
    request: Request,
    response: Response,
    step: ResponseStep,
) -> bool
    decreases from,
{
    if from <= 0 || from > entries.len() {
        step == ResponseStep::Done(response)
    } else if entries[from - 1].wants_page(response) {
        &&& step is LoadPage
        &&& step->LoadPage_index == from - 1
        &&& step->LoadPage_response == response
        &&& step->LoadPage_path@ == entries[from - 1]->CustomErrorPages_0.location@ + "/"@
            + spec_decimal(response.status as nat) + ".html"@
    } else {
        exists|next: Response| #[trigger]
            entries[from - 1].transforms(request, response, next) && leads_back(
                entries,
                from - 1,
                request,
                next,
                step,
            )
    }
}

impl MiddlewareChain {
    /// The state of every stage is in order.
    pub open spec fn wf(&self) -> bool {
        forall|i: int| 0 <= i < self.entries@.len() ==> (#[trigger] self.entries@[i]).wf()
    }

    /// No stage has seen a request later than `now`.
    pub open spec fn accepts_time(&self, now: u64) -> bool {
        forall|i: int|
            0 <= i < self.entries@.len() ==> (#[trigger] self.entries@[i]).accepts_time(now)
    }

    /// Whether `step` is where a `request` that enters the chain `before` at
    /// the stage `start` gets to, and `after` the chain it leaves behind.
    pub open spec fn leads_to(
        before: Seq<Middleware>,
        after: Seq<Middleware>,
        start: int,
        request: Request,
        context: Context,
        now: u64,
        step: RequestStep,
    ) -> bool {
        let stop = first_stop(before, start, request, context, now);
        &&& after.len() == before.len()
        &&& forall|j: int|
            0 <= j < before.len() ==> if start <= j <= stop {
                (#[trigger] before[j]).reached(after[j], context, now)
            } else {
                after[j] == before[j]
            }
        &&& match step {
            RequestStep::Forward(passed) => stop == before.len() && passed == request,
            RequestStep::Respond { index, response } => {
                &&& index == stop
                &&& stop < before.len()
                &&& before[stop].answers(request, response)
                &&& before[stop] is Authentication ==> spec_credentials(request.headers@) is None
            },
            RequestStep::Authenticate { index, request: passed, credentials } => {
                &&& index == stop
                &&& stop < before.len()
                &&& before[stop] is Authentication
                &&& passed == request
                &&& spec_credentials(request.headers@) == Some(
                    (credentials.user_id@, credentials.password@),
                )
            },
        }
    }
}

/// What one stage makes of a request.
#[derive(Debug)]
pub enum StageResult {
    /// The request goes on to the next stage.
    Pass(Request),
    /// The stage answers the request itself.
    Respond(Response),
    /// The stage asks for the credentials to be checked.
    Authenticate(Request, Credentials),
}

impl Middleware {
    /// Hands `request` to the stage, at the time `now` in milliseconds.
    pub fn modify_request(&mut self, request: Request, context: &Context, now: u64) -> (r:
        StageResult)
        requires
            old(self).wf(),
            old(self).accepts_time(now),
        ensures
            final(self).wf(),
            final(self).accepts_time(now),
            old(self).reached(*final(self), *context, now),
            match r {
                StageResult::Pass(passed) => old(self).passes(request, *context, now) && passed
                    == request,
                StageResult::Respond(response) => {
                    &&& !old(self).passes(request, *context, now)
                    &&& old(self).answers(request, response)
                    &&& *old(self) is Authentication ==> spec_credentials(request.headers@)
                        is None
                },
                StageResult::Authenticate(passed, credentials) => {
                    &&& *old(self) is Authentication
                    &&& passed == request
                    &&& spec_credentials(request.headers@) == Some(
                        (credentials.user_id@, credentials.password@),
                    )
                },
            },
    {
        match self {
            Middleware::Compression(_) => StageResult::Pass(request),
            Middleware::HttpsRedirector(m) => match m.modify_request(
                request,
                context.client_scheme,
            ) {
                Ok(passed) => StageResult::Pass(passed),
                Err(response) => StageResult::Respond(response),
            },
            Middleware::Authentication(m) => match m.credentials(&request.headers) {
                Some(credentials) => StageResult::Authenticate(request, credentials),
                None => StageResult::Respond(response_unauthorized()),
            },
            Middleware::RateLimiter(m) => {
                if m.count_request(&context.client_address, now) {
                    StageResult::Pass(request)
                } else {
                    StageResult::Respond(too_many_requests())
                }
            },
            Middleware::MaxBodySize(m) => match m.modify_request(request) {
                Ok(passed) => StageResult::Pass(passed),
                Err(response) => StageResult::Respond(response),
            },
            Middleware::CustomErrorPages(_) => StageResult::Pass(request),
        }
    }

    /// Hands the stage a response on its way back. A stage that has a page
    /// of its own for the response returns the response unchanged: see
    /// [`MiddlewareChain::modify_response`].
    pub fn modify_response(&self, request: &Request, response: Response) -> (r: Response)
        ensures
            if self.wants_page(response) {
                r == response
            } else {
                self.transforms(*request, response, r)
            },
    {
        match self {
            Middleware::Compression(m) => m.modify_response(request, response),
            _ => response,
        }
    }
}

impl MiddlewareChain {
    /// Tests whether no stage has seen a request later than `now`: whether
    /// the clock has not gone back since the last request.
    pub fn check_time(&self, now: u64) -> (r: bool)
        requires
            self.wf(),
        ensures
            r == self.accepts_time(now),
    {
        let mut i: usize = 0;
        while i < self.entries.len()
            invariant
                self.wf(),
                0 <= i <= self.entries.len(),
                forall|k: int| 0 <= k < i ==> (#[trigger] self.entries@[k]).accepts_time(now),
            decreases self.entries.len() - i,
        {
            if let Middleware::RateLimiter(limiter) = &self.entries[i] {
                if !limiter.accepts_time(now) {
                    return false;
                }
            }
            i += 1;
        }
        true
    }

    /// Takes `request` through the stages from `start` on, at the time `now`
    /// in milliseconds, until one of them holds it up or all have let it
    /// pass.
    pub fn forward_request(
        &mut self,
        start: usize,
        request: Request,
        context: &Context,
        now: u64,
    ) -> (step: RequestStep)
        requires
            old(self).wf(),
            old(self).accepts_time(now),
            start <= old(self).entries@.len(),
        ensures
            final(self).wf(),
            final(self).accepts_time(now),
            MiddlewareChain::leads_to(
                old(self).entries@,
                final(self).entries@,
                start as int,
                request,
                *context,
                now,
                step,
            ),
    {
        let ghost before = self.entries@;
        let mut passing = request;
        let mut i: usize = start;
        while i < self.entries.len()
            invariant
                before == old(self).entries@,
                passing == request,
                self.wf(),
                self.accepts_time(now),
                self.entries@.len() == before.len(),
                start <= i <= before.len(),
                first_stop(before, start as int, request, *context, now) == first_stop(
                    before,
                    i as int,
                    request,
                    *context,
                    now,
                ),
                forall|j: int|
                    start <= j < i ==> (#[trigger] before[j]).reached(
                        self.entries@[j],
                        *context,
                        now,
                    ),
                forall|j: int|
                    0 <= j < before.len() && (j < start || j >= i) ==> self.entries@[j]
                        == #[trigger] before[j],
            decreases before.len() - i,
        {
            let ghost current = self.entries@;
            let mut stage = self.entries.remove(i);
            assert(stage == before[i as int]);
            let result = stage.modify_request(passing, context, now);
            self.entries.insert(i, stage);
            proof {
                assert(self.entries@[i as int] == stage);
                assert(forall|j: int|
                    0 <= j < before.len() && j != i ==> self.entries@[j] == current[j]);
            }
            match result {
                StageResult::Pass(passed) => {
                    passing = passed;
                },
                StageResult::Respond(response) => {
                    assert(first_stop(before, i as int, request, *context, now) == i);
                    return RequestStep::Respond { index: i, response };
                },
                StageResult::Authenticate(passed, credentials) => {
                    assert(!before[i as int].passes(request, *context, now));
                    assert(first_stop(before, i as int, request, *context, now) == i);
                    return RequestStep::Authenticate { index: i, request: passed, credentials };
                },
            }
            i += 1;
        }
        RequestStep::Forward(passing)
    }

    /// Goes on after the credentials that the stage `index` asked about have
    /// been checked: a request that is `allowed` enters the next stage, any
    /// other is answered with `401`.
    pub fn resume_authenticated(
        &mut self,
        index: usize,
        request: Request,
        context: &Context,
        now: u64,
        allowed: bool,
    ) -> (step: RequestStep)
        requires
            old(self).wf(),
            old(self).accepts_time(now),
            index < old(self).entries@.len(),
        ensures
            final(self).wf(),
            final(self).accepts_time(now),
            if allowed {
                MiddlewareChain::leads_to(
                    old(self).entries@,
                    final(self).entries@,
                    index + 1,
                    request,
                    *context,
                    now,
                    step,
                )
            } else {
                &&& final(self).entries@ == old(self).entries@
                &&& step is Respond
                &&& step->Respond_index == index
                &&& is_unauthorized(step->Respond_response)
            },
    {
        if allowed {
            let n = self.entries.len();
            assert(index < n);
            self.forward_request(index + 1, request, context, now)
        } else {
            RequestStep::Respond { index, response: response_unauthorized() }
        }
    }

    /// Takes `response` back through the stages before `from`, last first,
    /// until one of them asks for a page or the first stage is behind it.
    /// `request` is the request that the response answers.
    pub fn modify_response(&self, from: usize, request: &Request, response: Response) -> (step:
        ResponseStep)
        requires
            from <= self.entries@.len(),
        ensures
            leads_back(self.entries@, from as int, *request, response, step),
    {
        let mut returning = response;
        let mut i: usize = from;
        while i > 0
            invariant
                0 <= i <= from <= self.entries@.len(),
                forall|step: ResponseStep| #[trigger]
                    leads_back(self.entries@, i as int, *request, returning, step) ==> leads_back(
                        self.entries@,
                        from as int,
                        *request,
                        response,
                        step,
                    ),
            decreases i,
        {
            let ghost current = returning;
            match &self.entries[i - 1] {
                Middleware::CustomErrorPages(c) => {
                    if c.applies_to(returning.status) {
                        let path = c.page_path(returning.status);
                        let step = ResponseStep::LoadPage { index: i - 1, path, response: returning };
                        assert(self.entries@[i - 1].wants_page(current));
                        assert(step->LoadPage_index == i - 1);
                        assert(step->LoadPage_response == current);
                        assert(step->LoadPage_path@ == self.entries@[i
                            - 1]->CustomErrorPages_0.location@ + "/"@ + spec_decimal(
                            current.status as nat,
                        ) + ".html"@);
                        assert(leads_back(self.entries@, i as int, *request, current, step));
                        return step;
                    }
                },
                _ => {},
            }
            returning = self.entries[i - 1].modify_response(request, returning);
            proof {
                let next = returning;
                assert forall|step: ResponseStep| #[trigger]
                    leads_back(self.entries@, i - 1, *request, next, step) implies leads_back(
                    self.entries@,
                    from as int,
                    *request,
                    response,
                    step,
                ) by {
                    assert(self.entries@[i - 1].transforms(*request, current, next));
                    assert(leads_back(self.entries@, i as int, *request, current, step));
                }
            }
            i -= 1;
        }
        let step = ResponseStep::Done(returning);
        assert(leads_back(self.entries@, 0, *request, returning, step));
        step
    }

    /// Goes on after the page that the stage `index` asked for has been read:
    /// `page` is what the file holds, or `None` where it could not be read.
    /// The page, or the canonical line in its place, becomes the body, and
    /// the response goes back through the stages before `index`.
    pub fn resume_with_page(
        &self,
        index: usize,
        request: &Request,
        response: Response,
        page: Option<String>,
    ) -> (step: ResponseStep)
        requires
            index < self.entries@.len(),
            self.entries@[index as int] is CustomErrorPages,
        ensures
            exists|replaced: Response|
                CustomErrorPages::replaces(response, replaced, page_text(page, response.status))
                    && #[trigger] leads_back(
                    self.entries@,
                    index as int,
                    *request,
                    replaced,
                    step,
                ),
    {
        match &self.entries[index] {
            Middleware::CustomErrorPages(c) => {
                let replaced = c.replace_response(response, page);
                self.modify_response(index, request, replaced)
            },
            _ => ResponseStep::Done(response),
        }
    }
}

} // verus!

//! HTTP Basic authentication against a directory.

use vstd::prelude::*;
use vstd::string::StringExecFns;
use crate::http::{Body, Header, Response, get_header_text, header_is, header_text};

verus! {

/// The user and the password that `http_auth_basic::Credentials::from_header`
/// reads from the value of an `Authorization` header; `None` where the value
/// is not a well-formed Basic authorization.
pub uninterp spec fn basic_credentials(header: Seq<char>) -> Option<(Seq<char>, Seq<char>)>;

/// Calls `http_auth_basic::Credentials::from_header`.
#[verifier::external_body]
fn decode_credentials(header: &str) -> (r: Option<Credentials>)
    ensures
        match r {
            Some(c) => basic_credentials(header@) == Some((c.user_id@, c.password@)),
            None => basic_credentials(header@) is None,
        },
{
    match http_auth_basic::Credentials::from_header(header.to_string()) {
        Ok(c) => Some(Credentials { user_id: c.user_id, password: c.password }),
        Err(_) => None,
    }
}

/// A user and a password.
#[derive(Debug, PartialEq, Eq)]
pub struct Credentials {
    pub user_id: String,
    pub password: String,
}

/// How deep below the user directory a search looks.
#[derive(Clone, Copy, Debug, PartialEq, Eq, Structural)]
pub enum Scope {
    OneLevel,
    Subtree,
}

/// How an attempt to bind as one of the entries found ended.
#[derive(Clone, Copy, Debug, PartialEq, Eq, Structural)]
pub enum BindOutcome {
    /// The directory accepted the password.
    Accepted,
    /// The directory refused the password.
    Refused,
    /// The directory could not be asked.
    Failed,
}

/// What is to be done next for a request that carries credentials.
#[derive(Clone, Copy, Debug, PartialEq, Eq, Structural)]
pub enum Verdict {
    /// The request may pass.
    Allow,
    /// The request is answered with `401`.
    Deny,
    /// Bind as the entry with this index, with the password of the request.
    Bind(usize),
}

#[derive(Debug)]
pub struct Authentication {
    pub ldap_address: String,
    pub user_directory: String,
    pub rdn_identifier: String,
    pub recursive: bool,
}

/// Whether `response` is the answer to a request that did not authenticate.
pub open spec fn is_unauthorized(response: Response) -> bool {
    &&& response.status == 401
    &&& response.body is Empty
    &&& response.encodings@.len() == 0
    &&& response.headers@.len() == 1
    &&& header_is(
        response.headers@[0],
        "www-authenticate"@,
        "Basic realm=\"Another Rust Load Balancer requires authentication\""@,
    )
}

/// The answer to a request that did not authenticate: `401` with the
/// challenge for Basic authentication.
pub fn response_unauthorized() -> (r: Response)
    ensures
        is_unauthorized(r),
{
    let mut headers: Vec<Header> = Vec::new();
    headers.push(
        Header::new(
            "www-authenticate",
            "Basic realm=\"Another Rust Load Balancer requires authentication\"".to_owned(),
        ),
    );
    Response { status: 401, headers, body: Body::Empty, encodings: Vec::new() }
}

/// The credentials that a request with these headers carries.
pub open spec fn spec_credentials(headers: Seq<Header>) -> Option<(Seq<char>, Seq<char>)> {
    match header_text(headers, "authorization"@) {
        Some(text) => basic_credentials(text),
        None => None,
    }
}

impl Authentication {
    /// Reads the credentials from the `Authorization` header.
    pub fn credentials(&self, headers: &Vec<Header>) -> (r: Option<Credentials>)
        ensures
            match r {
                Some(c) => spec_credentials(headers@) == Some((c.user_id@, c.password@)),
                None => spec_credentials(headers@) is None,
            },
    {
        decode_credentials(get_header_text(headers, "authorization")?)
    }

    /// How deep the search for the user looks.
    pub fn scope(&self) -> (s: Scope)
        ensures
            s == (if self.recursive {
                Scope::Subtree
            } else {
                Scope::OneLevel
            }),
    {
        if self.recursive {
            Scope::Subtree
        } else {
            Scope::OneLevel
        }
    }

    /// The filter that finds the entries of `user` in the directory.
    pub fn filter(&self, user: &str) -> (f: String)
        ensures
            f@ == "("@ + self.rdn_identifier@ + "="@ + user@ + ")"@,
    {
        let mut f = "(".to_owned();
        f.append(self.rdn_identifier.as_str());
        f.append("=");
        f.append(user);
        f.append(")");
        f
    }

    /// What to do once the search has found `entries` entries: without any the
    /// request is denied, else the first is tried.
    pub fn after_search(&self, entries: usize) -> (v: Verdict)
        ensures
            v == (if entries == 0 {
                Verdict::Deny
            } else {
                Verdict::Bind(0)
            }),
    {
        if entries == 0 {
            Verdict::Deny
        } else {
            Verdict::Bind(0)
        }
    }

    /// What to do once the bind for the entry `index` of `entries` has ended
    /// with `outcome`: an acceptance allows the request, a failure denies it,
    /// and after a refusal the next entry is tried, if one is left.
    pub fn after_bind(&self, entries: usize, index: usize, outcome: BindOutcome) -> (v: Verdict)
        requires
            index < entries,
        ensures
            v == (match outcome {
                BindOutcome::Accepted => Verdict::Allow,
                BindOutcome::Failed => Verdict::Deny,
                BindOutcome::Refused => if index + 1 < entries {
                    Verdict::Bind((index + 1) as usize)
                } else {
                    Verdict::Deny
                },
            }),
    {
        match outcome {
            BindOutcome::Accepted => Verdict::Allow,
            BindOutcome::Failed => Verdict::Deny,
            BindOutcome::Refused => {
                if index + 1 < entries {
                    Verdict::Bind(index + 1)
                } else {
                    Verdict::Deny
                }
            },
        }
    }
}

/// How many binds at the start of `outcomes` were refused.
pub open spec fn refusals(outcomes: Seq<BindOutcome>) -> nat
    decreases outcomes.len(),
{
    if outcomes.len() > 0 && outcomes[0] == BindOutcome::Refused {
        1 + refusals(outcomes.drop_first())
    } else {
        0
    }
}

/// Where the check of a request stands once the binds for the first entries
/// found have ended as `outcomes` say, among `entries` entries in all: the
/// first bind that was not refused decides, for the request where it was
/// accepted and against it where it failed; while every bind was refused the
/// next entry is tried, and the request is denied when none is left.
pub open spec fn verdict_after(entries: nat, outcomes: Seq<BindOutcome>) -> Verdict {
    let refused = refusals(outcomes);
    if refused < outcomes.len() && refused < entries {
        if outcomes[refused as int] == BindOutcome::Accepted {
            Verdict::Allow
        } else {
            Verdict::Deny
        }
    } else if refused < entries {
        Verdict::Bind(refused as usize)
    } else {
        Verdict::Deny
    }
}

/// One more refusal at the end of refusals is one more refusal.
proof fn lemma_refusals_push(outcomes: Seq<BindOutcome>, outcome: BindOutcome)
    requires
        refusals(outcomes) == outcomes.len(),
    ensures
        refusals(outcomes.push(outcome)) == (if outcome == BindOutcome::Refused {
            outcomes.len() + 1
        } else {
            outcomes.len()
        }),
    decreases outcomes.len(),
{
    let all = outcomes.push(outcome);
    if outcomes.len() > 0 {
        assert(outcomes[0] == BindOutcome::Refused);
        assert(refusals(outcomes) == 1 + refusals(outcomes.drop_first()));
        assert(all[0] == outcomes[0]);
        assert(all.drop_first() == outcomes.drop_first().push(outcome));
        lemma_refusals_push(outcomes.drop_first(), outcome);
        assert(refusals(all) == 1 + refusals(all.drop_first()));
    } else {
        assert(all[0] == outcome);
        assert(all.drop_first().len() == 0);
        assert(refusals(all.drop_first()) == 0);
    }
}

/// The steps that the middleware takes add up to `verdict_after`: the search
/// starts the course, and where the course asks for the bind of an entry, the
/// outcome of that bind takes it on as `after_bind` says.
pub proof fn lemma_binds_follow_the_course(
    entries: nat,
    outcomes: Seq<BindOutcome>,
    outcome: BindOutcome,
)
    requires
        entries <= usize::MAX,
    ensures
        verdict_after(entries, Seq::empty()) == (if entries == 0 {
            Verdict::Deny
        } else {
            Verdict::Bind(0)
        }),
        verdict_after(entries, outcomes) is Bind ==> {
            let index = verdict_after(entries, outcomes)->Bind_0;
            &&& index == outcomes.len()
            &&& index < entries
            &&& verdict_after(entries, outcomes.push(outcome)) == (match outcome {
                BindOutcome::Accepted => Verdict::Allow,
                BindOutcome::Failed => Verdict::Deny,
                BindOutcome::Refused => if index + 1 < entries {
                    Verdict::Bind((index + 1) as usize)
                } else {
                    Verdict::Deny
                },
            })
        },
{
    if verdict_after(entries, outcomes) is Bind {
        lemma_refusals_bound(outcomes);
        lemma_refusals_push(outcomes, outcome);
        let all = outcomes.push(outcome);
        assert(all[outcomes.len() as int] == outcome);
    }
}

/// No more binds were refused than have ended.
proof fn lemma_refusals_bound(outcomes: Seq<BindOutcome>)
    ensures
        refusals(outcomes) <= outcomes.len(),
    decreases outcomes.len(),
{
    if outcomes.len() > 0 && outcomes[0] == BindOutcome::Refused {
        lemma_refusals_bound(outcomes.drop_first());
    }
}

} // verus!

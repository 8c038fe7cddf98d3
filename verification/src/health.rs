//! The health of backends: how a probe is judged and how the judgement is
//! kept.

use vstd::prelude::*;
use crate::http::{PathAndQuery, Uri};
use crate::text::{spec_split_once, split_once};

verus! {

/// What a pool asks of its health checks.
#[derive(Debug, PartialEq, Eq)]
pub struct HealthConfig {
    /// The latency in milliseconds above which a backend counts as slow.
    pub slow_threshold: i64,
    /// The time in milliseconds that each part of a probe may take.
    pub timeout: u64,
    /// The path that is probed.
    pub path: String,
}

/// The health of a backend.
#[derive(Debug, Clone, Copy, PartialEq, Eq)]
pub enum Healthiness {
    Healthy,
    Slow(i64),
    Unresponsive(Option<u16>),
}

/// How a probe ended.
#[derive(Debug, Clone, Copy, PartialEq, Eq)]
pub enum ProbeOutcome {
    /// The backend answered with `status` after `latency_ms` milliseconds.
    Answered { status: u16, latency_ms: i64 },
    /// The backend did not answer in time, or could not be reached.
    Failed,
}

/// Whether `status` reports success.
pub open spec fn is_success(status: u16) -> bool {
    200 <= status < 300
}

/// The health that a probe shows.
pub open spec fn spec_classify(outcome: ProbeOutcome, slow_threshold: i64) -> Healthiness {
    match outcome {
        ProbeOutcome::Answered { status, latency_ms } => if is_success(status) {
            if latency_ms > slow_threshold {
                Healthiness::Slow(latency_ms)
            } else {
                Healthiness::Healthy
            }
        } else {
            Healthiness::Unresponsive(Some(status))
        },
        ProbeOutcome::Failed => Healthiness::Unresponsive(None),
    }
}

/// Judges a probe: a success within the threshold is healthy, a later one
/// slow; any other status, and no answer at all, is unresponsive.
pub fn classify(outcome: ProbeOutcome, slow_threshold: i64) -> (h: Healthiness)
    ensures
        h == spec_classify(outcome, slow_threshold),
{
    match outcome {
        ProbeOutcome::Answered { status, latency_ms } => {
            if status >= 200 && status < 300 {
                if latency_ms > slow_threshold {
                    Healthiness::Slow(latency_ms)
                } else {
                    Healthiness::Healthy
                }
            } else {
                Healthiness::Unresponsive(Some(status))
            }
        },
        ProbeOutcome::Failed => Healthiness::Unresponsive(None),
    }
}

impl Healthiness {
    /// Whether both are the same health.
    pub fn same_as(&self, other: &Healthiness) -> (r: bool)
        ensures
            r == (*self == *other),
    {
        match (self, other) {
            (Healthiness::Healthy, Healthiness::Healthy) => true,
            (Healthiness::Slow(a), Healthiness::Slow(b)) => *a == *b,
            (Healthiness::Unresponsive(None), Healthiness::Unresponsive(None)) => true,
            (Healthiness::Unresponsive(Some(a)), Healthiness::Unresponsive(Some(b))) => *a == *b,
            _ => false,
        }
    }

    /// Whether requests may be sent to a backend of this health.
    pub fn is_healthy(&self) -> (r: bool)
        ensures
            r == (*self == Healthiness::Healthy),
    {
        match self {
            Healthiness::Healthy => true,
            _ => false,
        }
    }
}

/// Keeps the result of a probe: the health on record is written only where
/// the result differs from it. Tells whether it was written.
pub fn record(healthiness: &mut Healthiness, result: Healthiness) -> (changed: bool)
    ensures
        *final(healthiness) == result,
        changed == (*old(healthiness) != result),
{
    if healthiness.same_as(&result) {
        false
    } else {
        *healthiness = result;
        true
    }
}

/// Whether `uri` is where the backend `server_address` is probed: its
/// authority is the address, and the configured path, cut at the first `?`,
/// gives its path and its query.
pub open spec fn is_probe_target(server_address: Seq<char>, path: Seq<char>, uri: Uri) -> bool {
    &&& uri.authority is Some
    &&& uri.authority->Some_0@ == server_address
    &&& uri.path_and_query is Some
    &&& match spec_split_once(path, '?') {
        Some((p, q)) => {
            &&& uri.path_and_query->Some_0.path@ == p
            &&& uri.path_and_query->Some_0.query is Some
            &&& uri.path_and_query->Some_0.query->Some_0@ == q
        },
        None => {
            &&& uri.path_and_query->Some_0.path@ == path
            &&& uri.path_and_query->Some_0.query is None
        },
    }
}

/// Where the backend `server_address` is probed.
pub fn probe_target(server_address: &str, health_config: &HealthConfig) -> (uri: Uri)
    ensures
        is_probe_target(server_address@, health_config.path@, uri),
{
    let path_and_query = match split_once(health_config.path.as_str(), '?') {
        Some((path, query)) => PathAndQuery {
            path: path.to_owned(),
            query: Some(query.to_owned()),
        },
        None => PathAndQuery { path: health_config.path.clone(), query: None },
    };
    Uri { authority: Some(server_address.to_owned()), path_and_query: Some(path_and_query) }
}

/// What the monitor does next.
#[derive(Debug, Clone, Copy, PartialEq, Eq, Structural)]
pub enum MonitorAction {
    /// Checks are switched off: look at the configuration again after this
    /// many seconds.
    Idle(u64),
    /// Probe every backend now, and again after this many seconds.
    Probe(u64),
}

/// Decides what the monitor does for the configured interval: an interval of
/// zero switches the checks off.
pub fn next_action(check_every: u64) -> (a: MonitorAction)
    ensures
        a == (if check_every == 0 {
            MonitorAction::Idle(5)
        } else {
            MonitorAction::Probe(check_every)
        }),
{
    if check_every == 0 {
        MonitorAction::Idle(5)
    } else {
        MonitorAction::Probe(check_every)
    }
}

} // verus!

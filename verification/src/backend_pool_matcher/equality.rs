//! Equality of rules: leaf by leaf, a regular expression by its source text.

use vstd::prelude::*;
use vstd::std_specs::cmp::PartialEqSpecImpl;
use crate::backend_pool_matcher::{BackendPoolMatcher, ComparableRegex};
use crate::text::same_text;

verus! {

impl ComparableRegex {
    /// Whether both expressions were written with the same text.
    pub fn same_source(&self, other: &ComparableRegex) -> (r: bool)
        ensures
            r == (self@ == other@),
    {
        same_text(self.as_str(), other.as_str())
    }
}

impl PartialEq for ComparableRegex {
    fn eq(&self, other: &ComparableRegex) -> (r: bool) {
        self.same_source(other)
    }
}

impl PartialEqSpecImpl for ComparableRegex {
    open spec fn obeys_eq_spec() -> bool {
        true
    }

    open spec fn eq_spec(&self, other: &ComparableRegex) -> bool {
        self@ == other@
    }
}

impl BackendPoolMatcher {
    /// Whether both rules are the same tree.
    pub fn same_rule(&self, other: &BackendPoolMatcher) -> (r: bool)
        ensures
            r == (self@ == other@),
        decreases self,
    {
        match (self, other) {
            (BackendPoolMatcher::Host(a), BackendPoolMatcher::Host(b)) => same_text(
                a.as_str(),
                b.as_str(),
            ),
            (BackendPoolMatcher::HostRegexp(a), BackendPoolMatcher::HostRegexp(b)) => a.same_source(
                b,
            ),
            (BackendPoolMatcher::Method(a), BackendPoolMatcher::Method(b)) => same_text(
                a.as_str(),
                b.as_str(),
            ),
            (BackendPoolMatcher::Path(a), BackendPoolMatcher::Path(b)) => same_text(
                a.as_str(),
                b.as_str(),
            ),
            (BackendPoolMatcher::PathRegexp(a), BackendPoolMatcher::PathRegexp(b)) => a.same_source(
                b,
            ),
            (BackendPoolMatcher::Query(k, v), BackendPoolMatcher::Query(l, w)) => same_text(
                k.as_str(),
                l.as_str(),
            ) && same_text(v.as_str(), w.as_str()),
            (BackendPoolMatcher::And(a, b), BackendPoolMatcher::And(c, d)) => a.same_rule(c)
                && b.same_rule(d),
            (BackendPoolMatcher::Or(a, b), BackendPoolMatcher::Or(c, d)) => a.same_rule(c)
                && b.same_rule(d),
            _ => false,
        }
    }
}

impl PartialEq for BackendPoolMatcher {
    fn eq(&self, other: &BackendPoolMatcher) -> (r: bool) {
        self.same_rule(other)
    }
}

impl PartialEqSpecImpl for BackendPoolMatcher {
    open spec fn obeys_eq_spec() -> bool {
        true
    }

    open spec fn eq_spec(&self, other: &BackendPoolMatcher) -> bool {
        self@ == other@
    }
}

} // verus!

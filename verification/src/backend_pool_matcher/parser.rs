//! A recursive-descent parser for pool rules, proved to compute the grammar.

use vstd::prelude::*;
use crate::text::{chars_of, starts_with_at, string_of};
use crate::backend_pool_matcher::grammar::{
    MatcherModel, spec_chained, spec_leaf, spec_query, spec_rule, spec_spaces,
    spec_string, spec_string_body, spec_unary, spec_value,
};

verus! {

/// A rule as it was written: a tree whose leaves hold their arguments as text.
#[derive(Debug)]
pub enum RawMatcher {
    Host(String),
    HostRegexp(String),
    Method(String),
    Path(String),
    PathRegexp(String),
    Query(String, String),
    And(Box<RawMatcher>, Box<RawMatcher>),
    Or(Box<RawMatcher>, Box<RawMatcher>),
}

/// The tree that `m` stands for.
pub open spec fn raw_model(m: RawMatcher) -> MatcherModel
    decreases m,
{
    match m {
        RawMatcher::Host(s) => MatcherModel::Host(s@),
        RawMatcher::HostRegexp(s) => MatcherModel::HostRegexp(s@),
        RawMatcher::Method(s) => MatcherModel::Method(s@),
        RawMatcher::Path(s) => MatcherModel::Path(s@),
        RawMatcher::PathRegexp(s) => MatcherModel::PathRegexp(s@),
        RawMatcher::Query(k, v) => MatcherModel::Query(k@, v@),
        RawMatcher::And(l, r) => MatcherModel::And(
            Box::new(raw_model(*l)),
            Box::new(raw_model(*r)),
        ),
        RawMatcher::Or(l, r) => MatcherModel::Or(Box::new(raw_model(*l)), Box::new(raw_model(*r))),
    }
}

impl View for RawMatcher {
    type V = MatcherModel;

    open spec fn view(&self) -> MatcherModel {
        raw_model(*self)
    }
}

fn skip_spaces(s: &Vec<char>, i: usize) -> (j: usize)
    requires
        i <= s.len(),
    ensures
        i <= j <= s.len(),
        j == i + spec_spaces(s@, i as int),
{
    let mut j: usize = i;
    while j < s.len() && (s[j] == ' ' || s[j] == '\t' || s[j] == '\r' || s[j] == '\n')
        invariant
            i <= j <= s.len(),
            spec_spaces(s@, i as int) == (j - i) + spec_spaces(s@, j as int),
        decreases s.len() - j,
    {
        j += 1;
    }
    j
}

fn parse_string(s: &Vec<char>, i: usize) -> (r: Option<(String, usize)>)
    requires
        i <= s.len(),
    ensures
        match r {
            Some((t, e)) => i < e <= s.len() && spec_string(s@, i as int) == Some(
                (t@, (e - i) as nat),
            ),
            None => spec_string(s@, i as int) is None,
        },
{
    if i >= s.len() || s[i] != '\'' {
        return None;
    }
    let start: usize = i + 1;
    let mut acc: Vec<char> = Vec::new();
    let mut j: usize = start;
    loop
        invariant
            i < s.len(),
            s@[i as int] == '\'',
            start == i + 1,
            start <= j <= s.len(),
            spec_string_body(s@, start as int) == (match spec_string_body(s@, j as int) {
                Some((t, n)) => Some((acc@ + t, (n + j - start) as nat)),
                None => None,
            }),
        decreases s.len() - j,
    {
        if j >= s.len() {
            return None;
        }
        let c = s[j];
        if c == '\'' {
            assert(acc@ + Seq::<char>::empty() =~= acc@);
            let t = string_of(&acc);
            return Some((t, j + 1));
        } else if c == '\\' && j + 1 < s.len() && s[j + 1] == '\'' {
            proof {
                let ghost_acc = acc@;
                assert forall|t: Seq<char>| #[trigger]
                    (ghost_acc.push(s@[j + 1]) + t) == ghost_acc + (seq![s@[j + 1]] + t) by {
                    assert((ghost_acc.push(s@[j + 1]) + t) =~= ghost_acc + (seq![s@[j + 1]] + t));
                }
            }
            acc.push(s[j + 1]);
            j += 2;
        } else {
            proof {
                let ghost_acc = acc@;
                assert forall|t: Seq<char>| #[trigger]
                    (ghost_acc.push(c) + t) == ghost_acc + (seq![c] + t) by {
                    assert((ghost_acc.push(c) + t) =~= ghost_acc + (seq![c] + t));
                }
            }
            acc.push(c);
            j += 1;
        }
    }
}

fn parse_unary(s: &Vec<char>, i: usize, tag: &str) -> (r: Option<(String, usize)>)
    requires
        i <= s.len(),
    ensures
        match r {
            Some((t, e)) => i < e <= s.len() && spec_unary(s@, i as int, tag@) == Some(
                (t@, (e - i) as nat),
            ),
            None => spec_unary(s@, i as int, tag@) is None,
        },
{
    let tag_chars = chars_of(tag);
    if !starts_with_at(s, i, &tag_chars) {
        return None;
    }
    match parse_string(s, i + tag_chars.len()) {
        Some((t, e)) => {
            if e < s.len() && s[e] == ')' {
                Some((t, e + 1))
            } else {
                None
            }
        },
        None => None,
    }
}

fn parse_query(s: &Vec<char>, i: usize) -> (r: Option<((String, String), usize)>)
    requires
        i <= s.len(),
    ensures
        match r {
            Some(((k, v), e)) => i < e <= s.len() && spec_query(s@, i as int) == Some(
                ((k@, v@), (e - i) as nat),
            ),
            None => spec_query(s@, i as int) is None,
        },
{
    let tag_chars = chars_of("Query(");
    if !starts_with_at(s, i, &tag_chars) {
        return None;
    }
    match parse_string(s, i + tag_chars.len()) {
        Some((key, comma)) => {
            if comma < s.len() && s[comma] == ',' {
                let second = skip_spaces(s, comma + 1);
                match parse_string(s, second) {
                    Some((value, e)) => {
                        if e < s.len() && s[e] == ')' {
                            Some(((key, value), e + 1))
                        } else {
                            None
                        }
                    },
                    None => None,
                }
            } else {
                None
            }
        },
        None => None,
    }
}

fn parse_leaf(s: &Vec<char>, i: usize) -> (r: Option<(RawMatcher, usize)>)
    requires
        i <= s.len(),
    ensures
        match r {
            Some((m, e)) => i < e <= s.len() && spec_leaf(s@, i as int) == Some(
                (m@, (e - i) as nat),
            ),
            None => spec_leaf(s@, i as int) is None,
        },
{
    if let Some((t, e)) = parse_unary(s, i, "Host(") {
        return Some((RawMatcher::Host(t), e));
    }
    if let Some((t, e)) = parse_unary(s, i, "HostRegexp(") {
        return Some((RawMatcher::HostRegexp(t), e));
    }
    if let Some((t, e)) = parse_unary(s, i, "Method(") {
        return Some((RawMatcher::Method(t), e));
    }
    if let Some((t, e)) = parse_unary(s, i, "Path(") {
        return Some((RawMatcher::Path(t), e));
    }
    if let Some((t, e)) = parse_unary(s, i, "PathRegexp(") {
        return Some((RawMatcher::PathRegexp(t), e));
    }
    if let Some(((k, v), e)) = parse_query(s, i) {
        return Some((RawMatcher::Query(k, v), e));
    }
    None
}

fn parse_value(s: &Vec<char>, i: usize) -> (r: Option<(RawMatcher, usize)>)
    requires
        i <= s.len(),
    ensures
        match r {
            Some((m, e)) => i < e <= s.len() && spec_value(s@, i as int) == Some(
                (m@, (e - i) as nat),
            ),
            None => spec_value(s@, i as int) is None,
        },
    decreases s.len() - i, 0nat,
{
    if i >= s.len() {
        return None;
    }
    if let Some(leaf) = parse_leaf(s, i) {
        return Some(leaf);
    }
    if s[i] != '(' {
        return None;
    }
    let j = skip_spaces(s, i + 1);
    let inner = match parse_chained(s, j) {
        Some(found) => Some(found),
        None => parse_value(s, j),
    };
    match inner {
        Some((m, e)) => {
            let k = skip_spaces(s, e);
            if k < s.len() && s[k] == ')' {
                Some((m, k + 1))
            } else {
                None
            }
        },
        None => None,
    }
}

fn parse_chained(s: &Vec<char>, i: usize) -> (r: Option<(RawMatcher, usize)>)
    requires
        i <= s.len(),
    ensures
        match r {
            Some((m, e)) => i < e <= s.len() && spec_chained(s@, i as int) == Some(
                (m@, (e - i) as nat),
            ),
            None => spec_chained(s@, i as int) is None,
        },
    decreases s.len() - i, 1nat,
{
    if i >= s.len() {
        return None;
    }
    match parse_value(s, i) {
        Some((l, e)) => {
            let op = skip_spaces(s, e);
            if s.len() - op >= 2 && s[op] == '&' && s[op + 1] == '&' {
                let j = skip_spaces(s, op + 2);
                match parse_value(s, j) {
                    Some((r, end)) => Some((RawMatcher::And(Box::new(l), Box::new(r)), end)),
                    None => None,
                }
            } else if s.len() - op >= 2 && s[op] == '|' && s[op + 1] == '|' {
                let j = skip_spaces(s, op + 2);
                match parse_value(s, j) {
                    Some((r, end)) => Some((RawMatcher::Or(Box::new(l), Box::new(r)), end)),
                    None => None,
                }
            } else {
                None
            }
        },
        None => None,
    }
}

/// Reads a rule. The result is the tree that the grammar gives to `rule`, and
/// `None` exactly where `rule` is not a sentence of the grammar.
pub fn parse_rule(rule: &str) -> (r: Option<RawMatcher>)
    ensures
        match r {
            Some(m) => spec_rule(rule@) == Some(m@),
            None => spec_rule(rule@) is None,
        },
{
    let s = chars_of(rule);
    let found = match parse_chained(&s, 0) {
        Some(found) => Some(found),
        None => parse_value(&s, 0),
    };
    match found {
        Some((m, e)) => {
            if e == s.len() {
                Some(m)
            } else {
                None
            }
        },
        None => None,
    }
}

} // verus!

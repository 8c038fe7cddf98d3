//! The grammar of pool rules.
//!
//! ```text
//! expr    := chained | value
//! chained := value S "&&" S value | value S "||" S value
//! value   := leaf | "(" S (chained | value) S ")"
//! leaf    := name "(" string [ "," S string ] ")"
//! name    := "Host" | "HostRegexp" | "Method" | "Path" | "PathRegexp" | "Query"
//! string  := "'" ( [^'\] | "\'" | "\" )* "'"
//! S       := [ \t\r\n]*
//! ```
//!
//! Choices are ordered and a rule must use up its whole input. Inside a string
//! `\'` stands for a quote; a backslash before any other character stands for
//! itself, so that the escapes of a regular expression reach it unchanged.
//! A quote that follows a backslash never ends the string.

use vstd::prelude::*;

verus! {

/// A rule as a mathematical tree; every leaf holds the text it was written with.
pub enum MatcherModel {
    Host(Seq<char>),
    HostRegexp(Seq<char>),
    Method(Seq<char>),
    Path(Seq<char>),
    PathRegexp(Seq<char>),
    Query(Seq<char>, Seq<char>),
    And(Box<MatcherModel>, Box<MatcherModel>),
    Or(Box<MatcherModel>, Box<MatcherModel>),
}

/// How many characters of `s` are left at position `i`.
pub open spec fn left(s: Seq<char>, i: int) -> nat {
    if 0 <= i <= s.len() {
        (s.len() - i) as nat
    } else {
        0
    }
}

pub open spec fn is_space(c: char) -> bool {
    c == ' ' || c == '\t' || c == '\r' || c == '\n'
}

/// `S`: the number of blank characters from position `i` on.
pub open spec fn spec_spaces(s: Seq<char>, i: int) -> nat
    decreases left(s, i),
{
    if 0 <= i < s.len() && is_space(s[i]) {
        1 + spec_spaces(s, i + 1)
    } else {
        0
    }
}

/// What follows the opening quote of a `string`: the text it stands for and the
/// number of characters used up, closing quote included.
pub open spec fn spec_string_body(s: Seq<char>, i: int) -> Option<(Seq<char>, nat)>
    decreases left(s, i),
{
    if !(0 <= i < s.len()) {
        None
    } else if s[i] == '\'' {
        Some((Seq::empty(), 1nat))
    } else if s[i] == '\\' && i + 1 < s.len() && s[i + 1] == '\'' {
        match spec_string_body(s, i + 2) {
            Some((t, n)) => Some((seq!['\''] + t, n + 2)),
            None => None,
        }
    } else {
        match spec_string_body(s, i + 1) {
            Some((t, n)) => Some((seq![s[i]] + t, n + 1)),
            None => None,
        }
    }
}

/// `string` at position `i`.
pub open spec fn spec_string(s: Seq<char>, i: int) -> Option<(Seq<char>, nat)> {
    if 0 <= i < s.len() && s[i] == '\'' {
        match spec_string_body(s, i + 1) {
            Some((t, n)) => Some((t, n + 1)),
            None => None,
        }
    } else {
        None
    }
}

/// Whether the character `c` stands at position `i`.
pub open spec fn char_at(s: Seq<char>, i: int, c: char) -> bool {
    0 <= i < s.len() && s[i] == c
}

/// A leaf of one argument: `tag`, a `string` and a closing bracket.
pub open spec fn spec_unary(s: Seq<char>, i: int, tag: Seq<char>) -> Option<(Seq<char>, nat)> {
    if crate::text::has_prefix_at(s, i, tag) {
        match spec_string(s, i + tag.len()) {
            Some((t, n)) => if char_at(s, i + tag.len() + n, ')') {
                Some((t, tag.len() + n + 1))
            } else {
                None
            },
            None => None,
        }
    } else {
        None
    }
}

/// The leaf of two arguments: `Query(`, a `string`, a comma, `S`, a `string`
/// and a closing bracket.
pub open spec fn spec_query(s: Seq<char>, i: int) -> Option<((Seq<char>, Seq<char>), nat)> {
    let tag = "Query("@;
    if crate::text::has_prefix_at(s, i, tag) {
        match spec_string(s, i + tag.len()) {
            Some((key, n)) => {
                let comma = i + tag.len() + n;
                if char_at(s, comma, ',') {
                    let second = comma + 1 + spec_spaces(s, comma + 1);
                    match spec_string(s, second) {
                        Some((value, m)) => if char_at(s, second + m, ')') {
                            Some(((key, value), (second + m + 1 - i) as nat))
                        } else {
                            None
                        },
                        None => None,
                    }
                } else {
                    None
                }
            },
            None => None,
        }
    } else {
        None
    }
}

/// `leaf` at position `i`.
pub open spec fn spec_leaf(s: Seq<char>, i: int) -> Option<(MatcherModel, nat)> {
    if let Some((t, n)) = spec_unary(s, i, "Host("@) {
        Some((MatcherModel::Host(t), n))
    } else if let Some((t, n)) = spec_unary(s, i, "HostRegexp("@) {
        Some((MatcherModel::HostRegexp(t), n))
    } else if let Some((t, n)) = spec_unary(s, i, "Method("@) {
        Some((MatcherModel::Method(t), n))
    } else if let Some((t, n)) = spec_unary(s, i, "Path("@) {
        Some((MatcherModel::Path(t), n))
    } else if let Some((t, n)) = spec_unary(s, i, "PathRegexp("@) {
        Some((MatcherModel::PathRegexp(t), n))
    } else if let Some(((k, v), n)) = spec_query(s, i) {
        Some((MatcherModel::Query(k, v), n))
    } else {
        None
    }
}

/// `value` at position `i`.
pub open spec fn spec_value(s: Seq<char>, i: int) -> Option<(MatcherModel, nat)>
    decreases left(s, i), 0nat,
{
    if !(0 <= i < s.len()) {
        None
    } else if spec_leaf(s, i) is Some {
        spec_leaf(s, i)
    } else if s[i] == '(' {
        let j = i + 1 + spec_spaces(s, i + 1);
        let inner = if spec_chained(s, j) is Some {
            spec_chained(s, j)
        } else {
            spec_value(s, j)
        };
        match inner {
            Some((m, n)) => {
                let k = j + n + spec_spaces(s, j + n);
                if char_at(s, k, ')') {
                    Some((m, (k + 1 - i) as nat))
                } else {
                    None
                }
            },
            None => None,
        }
    } else {
        None
    }
}

/// `chained` at position `i`.
pub open spec fn spec_chained(s: Seq<char>, i: int) -> Option<(MatcherModel, nat)>
    decreases left(s, i), 1nat,
{
    if !(0 <= i < s.len()) {
        None
    } else {
        match spec_value(s, i) {
            Some((l, n)) => {
                let op = i + n + spec_spaces(s, i + n);
                if char_at(s, op, '&') && char_at(s, op + 1, '&') {
                    let j = op + 2 + spec_spaces(s, op + 2);
                    match spec_value(s, j) {
                        Some((r, m)) => Some(
                            (MatcherModel::And(Box::new(l), Box::new(r)), (j + m - i) as nat),
                        ),
                        None => None,
                    }
                } else if char_at(s, op, '|') && char_at(s, op + 1, '|') {
                    let j = op + 2 + spec_spaces(s, op + 2);
                    match spec_value(s, j) {
                        Some((r, m)) => Some(
                            (MatcherModel::Or(Box::new(l), Box::new(r)), (j + m - i) as nat),
                        ),
                        None => None,
                    }
                } else {
                    None
                }
            },
            None => None,
        }
    }
}

/// `expr` over the whole of `s`: the tree that the rule `s` denotes, or `None`
/// where `s` is no rule.
pub open spec fn spec_rule(s: Seq<char>) -> Option<MatcherModel> {
    let r = if spec_chained(s, 0) is Some {
        spec_chained(s, 0)
    } else {
        spec_value(s, 0)
    };
    match r {
        Some((m, n)) => if n == s.len() {
            Some(m)
        } else {
            None
        },
        None => None,
    }
}

} // verus!

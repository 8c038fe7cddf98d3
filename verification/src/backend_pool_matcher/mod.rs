//! Pool rules: a small expression language over the attributes of a request.
//!
//! A rule is read by [`parser::parse_rule`] into a tree of text, whose regular
//! expressions and method names are then compiled. A compiled rule is tested
//! against a request with [`BackendPoolMatcher::matches`], which looks at the
//! method, the path, the query and the `Host` header and at nothing else.

pub mod equality;
pub mod grammar;
pub mod parser;

use vstd::prelude::*;
use crate::http::{Request, check_visible_text, find_header, is_visible_text};
use crate::text::same_text;
use crate::backend_pool_matcher::grammar::{MatcherModel, spec_rule};
use crate::backend_pool_matcher::parser::{RawMatcher, parse_rule};

verus! {

/// `regex::Regex`, a compiled regular expression. Nothing is known of what
/// is inside.
#[verifier::external_type_specification]
#[verifier::external_body]
pub struct ExRegex(regex::Regex);

/// `regex::Error`, the reason why a pattern does not compile. Nothing is
/// known of what is inside.
#[verifier::external_type_specification]
#[verifier::external_body]
pub struct ExRegexError(regex::Error);

/// Whether `regex::Regex::new` accepts `pattern`.
pub uninterp spec fn regex_compiles(pattern: Seq<char>) -> bool;

/// Whether the regular expression written as `pattern` matches anywhere in
/// `text`, as `regex::Regex::is_match` decides it.
pub uninterp spec fn regex_matches(pattern: Seq<char>, text: Seq<char>) -> bool;

/// Whether `hyper::Method` accepts `name` as the name of a method.
pub uninterp spec fn method_token_accepted(name: Seq<char>) -> bool;

/// The pairs of key and value that `url::form_urlencoded::parse` reads from
/// `query`, percent-decoded, in the order in which they stand in it.
pub uninterp spec fn form_urlencoded_pairs(query: Seq<char>) -> Seq<(Seq<char>, Seq<char>)>;

/// Calls `regex::Regex::new`. Whether a pattern compiles depends on the
/// pattern alone.
#[verifier::external_body]
fn compile_regex(pattern: &str) -> (r: Result<regex::Regex, regex::Error>)
    ensures
        r is Ok == regex_compiles(pattern@),
{
    regex::Regex::new(pattern)
}

/// Calls `regex::Regex::is_match` on the compiled form of `re`. A
/// `ComparableRegex` is only ever built by `ComparableRegex::new`, which
/// compiles the very text it keeps as the source, so the answer is the one
/// that belongs to that source and `text`.
#[verifier::external_body]
fn regex_is_match(re: &ComparableRegex, text: &str) -> (b: bool)
    ensures
        b == regex_matches(re@, text@),
{
    re.compiled.is_match(text)
}

/// Calls `hyper::Method::from_str` and tells whether it accepted `name`.
#[verifier::external_body]
fn method_accepted(name: &str) -> (b: bool)
    ensures
        b == method_token_accepted(name@),
{
    name.parse::<hyper::Method>().is_ok()
}

/// Calls `url::form_urlencoded::parse` and collects the decoded pairs.
#[verifier::external_body]
fn decode_query(query: &str) -> (pairs: Vec<(String, String)>)
    ensures
        pairs_model(pairs@) == form_urlencoded_pairs(query@),
{
    url::form_urlencoded::parse(query.as_bytes()).into_owned().collect()
}

/// The texts of a list of pairs.
pub open spec fn pairs_model(pairs: Seq<(String, String)>) -> Seq<(Seq<char>, Seq<char>)> {
    pairs.map_values(|p: (String, String)| (p.0@, p.1@))
}

/// Whether some pair of `pairs` is `key` with `value`.
pub open spec fn pairs_contain(
    pairs: Seq<(Seq<char>, Seq<char>)>,
    key: Seq<char>,
    value: Seq<char>,
) -> bool {
    exists|i: int| 0 <= i < pairs.len() && #[trigger] pairs[i] == (key, value)
}

/// Tests whether `key` occurs with `value` among decoded query pairs. Where a
/// key is repeated, any of its occurrences will do.
pub fn query_contains(pairs: &Vec<(String, String)>, key: &str, value: &str) -> (r: bool)
    ensures
        r == pairs_contain(pairs_model(pairs@), key@, value@),
{
    let mut i: usize = 0;
    while i < pairs.len()
        invariant
            0 <= i <= pairs.len(),
            forall|k: int| 0 <= k < i ==> #[trigger] pairs_model(pairs@)[k] != (key@, value@),
        decreases pairs.len() - i,
    {
        if same_text(pairs[i].0.as_str(), key) && same_text(pairs[i].1.as_str(), value) {
            assert(pairs_model(pairs@)[i as int] == (key@, value@));
            return true;
        }
        assert(pairs_model(pairs@)[i as int] != (key@, value@));
        i += 1;
    }
    false
}

/// A compiled regular expression together with the text it was compiled
/// from. Two of them are equal where their texts are.
///
/// `compiled` is always what `regex::Regex::new` made of `source`. Verus
/// cannot see into a `regex::Regex`, so this pairing is not a proved
/// invariant: it holds because both fields are private and
/// [`ComparableRegex::new`] is the only place that builds the struct, from
/// one text for both. What [`ComparableRegex::is_match`] states rests on it.
/// No other constructor may be added, and the type is neither `Clone` nor
/// `Default` for that reason.
#[derive(Debug)]
pub struct ComparableRegex {
    source: String,
    compiled: regex::Regex,
}

impl View for ComparableRegex {
    type V = Seq<char>;

    closed spec fn view(&self) -> Seq<char> {
        self.source@
    }
}

impl ComparableRegex {
    /// Compiles `regex`. Fails exactly on the patterns that the regex engine
    /// refuses.
    pub fn new(regex: &str) -> (r: Result<ComparableRegex, regex::Error>)
        ensures
            r is Ok == regex_compiles(regex@),
            r is Ok ==> r->Ok_0@ == regex@,
    {
        match compile_regex(regex) {
            Ok(compiled) => Ok(ComparableRegex { source: regex.to_owned(), compiled }),
            Err(e) => Err(e),
        }
    }

    /// The text that the expression was compiled from.
    pub fn as_str(&self) -> (s: &str)
        ensures
            s@ == self@,
    {
        self.source.as_str()
    }

    /// Whether the expression matches anywhere in `text`.
    pub fn is_match(&self, text: &str) -> (b: bool)
        ensures
            b == regex_matches(self@, text@),
    {
        regex_is_match(self, text)
    }
}

/// Why a text is not a usable rule.
#[derive(Clone, Copy, Debug, PartialEq, Eq, Structural)]
pub enum MatcherError {
    /// The text is not a sentence of the grammar.
    Syntax,
    /// A regular expression of the rule does not compile.
    Regex,
    /// A method name of the rule is no valid token.
    Method,
}

/// A rule that decides whether a request belongs to a pool.
#[derive(Debug)]
pub enum BackendPoolMatcher {
    Host(String),
    HostRegexp(ComparableRegex),
    Method(String),
    Path(String),
    PathRegexp(ComparableRegex),
    Query(String, String),
    And(Box<BackendPoolMatcher>, Box<BackendPoolMatcher>),
    Or(Box<BackendPoolMatcher>, Box<BackendPoolMatcher>),
}

/// The tree that `m` stands for; a regular expression is its source text.
pub open spec fn matcher_model(m: BackendPoolMatcher) -> MatcherModel
    decreases m,
{
    match m {
        BackendPoolMatcher::Host(s) => MatcherModel::Host(s@),
        BackendPoolMatcher::HostRegexp(r) => MatcherModel::HostRegexp(r@),
        BackendPoolMatcher::Method(s) => MatcherModel::Method(s@),
        BackendPoolMatcher::Path(s) => MatcherModel::Path(s@),
        BackendPoolMatcher::PathRegexp(r) => MatcherModel::PathRegexp(r@),
        BackendPoolMatcher::Query(k, v) => MatcherModel::Query(k@, v@),
        BackendPoolMatcher::And(l, r) => MatcherModel::And(
            Box::new(matcher_model(*l)),
            Box::new(matcher_model(*r)),
        ),
        BackendPoolMatcher::Or(l, r) => MatcherModel::Or(
            Box::new(matcher_model(*l)),
            Box::new(matcher_model(*r)),
        ),
    }
}

impl View for BackendPoolMatcher {
    type V = MatcherModel;

    open spec fn view(&self) -> MatcherModel {
        matcher_model(*self)
    }
}

/// The first leaf of `m`, from left to right, that cannot be compiled, with
/// the reason.
pub open spec fn first_bad_leaf(m: MatcherModel) -> Option<MatcherError>
    decreases m,
{
    match m {
        MatcherModel::HostRegexp(r) => if regex_compiles(r) {
            None
        } else {
            Some(MatcherError::Regex)
        },
        MatcherModel::PathRegexp(r) => if regex_compiles(r) {
            None
        } else {
            Some(MatcherError::Regex)
        },
        MatcherModel::Method(s) => if method_token_accepted(s) {
            None
        } else {
            Some(MatcherError::Method)
        },
        MatcherModel::And(l, r) => if first_bad_leaf(*l) is Some {
            first_bad_leaf(*l)
        } else {
            first_bad_leaf(*r)
        },
        MatcherModel::Or(l, r) => if first_bad_leaf(*l) is Some {
            first_bad_leaf(*l)
        } else {
            first_bad_leaf(*r)
        },
        _ => None,
    }
}

/// What parsing the text `rule` gives.
pub open spec fn spec_parse(rule: Seq<char>) -> Result<MatcherModel, MatcherError> {
    match spec_rule(rule) {
        None => Err(MatcherError::Syntax),
        Some(m) => match first_bad_leaf(m) {
            Some(e) => Err(e),
            None => Ok(m),
        },
    }
}

/// Whether the rule `m` accepts a request with the given method, path, query
/// and `Host` header. `host` is `None` where the request has no such header
/// and `Some(None)` where its value is not text.
pub open spec fn spec_matches(
    m: MatcherModel,
    method: Seq<char>,
    path: Seq<char>,
    query: Option<Seq<char>>,
    host: Option<Option<Seq<char>>>,
) -> bool
    decreases m,
{
    match m {
        MatcherModel::Host(s) => host == Some(Some(s)),
        MatcherModel::HostRegexp(r) => match host {
            Some(Some(h)) => is_visible_text(h) && regex_matches(r, h),
            _ => false,
        },
        MatcherModel::Method(s) => method == s,
        MatcherModel::Path(s) => path == s,
        MatcherModel::PathRegexp(r) => regex_matches(r, path),
        MatcherModel::Query(k, v) => match query {
            Some(q) => pairs_contain(form_urlencoded_pairs(q), k, v),
            None => false,
        },
        MatcherModel::And(l, r) => spec_matches(*l, method, path, query, host) && spec_matches(
            *r,
            method,
            path,
            query,
            host,
        ),
        MatcherModel::Or(l, r) => spec_matches(*l, method, path, query, host) || spec_matches(
            *r,
            method,
            path,
            query,
            host,
        ),
    }
}

/// Compiles the leaves of a rule that was read.
pub fn compile(raw: RawMatcher) -> (r: Result<BackendPoolMatcher, MatcherError>)
    ensures
        match r {
            Ok(m) => first_bad_leaf(raw@) is None && m@ == raw@,
            Err(e) => first_bad_leaf(raw@) == Some(e),
        },
    decreases raw,
{
    match raw {
        RawMatcher::Host(s) => Ok(BackendPoolMatcher::Host(s)),
        RawMatcher::HostRegexp(s) => match ComparableRegex::new(s.as_str()) {
            Ok(re) => Ok(BackendPoolMatcher::HostRegexp(re)),
            Err(_) => Err(MatcherError::Regex),
        },
        RawMatcher::Method(s) => if method_accepted(s.as_str()) {
            Ok(BackendPoolMatcher::Method(s))
        } else {
            Err(MatcherError::Method)
        },
        RawMatcher::Path(s) => Ok(BackendPoolMatcher::Path(s)),
        RawMatcher::PathRegexp(s) => match ComparableRegex::new(s.as_str()) {
            Ok(re) => Ok(BackendPoolMatcher::PathRegexp(re)),
            Err(_) => Err(MatcherError::Regex),
        },
        RawMatcher::Query(k, v) => Ok(BackendPoolMatcher::Query(k, v)),
        RawMatcher::And(l, r) => {
            let left = compile(*l)?;
            let right = compile(*r)?;
            Ok(BackendPoolMatcher::And(Box::new(left), Box::new(right)))
        },
        RawMatcher::Or(l, r) => {
            let left = compile(*l)?;
            let right = compile(*r)?;
            Ok(BackendPoolMatcher::Or(Box::new(left), Box::new(right)))
        },
    }
}

impl BackendPoolMatcher {
    /// Reads and compiles a rule. Succeeds exactly on the texts that are
    /// sentences of the grammar and whose regular expressions and method
    /// names are accepted.
    pub fn parse(rule: &str) -> (r: Result<BackendPoolMatcher, MatcherError>)
        ensures
            match r {
                Ok(m) => spec_parse(rule@) == Ok::<MatcherModel, MatcherError>(m@),
                Err(e) => spec_parse(rule@) == Err::<MatcherModel, MatcherError>(e),
            },
    {
        match parse_rule(rule) {
            Some(raw) => compile(raw),
            None => Err(MatcherError::Syntax),
        }
    }

    /// Whether the rule accepts `request`.
    pub fn matches(&self, request: &Request) -> (r: bool)
        ensures
            r == spec_matches(
                self@,
                request.method@,
                request.spec_path(),
                request.spec_query(),
                request.spec_host(),
            ),
        decreases self,
    {
        match self {
            BackendPoolMatcher::Host(host) => match find_header(&request.headers, "host") {
                Some(h) => match &h.value {
                    Some(v) => same_text(v.as_str(), host.as_str()),
                    None => false,
                },
                None => false,
            },
            BackendPoolMatcher::HostRegexp(host_regex) => match find_header(
                &request.headers,
                "host",
            ) {
                Some(h) => match &h.value {
                    Some(v) => check_visible_text(v.as_str()) && host_regex.is_match(v.as_str()),
                    None => false,
                },
                None => false,
            },
            BackendPoolMatcher::Method(method) => same_text(
                request.method.as_str(),
                method.as_str(),
            ),
            BackendPoolMatcher::Path(path) => same_text(request.path(), path.as_str()),
            BackendPoolMatcher::PathRegexp(path_regex) => path_regex.is_match(request.path()),
            BackendPoolMatcher::Query(key, value) => match request.query() {
                Some(q) => {
                    let pairs = decode_query(q);
                    query_contains(&pairs, key.as_str(), value.as_str())
                },
                None => false,
            },
            BackendPoolMatcher::And(left, right) => left.matches(request) && right.matches(
                request,
            ),
            BackendPoolMatcher::Or(left, right) => left.matches(request) || right.matches(request),
        }
    }
}

/// A rule accepts or refuses a request by its method, path, query and `Host`
/// header alone: two requests that agree in these get the same answer from
/// every rule.
pub proof fn lemma_matches_reads_four_attributes(m: BackendPoolMatcher, a: Request, b: Request)
    requires
        a.method@ == b.method@,
        a.spec_path() == b.spec_path(),
        a.spec_query() == b.spec_query(),
        a.spec_host() == b.spec_host(),
    ensures
        spec_matches(m@, a.method@, a.spec_path(), a.spec_query(), a.spec_host()) == spec_matches(
            m@,
            b.method@,
            b.spec_path(),
            b.spec_query(),
            b.spec_host(),
        ),
{
}

/// Reading one text twice gives the same result both times: two rules read
/// from equal texts are the same tree, leaf for leaf.
pub proof fn lemma_parse_twice(
    first: Seq<char>,
    second: Seq<char>,
    m1: BackendPoolMatcher,
    m2: BackendPoolMatcher,
)
    requires
        first == second,
        spec_parse(first) == Ok::<MatcherModel, MatcherError>(m1@),
        spec_parse(second) == Ok::<MatcherModel, MatcherError>(m2@),
    ensures
        m1@ == m2@,
{
}

} // verus!

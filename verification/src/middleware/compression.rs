//! Compression of responses, as far as the client accepts it.

use vstd::prelude::*;
use crate::http::{
    Encoding, Header, Request, Response, find_header, get_header_text, has_header, header_text,
    headers_extended, remove_header, without_header,
};
use crate::text::{
    chars_of, has_prefix_at, spec_split, spec_split_once, spec_trim, split,
    split_once, starts_with_at, string_of, texts, trim,
};

verus! {

impl Encoding {
    /// The name of the encoding in `Accept-Encoding` and `Content-Encoding`.
    pub open spec fn name(&self) -> Seq<char> {
        match self {
            Encoding::BROTLI => "br"@,
            Encoding::DEFLATE => "deflate"@,
            Encoding::GZIP => "gzip"@,
        }
    }

    /// The encoding named `s`.
    pub open spec fn named(s: Seq<char>) -> Option<Encoding> {
        if s == "br"@ {
            Some(Encoding::BROTLI)
        } else if s == "deflate"@ {
            Some(Encoding::DEFLATE)
        } else if s == "gzip"@ {
            Some(Encoding::GZIP)
        } else {
            None
        }
    }

    pub fn to_str(&self) -> (s: &'static str)
        ensures
            s@ == self.name(),
    {
        match self {
            Encoding::BROTLI => "br",
            Encoding::DEFLATE => "deflate",
            Encoding::GZIP => "gzip",
        }
    }

    pub fn from_str(s: &str) -> (r: Option<Encoding>)
        ensures
            r == Encoding::named(s@),
    {
        if crate::text::same_text(s, "br") {
            Some(Encoding::BROTLI)
        } else if crate::text::same_text(s, "deflate") {
            Some(Encoding::DEFLATE)
        } else if crate::text::same_text(s, "gzip") {
            Some(Encoding::GZIP)
        } else {
            None
        }
    }
}

/// The value of a decimal digit.
pub open spec fn digit(c: char) -> Option<int> {
    if '0' <= c && c <= '9' {
        Some(c as int - '0' as int)
    } else {
        None
    }
}

/// The thousandths that up to three fractional digits stand for.
pub open spec fn thousandths(digits: Seq<char>) -> Option<int> {
    if digits.len() > 3 || exists|i: int| 0 <= i < digits.len() && digit(digits[i]) is None {
        None
    } else {
        Some(
            (if digits.len() > 0 {
                digit(digits[0])->Some_0 * 100
            } else {
                0
            }) + (if digits.len() > 1 {
                digit(digits[1])->Some_0 * 10
            } else {
                0
            }) + (if digits.len() > 2 {
                digit(digits[2])->Some_0
            } else {
                0
            }),
        )
    }
}

/// The weight, in thousandths, that the text `number` gives: `0` or `1`,
/// then, if anything, a point and up to three digits; no more than one in all.
pub open spec fn spec_weight(number: Seq<char>) -> Option<int> {
    if number.len() == 0 || (number[0] != '0' && number[0] != '1') {
        None
    } else if number.len() == 1 {
        Some(digit(number[0])->Some_0 * 1000)
    } else if number[1] != '.' {
        None
    } else {
        match thousandths(number.subrange(2, number.len() as int)) {
            Some(t) => if number[0] == '1' && t != 0 {
                None
            } else {
                Some(digit(number[0])->Some_0 * 1000 + t)
            },
            None => None,
        }
    }
}

/// What `parse_qvalue` gives for the text `qvalue`: the weight behind `q=` in
/// thousandths, unless it is zero or not a weight at all.
pub open spec fn spec_parse_qvalue(qvalue: Seq<char>) -> Option<u32> {
    if has_prefix_at(qvalue, 0, "q="@) {
        match spec_weight(qvalue.subrange("q="@.len() as int, qvalue.len() as int)) {
            Some(w) => if w != 0 {
                Some(w as u32)
            } else {
                None
            },
            None => None,
        }
    } else {
        None
    }
}

fn digit_of(c: char) -> (r: Option<u32>)
    ensures
        match r {
            Some(d) => digit(c) == Some(d as int) && d <= 9,
            None => digit(c) is None,
        },
{
    if c >= '0' && c <= '9' {
        Some((c as u32) - ('0' as u32))
    } else {
        None
    }
}

fn parse_thousandths(v: &Vec<char>, from: usize) -> (r: Option<u32>)
    requires
        from <= v.len(),
    ensures
        match r {
            Some(t) => thousandths(v@.subrange(from as int, v.len() as int)) == Some(t as int)
                && t <= 999,
            None => thousandths(v@.subrange(from as int, v.len() as int)) is None,
        },
{
    let ghost digits = v@.subrange(from as int, v.len() as int);
    let n = v.len() - from;
    if n > 3 {
        return None;
    }
    let mut total: u32 = 0;
    let mut scale: u32 = 100;
    let mut i: usize = 0;
    while i < n
        invariant
            digits == v@.subrange(from as int, v.len() as int),
            n == v.len() - from,
            n <= 3,
            0 <= i <= n,
            forall|k: int| 0 <= k < i ==> digit(digits[k]) is Some,
            scale == (if i == 0 {
                100u32
            } else if i == 1 {
                10u32
            } else if i == 2 {
                1u32
            } else {
                0u32
            }),
            total == (if i > 0 {
                digit(digits[0])->Some_0 * 100
            } else {
                0
            }) + (if i > 1 {
                digit(digits[1])->Some_0 * 10
            } else {
                0
            }) + (if i > 2 {
                digit(digits[2])->Some_0
            } else {
                0
            }),
            total <= 999,
        decreases n - i,
    {
        match digit_of(v[from + i]) {
            Some(d) => {
                total = total + d * scale;
                scale = scale / 10;
            },
            None => {
                assert(digit(digits[i as int]) is None);
                return None;
            },
        }
        i += 1;
    }
    Some(total)
}

/// Reads a quality value: `q=` and a weight between 0 and 1 with up to three
/// digits behind the point. The result counts thousandths; a weight of zero
/// means "not acceptable" and gives `None`, as does anything that is no
/// quality value.
pub fn parse_qvalue(qvalue: &str) -> (r: Option<u32>)
    ensures
        r == spec_parse_qvalue(qvalue@),
{
    let v = chars_of(qvalue);
    let tag = chars_of("q=");
    if !starts_with_at(&v, 0, &tag) {
        return None;
    }
    let start = tag.len();
    let ghost number = v@.subrange(start as int, v.len() as int);
    if start >= v.len() {
        return None;
    }
    let whole: u32 = if v[start] == '0' {
        0
    } else if v[start] == '1' {
        1
    } else {
        return None;
    };
    assert(number[0] == v@[start as int]);
    if v.len() - start == 1 {
        return if whole != 0 {
            Some(1000)
        } else {
            None
        };
    }
    assert(number[1] == v@[start + 1]);
    if v[start + 1] != '.' {
        return None;
    }
    assert(number.subrange(2, number.len() as int) == v@.subrange(start + 2, v.len() as int));
    match parse_thousandths(&v, start + 2) {
        Some(t) => {
            if whole == 1 && t != 0 {
                None
            } else {
                let w = whole * 1000 + t;
                if w != 0 {
                    Some(w)
                } else {
                    None
                }
            }
        },
        None => None,
    }
}

/// What one clause of `Accept-Encoding` asks for: a supported encoding and its
/// weight in thousandths. A clause without `;` weighs one.
pub open spec fn spec_parse_encoding_and_qvalue(clause: Seq<char>) -> Option<(Encoding, u32)> {
    let (name, qvalue) = match spec_split_once(clause, ';') {
        Some((name, qvalue)) => (name, qvalue),
        None => (clause, "q=1"@),
    };
    match Encoding::named(name) {
        Some(encoding) => match spec_parse_qvalue(qvalue) {
            Some(weight) => Some((encoding, weight)),
            None => None,
        },
        None => None,
    }
}

/// Reads one clause of `Accept-Encoding`.
pub fn parse_encoding_and_qvalue(encoding_and_qvalue: &str) -> (r: Option<(Encoding, u32)>)
    ensures
        r == spec_parse_encoding_and_qvalue(encoding_and_qvalue@),
{
    let (encoding, qvalue) = match split_once(encoding_and_qvalue, ';') {
        Some((encoding, qvalue)) => (encoding, qvalue),
        None => (encoding_and_qvalue, "q=1"),
    };
    let encoding = Encoding::from_str(encoding)?;
    let qvalue = parse_qvalue(qvalue)?;
    Some((encoding, qvalue))
}

/// The offers that the clauses make, in order; a clause that makes none is
/// passed over.
pub open spec fn offers(clauses: Seq<Seq<char>>) -> Seq<(Encoding, u32)>
    decreases clauses.len(),
{
    if clauses.len() == 0 {
        Seq::empty()
    } else {
        let before = offers(clauses.drop_last());
        match spec_parse_encoding_and_qvalue(spec_trim(clauses.last())) {
            Some(offer) => before.push(offer),
            None => before,
        }
    }
}

/// The best of the first `n` offers: the heaviest, and among equally heavy
/// ones the first.
pub open spec fn best_offer(offers: Seq<(Encoding, u32)>, n: int) -> Option<(Encoding, u32)>
    decreases n,
{
    if n <= 0 || n > offers.len() {
        None
    } else {
        match best_offer(offers, n - 1) {
            Some(best) => if offers[n - 1].1 > best.1 {
                Some(offers[n - 1])
            } else {
                Some(best)
            },
            None => Some(offers[n - 1]),
        }
    }
}

/// Whether the offer at `i` is the best of the first `n` offers: none of them
/// is heavier, and those before it are lighter.
pub open spec fn is_best(offers: Seq<(Encoding, u32)>, n: int, i: int) -> bool {
    &&& 0 <= i < n <= offers.len()
    &&& forall|j: int| 0 <= j < n ==> (#[trigger] offers[j]).1 <= offers[i].1
    &&& forall|j: int| 0 <= j < i ==> (#[trigger] offers[j]).1 < offers[i].1
}

/// The best offer is the heaviest, and among equally heavy ones the first;
/// there is one unless there is no offer at all.
pub proof fn lemma_best_offer(offers: Seq<(Encoding, u32)>, n: int)
    requires
        0 <= n <= offers.len(),
    ensures
        n == 0 ==> best_offer(offers, n) is None,
        n > 0 ==> best_offer(offers, n) is Some && exists|i: int|
            is_best(offers, n, i) && #[trigger] offers[i] == best_offer(offers, n)->Some_0,
    decreases n,
{
    if n > 1 {
        lemma_best_offer(offers, n - 1);
        let before = best_offer(offers, n - 1)->Some_0;
        let i = choose|i: int| is_best(offers, n - 1, i) && #[trigger] offers[i] == before;
        if offers[n - 1].1 > before.1 {
            assert(is_best(offers, n, n - 1));
        } else {
            assert(is_best(offers, n, i));
        }
    } else if n == 1 {
        assert(best_offer(offers, 0) is None);
        assert(is_best(offers, 1, 0));
    }
}

/// The encoding that a client sending these headers prefers among those
/// supported.
pub open spec fn spec_preferred_encoding(headers: Seq<Header>) -> Option<Encoding> {
    match header_text(headers, "accept-encoding"@) {
        Some(value) => {
            let all = offers(spec_split(value, ','));
            match best_offer(all, all.len() as int) {
                Some(best) => Some(best.0),
                None => None,
            }
        },
        None => None,
    }
}

/// Picks the best of `offers`.
pub fn pick_offer(offers: &Vec<(Encoding, u32)>) -> (r: Option<Encoding>)
    ensures
        r == match best_offer(offers@, offers@.len() as int) {
            Some(best) => Some(best.0),
            None => None,
        },
{
    let mut best: Option<(Encoding, u32)> = None;
    let mut i: usize = 0;
    while i < offers.len()
        invariant
            0 <= i <= offers.len(),
            best == best_offer(offers@, i as int),
        decreases offers.len() - i,
    {
        best = match best {
            Some(b) => if offers[i].1 > b.1 {
                Some(offers[i])
            } else {
                Some(b)
            },
            None => Some(offers[i]),
        };
        i += 1;
    }
    match best {
        Some(b) => Some(b.0),
        None => None,
    }
}

/// Reads `Accept-Encoding` and picks the supported encoding that the client
/// likes best. The encoding `*` is not supported.
pub fn get_preferred_encoding(headers: &Vec<Header>) -> (r: Option<Encoding>)
    ensures
        r == spec_preferred_encoding(headers@),
{
    let value = get_header_text(headers, "accept-encoding")?;
    let clauses = split(value, ',');
    let mut found: Vec<(Encoding, u32)> = Vec::new();
    let mut i: usize = 0;
    assert(texts(clauses@).subrange(0, 0) =~= Seq::<Seq<char>>::empty());
    while i < clauses.len()
        invariant
            0 <= i <= clauses.len(),
            found@ == offers(texts(clauses@).subrange(0, i as int)),
        decreases clauses.len() - i,
    {
        let clause = chars_of(clauses[i].as_str());
        let trimmed = string_of(&trim(&clause));
        assert(texts(clauses@).subrange(0, i + 1).drop_last() == texts(clauses@).subrange(
            0,
            i as int,
        ));
        assert(texts(clauses@).subrange(0, i + 1).last() == clauses@[i as int]@);
        if let Some(offer) = parse_encoding_and_qvalue(trimmed.as_str()) {
            found.push(offer);
        }
        i += 1;
    }
    assert(texts(clauses@).subrange(0, clauses.len() as int) == texts(clauses@));
    pick_offer(&found)
}

#[derive(Debug)]
pub struct Compression;

impl Compression {
    /// Whether `compressed` is `response` with its body encoded once more, by
    /// `encoding`: `Content-Encoding` names the encoding and `Content-Length`
    /// is gone.
    pub open spec fn compresses(response: Response, compressed: Response, encoding: Encoding) -> bool {
        &&& compressed.status == response.status
        &&& compressed.body == response.body
        &&& compressed.encodings@ == response.encodings@.push(encoding)
        &&& headers_extended(
            without_header(
                without_header(response.headers@, "content-encoding"@),
                "content-length"@,
            ),
            compressed.headers@,
            "content-encoding"@,
            encoding.name(),
        )
    }

    /// Has the body encoded by `encoding` and sets the headers to match.
    pub fn compress_response(&self, response: Response, encoding: Encoding) -> (r: Response)
        ensures
            Compression::compresses(response, r, encoding),
    {
        let mut response = response;
        response.encodings.push(encoding);
        remove_header(&mut response.headers, "content-encoding");
        remove_header(&mut response.headers, "content-length");
        let ghost kept = response.headers@;
        response.headers.push(Header::new("content-encoding", encoding.to_str().to_owned()));
        assert(response.headers@.subrange(0, kept.len() as int) == kept);
        response
    }

    /// What the middleware makes of the response to a request with the headers
    /// `request_headers`: where the client prefers a supported encoding and
    /// the response is not encoded yet, the response is compressed with it;
    /// any other response stays as it is.
    pub open spec fn transforms(
        request_headers: Seq<Header>,
        response: Response,
        result: Response,
    ) -> bool {
        match spec_preferred_encoding(request_headers) {
            Some(encoding) => if has_header(response.headers@, "content-encoding"@) {
                result == response
            } else {
                Compression::compresses(response, result, encoding)
            },
            None => result == response,
        }
    }

    /// Compresses the response where the client accepts it.
    pub fn modify_response(&self, request: &Request, response: Response) -> (r: Response)
        ensures
            Compression::transforms(request.headers@, response, r),
    {
        match get_preferred_encoding(&request.headers) {
            Some(encoding) => {
                if find_header(&response.headers, "content-encoding").is_some() {
                    response
                } else {
                    self.compress_response(response, encoding)
                }
            },
            None => response,
        }
    }
}

} // verus!

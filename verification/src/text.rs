//! Text as sequences of characters.
//!
//! Contracts throughout the crate speak of a string through its view, a
//! `Seq<char>`. The functions here move between `str`, `String` and
//! `Vec<char>` and provide the few searches the other modules share.

use vstd::prelude::*;
use vstd::std_specs::iter::IteratorSpec;

verus! {

/// `String::push` appends one character.
pub assume_specification[ String::push ](s: &mut String, c: char)
    ensures
        final(s)@ == old(s)@.push(c),
;

/// The characters of `s`, in order.
pub fn chars_of(s: &str) -> (v: Vec<char>)
    ensures
        v@ == s@,
{
    let mut v: Vec<char> = Vec::new();
    let mut it = s.chars();
    loop
        invariant
            it.obeys_prophetic_iter_laws(),
            v@ + it.remaining() == s@,
        ensures
            v@ == s@,
        decreases s@.len() - v@.len(),
    {
        match it.next() {
            Some(c) => {
                v.push(c);
            },
            None => {
                break ;
            },
        }
    }
    v
}

/// The string made of the characters `v[from..to]`.
pub fn string_of_range(v: &Vec<char>, from: usize, to: usize) -> (s: String)
    requires
        from <= to <= v.len(),
    ensures
        s@ == v@.subrange(from as int, to as int),
{
    let mut s = String::new();
    let mut i: usize = from;
    while i < to
        invariant
            from <= i <= to <= v.len(),
            s@ == v@.subrange(from as int, i as int),
        decreases to - i,
    {
        s.push(v[i]);
        i += 1;
        assert(v@.subrange(from as int, i as int) == v@.subrange(from as int, i - 1).push(
            v@[i - 1],
        ));
    }
    s
}

/// The string whose characters are `v`, in order.
pub fn string_of(v: &Vec<char>) -> (s: String)
    ensures
        s@ == v@,
{
    let s = string_of_range(v, 0, v.len());
    assert(v@.subrange(0, v.len() as int) == v@);
    s
}

/// Whether two character vectors hold the same text.
pub fn same_chars(a: &Vec<char>, b: &Vec<char>) -> (r: bool)
    ensures
        r == (a@ == b@),
{
    if a.len() != b.len() {
        return false;
    }
    let mut i: usize = 0;
    while i < a.len()
        invariant
            a.len() == b.len(),
            0 <= i <= a.len(),
            forall|k: int| 0 <= k < i ==> a@[k] == b@[k],
        decreases a.len() - i,
    {
        if a[i] != b[i] {
            return false;
        }
        i += 1;
    }
    assert(a@ =~= b@);
    true
}

/// Whether two strings hold the same text.
pub fn same_text(a: &str, b: &str) -> (r: bool)
    ensures
        r == (a@ == b@),
{
    let x = chars_of(a);
    let y = chars_of(b);
    same_chars(&x, &y)
}

/// Whether `tag` stands in `s` at position `i`.
pub open spec fn has_prefix_at(s: Seq<char>, i: int, tag: Seq<char>) -> bool {
    &&& 0 <= i
    &&& i + tag.len() <= s.len()
    &&& s.subrange(i, i + tag.len()) == tag
}

/// Tests whether `tag` stands in `s` at position `i`.
pub fn starts_with_at(s: &Vec<char>, i: usize, tag: &Vec<char>) -> (r: bool)
    ensures
        r == has_prefix_at(s@, i as int, tag@),
{
    if i > s.len() || tag.len() > s.len() - i {
        return false;
    }
    let mut k: usize = 0;
    while k < tag.len()
        invariant
            i + tag.len() <= s.len(),
            0 <= k <= tag.len(),
            forall|j: int| 0 <= j < k ==> s@[i + j] == tag@[j],
        decreases tag.len() - k,
    {
        if s[i + k] != tag[k] {
            assert(s@.subrange(i as int, i + tag.len())[k as int] != tag@[k as int]);
            return false;
        }
        k += 1;
    }
    assert(s@.subrange(i as int, i + tag.len()) =~= tag@);
    true
}

/// The first position of `c` in `s`, or `s.len()` where `s` does not hold it.
pub open spec fn first_index_of(s: Seq<char>, c: char) -> int
    decreases s.len(),
{
    if s.len() == 0 {
        0
    } else if s[0] == c {
        0
    } else {
        1 + first_index_of(s.drop_first(), c)
    }
}

/// `first_index_of` is the least position that holds `c`.
pub proof fn lemma_first_index_of(s: Seq<char>, c: char)
    ensures
        0 <= first_index_of(s, c) <= s.len(),
        first_index_of(s, c) < s.len() ==> s[first_index_of(s, c)] == c,
        forall|k: int| 0 <= k < first_index_of(s, c) ==> s[k] != c,
    decreases s.len(),
{
    if s.len() > 0 && s[0] != c {
        lemma_first_index_of(s.drop_first(), c);
        assert forall|k: int| 0 <= k < first_index_of(s, c) implies s[k] != c by {
            if k > 0 {
                assert(s[k] == s.drop_first()[k - 1]);
            }
        }
    }
}

/// A position that holds `c` and has no `c` before it is the first one.
pub proof fn lemma_first_index_is(s: Seq<char>, c: char, i: int)
    requires
        0 <= i <= s.len(),
        i < s.len() ==> s[i] == c,
        forall|k: int| 0 <= k < i ==> s[k] != c,
    ensures
        first_index_of(s, c) == i,
{
    lemma_first_index_of(s, c);
}

/// Finds the first position of `c` in `s[from..]`, counted from `from`.
pub fn find_char(s: &Vec<char>, from: usize, c: char) -> (i: usize)
    requires
        from <= s.len(),
    ensures
        from <= i <= s.len(),
        i - from == first_index_of(s@.subrange(from as int, s.len() as int), c),
{
    let mut i: usize = from;
    while i < s.len() && s[i] != c
        invariant
            from <= i <= s.len(),
            forall|k: int| from <= k < i ==> s@[k] != c,
        decreases s.len() - i,
    {
        i += 1;
    }
    proof {
        lemma_first_index_is(s@.subrange(from as int, s.len() as int), c, i - from);
    }
    i
}

/// What `split_once` returns for the text `s` and the separator `c`: the text
/// before the first `c` and the text after it, or `None` where `s` holds no `c`.
pub open spec fn spec_split_once(s: Seq<char>, c: char) -> Option<(Seq<char>, Seq<char>)> {
    let i = first_index_of(s, c);
    if i < s.len() {
        Some((s.subrange(0, i), s.subrange(i + 1, s.len() as int)))
    } else {
        None
    }
}

/// Splits `string` at the first occurrence of `pattern`, which is left out of
/// both parts.
pub fn split_once(string: &str, pattern: char) -> (r: Option<(&str, &str)>)
    ensures
        match r {
            Some((a, b)) => spec_split_once(string@, pattern) == Some((a@, b@)),
            None => spec_split_once(string@, pattern) is None,
        },
{
    let v = chars_of(string);
    let i = find_char(&v, 0, pattern);
    assert(v@.subrange(0, v.len() as int) == v@);
    if i < v.len() {
        let a = string.substring_char(0, i);
        let b = string.substring_char(i + 1, v.len());
        Some((a, b))
    } else {
        None
    }
}

/// The texts of a list of strings.
pub open spec fn texts(strings: Seq<String>) -> Seq<Seq<char>> {
    strings.map_values(|p: String| p@)
}

/// The pieces of `s` between the occurrences of `c`: one more piece than
/// there are occurrences.
pub open spec fn spec_split(s: Seq<char>, c: char) -> Seq<Seq<char>>
    decreases s.len(),
{
    let i = first_index_of(s, c);
    if 0 <= i < s.len() {
        seq![s.subrange(0, i)] + spec_split(s.subrange(i + 1, s.len() as int), c)
    } else {
        seq![s]
    }
}

/// Splits `s` at every occurrence of `c`.
pub fn split(s: &str, c: char) -> (parts: Vec<String>)
    ensures
        texts(parts@) == spec_split(s@, c),
{
    let v = chars_of(s);
    let mut parts: Vec<String> = Vec::new();
    let mut start: usize = 0;
    assert(v@.subrange(0, v.len() as int) == v@);
    assert(texts(parts@) + spec_split(s@, c) =~= spec_split(s@, c));
    loop
        invariant_except_break
            spec_split(s@, c) == texts(parts@) + spec_split(
                v@.subrange(start as int, v.len() as int),
                c,
            ),
        invariant
            v@ == s@,
            0 <= start <= v.len(),
        ensures
            texts(parts@) == spec_split(s@, c),
        decreases v.len() - start,
    {
        let ghost rest = v@.subrange(start as int, v.len() as int);
        let ghost before = parts@;
        let i = find_char(&v, start, c);
        proof {
            lemma_first_index_of(rest, c);
        }
        if i < v.len() {
            let piece = string_of_range(&v, start, i);
            parts.push(piece);
            proof {
                assert(rest.subrange(0, i - start) == v@.subrange(start as int, i as int));
                assert(rest.subrange(i - start + 1, rest.len() as int) == v@.subrange(
                    i + 1,
                    v.len() as int,
                ));
                assert(texts(parts@) =~= texts(before) + seq![piece@]);
                assert(texts(before) + (seq![piece@] + spec_split(
                    v@.subrange(i + 1, v.len() as int),
                    c,
                )) =~= texts(parts@) + spec_split(v@.subrange(i + 1, v.len() as int), c));
            }
            start = i + 1;
        } else {
            let piece = string_of_range(&v, start, v.len());
            parts.push(piece);
            proof {
                assert(texts(parts@) =~= texts(before) + seq![piece@]);
            }
            break ;
        }
    }
    parts
}

/// White space as `char::is_whitespace` knows it.
pub open spec fn is_whitespace(c: char) -> bool {
    ||| ('\u{9}' <= c && c <= '\u{d}')
    ||| c == ' '
    ||| c == '\u{85}'
    ||| c == '\u{a0}'
    ||| c == '\u{1680}'
    ||| ('\u{2000}' <= c && c <= '\u{200a}')
    ||| c == '\u{2028}'
    ||| c == '\u{2029}'
    ||| c == '\u{202f}'
    ||| c == '\u{205f}'
    ||| c == '\u{3000}'
}

fn check_whitespace(c: char) -> (r: bool)
    ensures
        r == is_whitespace(c),
{
    (c >= '\u{9}' && c <= '\u{d}') || c == ' ' || c == '\u{85}' || c == '\u{a0}' || c
        == '\u{1680}' || (c >= '\u{2000}' && c <= '\u{200a}') || c == '\u{2028}' || c
        == '\u{2029}' || c == '\u{202f}' || c == '\u{205f}' || c == '\u{3000}'
}

/// Where the text of `s` starts once leading white space is left out.
pub open spec fn trim_start_at(s: Seq<char>) -> int
    decreases s.len(),
{
    if s.len() > 0 && is_whitespace(s[0]) {
        1 + trim_start_at(s.drop_first())
    } else {
        0
    }
}

/// Where the text of `s` ends once trailing white space is left out.
pub open spec fn trim_end_at(s: Seq<char>) -> int
    decreases s.len(),
{
    if s.len() > 0 && is_whitespace(s.last()) {
        trim_end_at(s.drop_last())
    } else {
        s.len() as int
    }
}

/// `s` without the white space at its start and at its end.
pub open spec fn spec_trim(s: Seq<char>) -> Seq<char> {
    let from = trim_start_at(s);
    let rest = s.subrange(from, s.len() as int);
    rest.subrange(0, trim_end_at(rest))
}

/// Removes the white space at the start and at the end of `v`.
pub fn trim(v: &Vec<char>) -> (r: Vec<char>)
    ensures
        r@ == spec_trim(v@),
{
    let mut from: usize = 0;
    assert(v@.subrange(0, v.len() as int) == v@);
    while from < v.len() && check_whitespace(v[from])
        invariant
            0 <= from <= v.len(),
            trim_start_at(v@) == from + trim_start_at(v@.subrange(from as int, v.len() as int)),
        decreases v.len() - from,
    {
        assert(v@.subrange(from as int, v.len() as int).drop_first() == v@.subrange(
            from + 1,
            v.len() as int,
        ));
        from += 1;
    }
    let ghost rest = v@.subrange(from as int, v.len() as int);
    let mut to: usize = v.len();
    while to > from && check_whitespace(v[to - 1])
        invariant
            from <= to <= v.len(),
            rest == v@.subrange(from as int, v.len() as int),
            trim_end_at(rest) == trim_end_at(v@.subrange(from as int, to as int)),
        decreases to - from,
    {
        assert(v@.subrange(from as int, to as int).drop_last() == v@.subrange(
            from as int,
            to - 1,
        ));
        to -= 1;
    }
    let mut r: Vec<char> = Vec::new();
    let mut i: usize = from;
    while i < to
        invariant
            from <= i <= to <= v.len(),
            r@ == v@.subrange(from as int, i as int),
        decreases to - i,
    {
        r.push(v[i]);
        i += 1;
        assert(v@.subrange(from as int, i as int) == v@.subrange(from as int, i - 1).push(
            v@[i - 1],
        ));
    }
    assert(rest.subrange(0, to - from) == v@.subrange(from as int, to as int));
    r
}

/// The character of a decimal digit.
pub open spec fn digit_char(d: int) -> char {
    (d + '0' as int) as char
}

/// The decimal notation of `n`.
pub open spec fn spec_decimal(n: nat) -> Seq<char>
    decreases n,
{
    if n < 10 {
        seq![digit_char(n as int)]
    } else {
        spec_decimal(n / 10).push(digit_char((n % 10) as int))
    }
}

/// Writes `n` in decimal notation.
pub fn decimal(n: u64) -> (r: String)
    ensures
        r@ == spec_decimal(n as nat),
{
    let mut digits: Vec<char> = Vec::new();
    let mut rest: u64 = n;
    assert(spec_decimal(n as nat) + digits@ =~= spec_decimal(n as nat));
    while rest >= 10
        invariant
            spec_decimal(n as nat) == spec_decimal(rest as nat) + digits@,
        decreases rest,
    {
        let d = (rest % 10) as u8;
        let c = (d + 48) as char;
        let ghost before = digits@;
        digits.insert(0, c);
        assert(c == digit_char((rest % 10) as int));
        assert(digits@ =~= seq![c] + before);
        assert(spec_decimal((rest / 10) as nat).push(c) + before =~= spec_decimal(
            (rest / 10) as nat,
        ) + digits@);
        rest = rest / 10;
    }
    let c = ((rest as u8) + 48) as char;
    let ghost before = digits@;
    digits.insert(0, c);
    assert(c == digit_char(rest as int));
    assert(digits@ =~= seq![c] + before);
    string_of(&digits)
}

/// Whether `c` is a decimal digit.
pub open spec fn is_digit(c: char) -> bool {
    '0' <= c && c <= '9'
}

/// Whether `s` holds decimal digits only.
pub open spec fn all_digits(s: Seq<char>) -> bool {
    forall|i: int| 0 <= i < s.len() ==> is_digit(#[trigger] s[i])
}

/// The number that the digits `s` stand for.
pub open spec fn decimal_value(s: Seq<char>) -> int
    decreases s.len(),
{
    if s.len() == 0 {
        0
    } else {
        decimal_value(s.drop_last()) * 10 + (s.last() as int - '0' as int)
    }
}

/// What a text stands for as a signed 64-bit number: an optional sign, then
/// one digit or more, the whole within the range of the type.
pub open spec fn spec_parse_i64(s: Seq<char>) -> Option<i64> {
    let signed = s.len() > 0 && (s[0] == '-' || s[0] == '+');
    let body = if signed {
        s.subrange(1, s.len() as int)
    } else {
        s
    };
    if body.len() == 0 || !all_digits(body) {
        None
    } else {
        let v = if s[0] == '-' {
            -decimal_value(body)
        } else {
            decimal_value(body)
        };
        if i64::MIN <= v <= i64::MAX {
            Some(v as i64)
        } else {
            None
        }
    }
}

/// The digits read so far never stand for more than all of them.
proof fn lemma_decimal_value_grows(s: Seq<char>, k: int)
    requires
        all_digits(s),
        0 <= k <= s.len(),
    ensures
        0 <= decimal_value(s.subrange(0, k)) <= decimal_value(s),
    decreases s.len() - k,
{
    if k == s.len() {
        assert(s.subrange(0, k) == s);
        lemma_decimal_value_positive(s);
    } else {
        lemma_decimal_value_grows(s, k + 1);
        assert(s.subrange(0, k + 1).drop_last() == s.subrange(0, k));
        lemma_decimal_value_positive(s.subrange(0, k));
        assert(is_digit(s[k]));
    }
}

proof fn lemma_decimal_value_positive(s: Seq<char>)
    requires
        all_digits(s),
    ensures
        decimal_value(s) >= 0,
    decreases s.len(),
{
    if s.len() > 0 {
        assert(is_digit(s[s.len() - 1]));
        lemma_decimal_value_positive(s.drop_last());
    }
}

/// Reads a signed 64-bit number in decimal notation.
pub fn parse_i64(text: &str) -> (r: Option<i64>)
    ensures
        r == spec_parse_i64(text@),
{
    let v = chars_of(text);
    let signed = v.len() > 0 && (v[0] == '-' || v[0] == '+');
    let negative = v.len() > 0 && v[0] == '-';
    let start: usize = if signed {
        1
    } else {
        0
    };
    let ghost body = v@.subrange(start as int, v.len() as int);
    assert(!signed ==> body == v@);
    if start == v.len() {
        return None;
    }
    let mut acc: u128 = 0;
    let mut i: usize = start;
    assert(body.subrange(0, 0) =~= Seq::<char>::empty());
    while i < v.len()
        invariant
            v@ == text@,
            signed == (v.len() > 0 && (v@[0] == '-' || v@[0] == '+')),
            start == (if signed {
                1usize
            } else {
                0usize
            }),
            start < v.len(),
            start <= i <= v.len(),
            body == v@.subrange(start as int, v.len() as int),
            !signed ==> body == v@,
            all_digits(body.subrange(0, i - start)),
            acc == decimal_value(body.subrange(0, i - start)),
            acc <= 0x8000_0000_0000_0000,
        decreases v.len() - i,
    {
        let c = v[i];
        assert(body[i - start] == c);
        if !(c >= '0' && c <= '9') {
            assert(!is_digit(body[i - start]));
            return None;
        }
        assert(body.subrange(0, i + 1 - start).drop_last() == body.subrange(0, i - start));
        acc = acc * 10 + ((c as u128) - ('0' as u128));
        i += 1;
        if acc > 0x8000_0000_0000_0000 {
            proof {
                if all_digits(body) {
                    lemma_decimal_value_grows(body, i - start);
                }
            }
            return None;
        }
    }
    assert(body.subrange(0, v.len() - start) == body);
    if negative {
        if acc == 0x8000_0000_0000_0000 {
            Some(i64::MIN)
        } else {
            Some(-(acc as i64))
        }
    } else {
        if acc == 0x8000_0000_0000_0000 {
            None
        } else {
            Some(acc as i64)
        }
    }
}

} // verus!

//! The compact repository specification `<index>::<name>`.

use vstd::prelude::*;
use vstd::string::*;
use crate::error::MlcError;

verus! {

/// A decimal digit.
pub open spec fn is_digit(c: char) -> bool {
    '0' <= c && c <= '9'
}

/// The value of a run of decimal digits, most significant first.
pub open spec fn digits_value(t: Seq<char>) -> nat
    decreases t.len(),
{
    if t.len() == 0 {
        0
    } else {
        digits_value(t.drop_last()) * 10 + ((t.last() as int - '0' as int) as nat)
    }
}

/// The digits of an index field: one leading `+` is allowed before them.
pub open spec fn index_digits(t: Seq<char>) -> Seq<char> {
    if t.len() > 0 && t[0] == '+' {
        t.skip(1)
    } else {
        t
    }
}

/// An index field reads as a positive integer that fits in a `usize`.
pub open spec fn valid_index_text(t: Seq<char>) -> bool {
    let d = index_digits(t);
    &&& d.len() > 0
    &&& forall|i: int| 0 <= i < d.len() ==> is_digit(#[trigger] d[i])
    &&& 1 <= digits_value(d) <= usize::MAX
}

/// Whether `s` holds the separator `::` anywhere.
pub open spec fn has_separator(s: Seq<char>) -> bool {
    exists|j: int| 0 <= j && j + 1 < s.len() && #[trigger] s[j] == ':' && s[j + 1] == ':'
}

/// Position of the first `:` of `s`, or its length where there is none.
pub open spec fn first_colon(s: Seq<char>) -> int
    decreases s.len(),
{
    if s.len() == 0 {
        0
    } else if s[0] == ':' {
        0
    } else {
        1 + first_colon(s.skip(1))
    }
}

/// What a specification reads as: its index and its raw name, or nothing
/// where splitting it at `::` does not give exactly two fields whose first
/// is a positive integer. An index field holds no `:`, so the split falls on
/// the first colon.
pub open spec fn parse_model(s: Seq<char>) -> Option<(nat, Seq<char>)> {
    let p = first_colon(s);
    if p + 1 < s.len() && s[p + 1] == ':' && valid_index_text(s.take(p)) && !has_separator(
        s.skip(p + 2),
    ) {
        Some((digits_value(index_digits(s.take(p))), s.skip(p + 2)))
    } else {
        None
    }
}

/// The index that a well-formed specification gives.
pub open spec fn written_index(s: Seq<char>) -> nat {
    (parse_model(s)->0).0
}

/// The raw name that a well-formed specification gives.
pub open spec fn written_name(s: Seq<char>) -> Seq<char> {
    (parse_model(s)->0).1
}

/// A specification split into its index and its raw name.
#[derive(Debug, PartialEq, Eq)]
pub struct SplitSpec {
    /// 1-based position of the URL template.
    pub index: usize,
    /// The name as written, markers included.
    pub name: String,
}

proof fn lemma_first_colon(s: Seq<char>, p: int)
    requires
        0 <= p <= s.len(),
        forall|j: int| 0 <= j < p ==> s[j] != ':',
        p == s.len() || s[p] == ':',
    ensures
        first_colon(s) == p,
    decreases p,
{
    if p > 0 {
        lemma_first_colon(s.skip(1), p - 1);
    }
}

proof fn lemma_digits_prefix(t: Seq<char>, k: int)
    requires
        0 <= k <= t.len(),
        forall|i: int| 0 <= i < t.len() ==> is_digit(#[trigger] t[i]),
    ensures
        digits_value(t.take(k)) <= digits_value(t),
    decreases t.len() - k,
{
    if k < t.len() {
        let u = t.drop_last();
        assert(u.take(k) =~= t.take(k));
        lemma_digits_prefix(u, k);
    } else {
        assert(t.take(k) =~= t);
    }
}

/// Reads the index field `s[from..to]`.
fn parse_index(s: &str, from: usize, to: usize) -> (r: Option<usize>)
    requires
        from <= to <= s@.len(),
    ensures
        r is Some <==> valid_index_text(s@.subrange(from as int, to as int)),
        r matches Some(v) ==> v == digits_value(index_digits(s@.subrange(from as int, to as int))),
{
    let ghost t = s@.subrange(from as int, to as int);
    let mut start = from;
    if from < to && s.get_char(from) == '+' {
        start = from + 1;
    }
    let ghost d = index_digits(t);
    assert(d =~= s@.subrange(start as int, to as int));
    if start == to {
        return None;
    }
    let mut v: usize = 0;
    let mut i: usize = start;
    while i < to
        invariant
            from <= start <= i <= to <= s@.len(),
            d == s@.subrange(start as int, to as int),
            t == s@.subrange(from as int, to as int),
            d == index_digits(t),
            forall|j: int| 0 <= j < i - start ==> is_digit(#[trigger] d[j]),
            v == digits_value(d.take(i - start)),
        decreases to - i,
    {
        let c = s.get_char(i);
        if c < '0' || c > '9' {
            assert(!is_digit(d[i - start]));
            return None;
        }
        let digit = (c as u32 - '0' as u32) as usize;
        assert(d.take(i - start + 1).drop_last() =~= d.take(i - start));
        assert(d.take(i - start + 1).last() == c);
        if v > (usize::MAX - digit) / 10 {
            proof {
                assert(digits_value(d.take(i - start + 1)) > usize::MAX) by (nonlinear_arith)
                    requires
                        v > (usize::MAX - digit) / 10,
                        digits_value(d.take(i - start + 1)) == v * 10 + digit,
                        digit <= 9,
                ;
                if valid_index_text(t) {
                    lemma_digits_prefix(d, i - start + 1);
                }
            }
            return None;
        }
        assert(v * 10 + digit <= usize::MAX) by (nonlinear_arith)
            requires
                v <= (usize::MAX - digit) / 10,
                digit <= 9,
        ;
        v = v * 10 + digit;
        i = i + 1;
    }
    assert(d.take(to - start) =~= d);
    if v == 0 {
        None
    } else {
        Some(v)
    }
}

/// Splits a specification into its index and raw name.
pub fn parse_spec(spec: &str) -> (r: Result<SplitSpec, MlcError>)
    ensures
        match r {
            Ok(sp) => parse_model(spec@) == Some((sp.index as nat, sp.name@)),
            Err(e) => parse_model(spec@) is None && e == MlcError::MalformedSpec,
        },
{
    let n = spec.unicode_len();
    let mut p: usize = 0;
    while p < n && spec.get_char(p) != ':'
        invariant
            n == spec@.len(),
            p <= n,
            forall|j: int| 0 <= j < p ==> spec@[j] != ':',
        decreases n - p,
    {
        p = p + 1;
    }
    proof {
        lemma_first_colon(spec@, p as int);
    }
    if n - p < 2 || spec.get_char(p + 1) != ':' {
        return Err(MlcError::MalformedSpec);
    }
    let index = parse_index(spec, 0, p);
    assert(spec@.subrange(0, p as int) =~= spec@.take(p as int));
    let index = match index {
        Some(v) => v,
        None => {
            return Err(MlcError::MalformedSpec);
        },
    };
    let ghost rest = spec@.skip(p + 2);
    let mut j: usize = p + 2;
    while n - j >= 2
        invariant
            n == spec@.len(),
            p + 2 <= j <= n,
            rest == spec@.skip(p + 2),
            first_colon(spec@) == p,
            spec@[p + 1] == ':',
            valid_index_text(spec@.take(p as int)),
            index == digits_value(index_digits(spec@.take(p as int))),
            forall|k: int|
                0 <= k < j - (p + 2) ==> !(#[trigger] rest[k] == ':' && rest[k + 1] == ':'),
        decreases n - j,
    {
        if spec.get_char(j) == ':' && spec.get_char(j + 1) == ':' {
            assert(rest[j - (p + 2)] == ':' && rest[j - (p + 2) + 1] == ':');
            assert(has_separator(rest));

            return Err(MlcError::MalformedSpec);
        }
        j = j + 1;
    }
    assert(!has_separator(rest)) by {
        assert forall|k: int| 0 <= k && k + 1 < rest.len() implies !(#[trigger] rest[k] == ':'
            && rest[k + 1] == ':') by {
            assert(k < j - (p + 2));
        }
    }
    let name = spec.substring_char(p + 2, n).to_owned();
    assert(name@ =~= rest);
    Ok(SplitSpec { index, name })
}

} // verus!

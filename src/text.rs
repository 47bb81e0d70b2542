//! Character-level operations on repository names and URL templates.

use vstd::prelude::*;
use vstd::string::*;

verus! {

/// The marker character that raises a repository's priority.
pub open spec fn is_bang(c: char) -> bool {
    c == '!'
}

/// A name with every marker character taken out, the rest kept in order.
pub open spec fn strip_bangs(s: Seq<char>) -> Seq<char> {
    s.filter(|c: char| !is_bang(c))
}

/// How many marker characters a name holds, wherever they stand.
pub open spec fn count_bangs(s: Seq<char>) -> nat {
    s.filter(|c: char| is_bang(c)).len()
}

/// The token in a URL template that stands for a repository name.
pub open spec fn placeholder() -> Seq<char> {
    seq!['%', 'r', 'e', 'p', 'o', '%']
}

/// `t` with every occurrence of the placeholder, scanned left to right
/// without overlap, replaced by `name`.
pub open spec fn fill_template(t: Seq<char>, name: Seq<char>) -> Seq<char>
    decreases t.len(),
{
    if t.len() < placeholder().len() {
        t
    } else if t.take(placeholder().len() as int) == placeholder() {
        name + fill_template(t.skip(placeholder().len() as int), name)
    } else {
        seq![t[0]] + fill_template(t.skip(1), name)
    }
}

/// Removes every `!` from `s`.
pub fn remove_bangs(s: &str) -> (r: String)
    ensures
        r@ == strip_bangs(s@),
{
    let n = s.unicode_len();
    let mut out = String::new();
    let mut i: usize = 0;
    while i < n
        invariant
            n == s@.len(),
            i <= n,
            out@ == strip_bangs(s@.take(i as int)),
        decreases n - i,
    {
        let c = s.get_char(i);
        assert(s@.take(i + 1).drop_last() =~= s@.take(i as int));
        assert(s@.take(i + 1).last() == c);
        proof {
            reveal(Seq::filter);
        }
        if c != '!' {
            let piece = s.substring_char(i, i + 1);
            assert(piece@ =~= seq![c]);
            out.append(piece);
        }
        assert(strip_bangs(s@.take(i + 1)) =~= out@);
        i = i + 1;
    }
    assert(s@.take(n as int) =~= s@);
    out
}

/// Counts the `!` characters of `s`.
pub fn count_bang_chars(s: &str) -> (r: usize)
    ensures
        r == count_bangs(s@),
{
    let n = s.unicode_len();
    let mut k: usize = 0;
    let mut i: usize = 0;
    while i < n
        invariant
            n == s@.len(),
            i <= n,
            k == count_bangs(s@.take(i as int)),
            k <= i,
        decreases n - i,
    {
        let c = s.get_char(i);
        assert(s@.take(i + 1).drop_last() =~= s@.take(i as int));
        assert(s@.take(i + 1).last() == c);
        proof {
            reveal(Seq::filter);
        }
        if c == '!' {
            k = k + 1;
        }
        assert(k == count_bangs(s@.take(i + 1)));
        i = i + 1;
    }
    assert(s@.take(n as int) =~= s@);
    k
}

/// Whether the placeholder starts at character `i` of `t`.
fn placeholder_at(t: &str, i: usize) -> (r: bool)
    requires
        i + placeholder().len() <= t@.len() <= usize::MAX,
    ensures
        r == (t@.subrange(i as int, i + placeholder().len()) == placeholder()),
{
    let r = t.get_char(i) == '%' && t.get_char(i + 1) == 'r' && t.get_char(i + 2) == 'e'
        && t.get_char(i + 3) == 'p' && t.get_char(i + 4) == 'o' && t.get_char(i + 5) == '%';
    assert(r == (t@.subrange(i as int, i + 6) =~= placeholder()));
    r
}

/// Replaces each placeholder in `template` by `name`.
pub fn fill_placeholder(template: &str, name: &str) -> (r: String)
    ensures
        r@ == fill_template(template@, name@),
{
    let n = template.unicode_len();
    let mut out = String::new();
    let mut i: usize = 0;
    assert(template@.skip(0) =~= template@);
    assert(out@ + fill_template(template@, name@) =~= fill_template(template@, name@));
    while i < n
        invariant
            n == template@.len(),
            i <= n,
            out@ + fill_template(template@.skip(i as int), name@) == fill_template(template@, name@),
        decreases n - i,
    {
        let ghost rest = template@.skip(i as int);
        if n - i >= 6 && placeholder_at(template, i) {
            assert(rest.take(6) =~= template@.subrange(i as int, i + 6));
            assert(rest.skip(6) =~= template@.skip(i + 6));
            out.append(name);
            assert(out@ + fill_template(template@.skip(i + 6), name@) =~= fill_template(template@, name@));
            i = i + 6;
        } else {
            proof {
                if n - i >= 6 {
                    assert(rest.take(6) =~= template@.subrange(i as int, i + 6));
                }
                assert(rest.skip(1) =~= template@.skip(i + 1));
                if rest.len() < 6 {
                    assert(rest =~= seq![rest[0]] + rest.skip(1));
                }
            }
            out.append(template.substring_char(i, i + 1));
            assert(out@ + fill_template(template@.skip(i + 1), name@) =~= fill_template(template@, name@));
            i = i + 1;
        }
    }
    assert(template@.skip(n as int) =~= Seq::<char>::empty());
    assert(out@ =~= out@ + fill_template(template@.skip(n as int), name@));
    out
}

} // verus!

//! Character-sequence utilities: substring search, leftmost non-overlapping
//! substring replacement, and conversions between `str`/`String` and
//! `Vec<char>`.

use vstd::prelude::*;
use vstd::string::*;

verus! {

/// `pat` occurs in `s` as a contiguous substring starting at index `i`.
pub open spec fn match_at(s: Seq<char>, pat: Seq<char>, i: int) -> bool {
    0 <= i && i + pat.len() <= s.len() && s.subrange(i, i + pat.len()) == pat
}

/// `pat` occurs somewhere in `s` as a contiguous substring.
pub open spec fn contains_sub(s: Seq<char>, pat: Seq<char>) -> bool {
    exists|i: int| match_at(s, pat, i)
}

/// The result of replacing every occurrence of `pat` in `s` by `to`,
/// scanning left to right and never rescanning replaced text: the leftmost,
/// non-overlapping replacement pass.  A pattern of length zero replaces
/// nothing.
pub open spec fn replaced(s: Seq<char>, pat: Seq<char>, to: Seq<char>) -> Seq<char>
    decreases s.len(),
{
    if pat.len() == 0 || s.len() < pat.len() {
        s
    } else if s.subrange(0, pat.len() as int) == pat {
        to + replaced(s.skip(pat.len() as int), pat, to)
    } else {
        seq![s[0]] + replaced(s.skip(1), pat, to)
    }
}

/// Replacement leaves a sequence without any occurrence of the pattern
/// unchanged.
pub proof fn lemma_replaced_absent(s: Seq<char>, pat: Seq<char>, to: Seq<char>)
    requires
        pat.len() > 0,
        !contains_sub(s, pat),
    ensures
        replaced(s, pat, to) == s,
    decreases s.len(),
{
    if s.len() < pat.len() {
    } else if s.subrange(0, pat.len() as int) == pat {
        assert(match_at(s, pat, 0));
        assert(false);
    } else {
        assert(!contains_sub(s.skip(1), pat)) by {
            if contains_sub(s.skip(1), pat) {
                let i = choose|i: int| match_at(s.skip(1), pat, i);
                assert(s.subrange(i + 1, i + 1 + pat.len()) =~= s.skip(1).subrange(
                    i,
                    i + pat.len(),
                ));
                assert(match_at(s, pat, i + 1));
            }
        }
        lemma_replaced_absent(s.skip(1), pat, to);
        assert(seq![s[0]] + s.skip(1) =~= s);
    }
}

/// An occurrence of `outer` contains an occurrence of any contiguous part
/// `inner` of it.
pub proof fn lemma_contains_inner(s: Seq<char>, outer: Seq<char>, inner: Seq<char>, k: int)
    requires
        0 <= k,
        k + inner.len() <= outer.len(),
        outer.subrange(k, k + inner.len()) == inner,
        contains_sub(s, outer),
    ensures
        contains_sub(s, inner),
{
    let i = choose|i: int| match_at(s, outer, i);
    assert(s.subrange(i + k, i + k + inner.len()) =~= inner) by {
        assert forall|j: int| 0 <= j < inner.len() implies s.subrange(
            i + k,
            i + k + inner.len(),
        )[j] == inner[j] by {
            assert(s.subrange(i, i + outer.len())[k + j] == s[i + k + j]);
            assert(outer.subrange(k, k + inner.len())[j] == outer[k + j]);
        }
    }
    assert(match_at(s, inner, i + k));
}

/// Whether `pat` occurs in `s` at position `i`.
fn matches_at(s: &Vec<char>, pat: &Vec<char>, i: usize) -> (r: bool)
    requires
        i + pat@.len() <= s@.len(),
    ensures
        r == (s@.subrange(i as int, i + pat@.len()) == pat@),
{
    let n: usize = s.len();
    let mut j: usize = 0;
    while j < pat.len()
        invariant
            j <= pat@.len(),
            n == s@.len(),
            forall|k: int| 0 <= k < j ==> s@[i + k] == pat@[k],
        decreases pat@.len() - j,
    {
        if s[i + j] != pat[j] {
            assert(s@.subrange(i as int, i + pat@.len())[j as int] != pat@[j as int]);
            return false;
        }
        j = j + 1;
    }
    assert(s@.subrange(i as int, i + pat@.len()) =~= pat@);
    true
}

/// Appends all characters of `x` to `r`.
pub(crate) fn append_chars(r: &mut Vec<char>, x: &Vec<char>)
    ensures
        final(r)@ == old(r)@ + x@,
{
    let mut j: usize = 0;
    while j < x.len()
        invariant
            j <= x@.len(),
            r@ == old(r)@ + x@.take(j as int),
        decreases x@.len() - j,
    {
        r.push(x[j]);
        assert(r@ == old(r)@ + x@.take(j as int + 1));
        j = j + 1;
    }
    assert(old(r)@ + x@.take(x@.len() as int) == old(r)@ + x@);
}

/// Replaces every occurrence of `pat` in `s` by `to`, leftmost first,
/// without rescanning replaced text.
pub(crate) fn replace_all(s: &Vec<char>, pat: &Vec<char>, to: &Vec<char>) -> (r: Vec<char>)
    requires
        pat@.len() > 0,
    ensures
        r@ == replaced(s@, pat@, to@),
{
    let mut r: Vec<char> = Vec::new();
    let mut i: usize = 0;
    proof {
        assert(s@.skip(0) =~= s@);
        assert(Seq::<char>::empty() + replaced(s@, pat@, to@) =~= replaced(s@, pat@, to@));
    }
    while i < s.len()
        invariant
            i <= s@.len(),
            replaced(s@, pat@, to@) == r@ + replaced(s@.skip(i as int), pat@, to@),
        decreases s@.len() - i,
    {
        if pat.len() <= s.len() - i && matches_at(s, pat, i) {
            proof {
                assert(s@.skip(i as int).subrange(0, pat@.len() as int) =~= s@.subrange(
                    i as int,
                    i + pat@.len(),
                ));
                assert(s@.skip(i as int).skip(pat@.len() as int) =~= s@.skip(i + pat@.len()));
                assert(replaced(s@.skip(i as int), pat@, to@) == to@ + replaced(
                    s@.skip(i + pat@.len()),
                    pat@,
                    to@,
                ));
                assert((r@ + to@) + replaced(s@.skip(i + pat@.len()), pat@, to@) =~= r@ + (to@
                    + replaced(s@.skip(i + pat@.len()), pat@, to@)));
            }
            append_chars(&mut r, to);
            i = i + pat.len();
        } else {
            proof {
                if s@.len() - i >= pat@.len() {
                    assert(s@.skip(i as int).subrange(0, pat@.len() as int) =~= s@.subrange(
                        i as int,
                        i + pat@.len(),
                    ));
                }
                assert(s@.skip(i as int).skip(1) =~= s@.skip(i as int + 1));
                assert(s@.skip(i as int) =~= seq![s@[i as int]] + s@.skip(i as int + 1));
                assert(replaced(s@.skip(i as int), pat@, to@) == seq![s@[i as int]] + replaced(
                    s@.skip(i as int + 1),
                    pat@,
                    to@,
                ));
                assert((r@ + seq![s@[i as int]]) + replaced(s@.skip(i as int + 1), pat@, to@)
                    =~= r@ + (seq![s@[i as int]] + replaced(s@.skip(i as int + 1), pat@, to@)));
            }
            r.push(s[i]);
            i = i + 1;
        }
    }
    proof {
        assert(s@.skip(s@.len() as int) =~= Seq::<char>::empty());
        assert(r@ + Seq::<char>::empty() =~= r@);
    }
    r
}

/// A copy of the characters of `v` from position `i` up to position `j`.
pub(crate) fn subvec(v: &Vec<char>, i: usize, j: usize) -> (r: Vec<char>)
    requires
        i <= j <= v@.len(),
    ensures
        r@ == v@.subrange(i as int, j as int),
{
    let mut r: Vec<char> = Vec::new();
    let mut k: usize = i;
    proof {
        assert(v@.subrange(i as int, i as int) =~= Seq::<char>::empty());
    }
    while k < j
        invariant
            i <= k <= j,
            r@ == v@.subrange(i as int, k as int),
        decreases j - k,
    {
        r.push(v[k]);
        assert(r@ == v@.subrange(i as int, k as int + 1));
        k = k + 1;
    }
    r
}

/// The characters of `s`, in order, as a vector.
pub fn chars_of(s: &str) -> (r: Vec<char>)
    ensures
        r@ == s@,
{
    let n: usize = s.unicode_len();
    let mut r: Vec<char> = Vec::new();
    let mut i: usize = 0;
    while i < n
        invariant
            i <= n,
            n == s@.len(),
            r@ == s@.take(i as int),
        decreases n - i,
    {
        let c = s.get_char(i);
        r.push(c);
        assert(r@ == s@.take(i as int + 1));
        i = i + 1;
    }
    assert(s@.take(n as int) == s@);
    r
}

/// Relies on String::push: it appends the given character to the end of the
/// string.
#[verifier::external_body]
fn push_char(s: &mut String, c: char)
    ensures
        final(s)@ == old(s)@.push(c),
{
    s.push(c);
}

/// The string holding exactly the characters of `v`, in order.
pub fn string_of(v: &Vec<char>) -> (r: String)
    ensures
        r@ == v@,
{
    let mut r = String::new();
    let mut i: usize = 0;
    while i < v.len()
        invariant
            i <= v@.len(),
            r@ == v@.take(i as int),
        decreases v@.len() - i,
    {
        push_char(&mut r, v[i]);
        assert(v@.take(i as int).push(v@[i as int]) == v@.take(i as int + 1));
        i = i + 1;
    }
    assert(v@.take(v@.len() as int) == v@);
    r
}

} // verus!

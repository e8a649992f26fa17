//! Scanning helpers: locating a delimiter character in a character sequence
//! and splitting a sequence on a separator.

use vstd::prelude::*;

verus! {

/// Index of the first occurrence of `c` in `s` at or after position `i`,
/// or `s.len()` when there is none.
pub open spec fn find_from(s: Seq<char>, c: char, i: int) -> int
    decreases s.len() - i,
{
    if i < 0 || i >= s.len() {
        s.len() as int
    } else if s[i] == c {
        i
    } else {
        find_from(s, c, i + 1)
    }
}

/// `find_from` stays within bounds, lands on `c` when it finds one, and
/// skips no earlier occurrence.
pub proof fn lemma_find_from(s: Seq<char>, c: char, i: int)
    requires
        0 <= i <= s.len(),
    ensures
        i <= find_from(s, c, i) <= s.len(),
        find_from(s, c, i) < s.len() ==> s[find_from(s, c, i)] == c,
        forall|j: int| i <= j < find_from(s, c, i) ==> s[j] != c,
    decreases s.len() - i,
{
    if i < s.len() && s[i] != c {
        lemma_find_from(s, c, i + 1);
    }
}

/// A sequence free of `c` is searched to its end.
pub proof fn lemma_find_from_absent(s: Seq<char>, c: char, i: int)
    requires
        0 <= i <= s.len(),
        forall|j: int| i <= j < s.len() ==> s[j] != c,
    ensures
        find_from(s, c, i) == s.len(),
    decreases s.len() - i,
{
    if i < s.len() {
        lemma_find_from_absent(s, c, i + 1);
    }
}

/// The first occurrence of `c` at or after `i` is exactly `k` when `s[k]`
/// is `c` and nothing in between is.
pub proof fn lemma_find_from_at(s: Seq<char>, c: char, i: int, k: int)
    requires
        0 <= i <= k < s.len(),
        s[k] == c,
        forall|j: int| i <= j < k ==> s[j] != c,
    ensures
        find_from(s, c, i) == k,
    decreases k - i,
{
    if i < k {
        lemma_find_from_at(s, c, i + 1, k);
    }
}

/// Linear search for `c` in `s`, starting at `from`.
pub fn find_char(s: &[char], c: char, from: usize) -> (k: usize)
    requires
        from <= s@.len(),
    ensures
        k == find_from(s@, c, from as int),
        from <= k <= s@.len(),
        k < s@.len() ==> s@[k as int] == c,
{
    proof {
        lemma_find_from(s@, c, from as int);
    }
    let n = s.len();
    let mut i = from;
    while i < n
        invariant
            from <= i <= n,
            n == s@.len(),
            find_from(s@, c, from as int) == find_from(s@, c, i as int),
        decreases n - i,
    {
        if s[i] == c {
            return i;
        }
        i = i + 1;
    }
    i
}

/// The pieces of `s` between occurrences of the separator `c`; `n`
/// occurrences give `n + 1` pieces, so the result is never empty.
pub open spec fn split_on(s: Seq<char>, c: char) -> Seq<Seq<char>>
    decreases s.len(),
    via split_on_decreases
{
    let k = find_from(s, c, 0);
    if k == s.len() {
        seq![s]
    } else {
        seq![s.subrange(0, k)] + split_on(s.subrange(k + 1, s.len() as int), c)
    }
}

#[via_fn]
proof fn split_on_decreases(s: Seq<char>, c: char) {
    lemma_find_from(s, c, 0);
}

/// Splits `s` on the separator `c`, materializing each piece.
pub fn split_tokens(s: &[char], c: char) -> (toks: Vec<Vec<char>>)
    ensures
        toks.deep_view() == split_on(s@, c),
{
    let mut toks: Vec<Vec<char>> = Vec::new();
    let mut p: usize = 0;
    proof {
        assert(s@.subrange(0, s@.len() as int) =~= s@);
        assert(toks.deep_view() + split_on(s@, c) =~~= split_on(s@, c));
    }
    loop
        invariant_except_break
            p <= s@.len(),
            split_on(s@, c) == toks.deep_view() + split_on(s@.subrange(p as int, s@.len() as int), c),
        ensures
            toks.deep_view() == split_on(s@, c),
        decreases s@.len() - p,
    {
        let rem = vstd::slice::slice_subrange(s, p, s.len());
        let k = find_char(rem, c, 0);
        let piece = vstd::slice::slice_to_vec(vstd::slice::slice_subrange(rem, 0, k));
        let ghost old_toks = toks.deep_view();
        toks.push(piece);
        proof {
            assert(toks.deep_view() =~~= old_toks + seq![rem@.subrange(0, k as int)]);
        }
        if k == rem.len() {
            proof {
                assert(rem@.subrange(0, k as int) =~= rem@);
                assert(toks.deep_view() =~~= split_on(s@, c));
            }
            break;
        }
        proof {
            assert(rem@.subrange(k + 1, rem@.len() as int)
                =~= s@.subrange(p + k + 1, s@.len() as int));
            assert(toks.deep_view() + split_on(s@.subrange(p + k + 1, s@.len() as int), c)
                =~~= old_toks + split_on(s@.subrange(p as int, s@.len() as int), c));
        }
        p = p + k + 1;
    }
    toks
}

} // verus!

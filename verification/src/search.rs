use vstd::prelude::*;
use vstd::slice::{slice_subrange, slice_to_vec};

verus! {

/// The pattern `pat` occurs in `s` starting exactly at index `i`.
pub open spec fn is_match_at(s: Seq<u8>, pat: Seq<u8>, i: int) -> bool {
    &&& 0 <= i
    &&& i + pat.len() <= s.len()
    &&& s.subrange(i, i + pat.len()) == pat
}

/// The least index at or after `pos` at which `pat` occurs in `s`, if any.
pub open spec fn find_at(s: Seq<u8>, pat: Seq<u8>, pos: int) -> Option<int>
    decreases s.len() - pos when 0 <= pos <= s.len()
{
    if is_match_at(s, pat, pos) {
        Some(pos)
    } else if pos >= s.len() {
        None
    } else {
        find_at(s, pat, pos + 1)
    }
}

/// What `find_at` returns: the leftmost occurrence at or after `pos`, or
/// `None` exactly when no occurrence remains.
pub proof fn lemma_find_at(s: Seq<u8>, pat: Seq<u8>, pos: int)
    requires
        0 <= pos <= s.len(),
    ensures
        match find_at(s, pat, pos) {
            Some(i) => {
                &&& pos <= i
                &&& is_match_at(s, pat, i)
                &&& forall|j: int| pos <= j < i ==> !is_match_at(s, pat, j)
            },
            None => forall|j: int| j >= pos ==> !is_match_at(s, pat, j),
        },
    decreases s.len() - pos,
{
    if is_match_at(s, pat, pos) {
    } else if pos >= s.len() {
        if pat.len() == 0 {
            assert(s.subrange(pos, pos) =~= pat);
        }
    } else {
        lemma_find_at(s, pat, pos + 1);
    }
}

/// Occurrences in the suffix `s.skip(pos)` are occurrences in `s`, shifted.
pub proof fn lemma_is_match_at_shift(s: Seq<u8>, pat: Seq<u8>, pos: int, k: int)
    requires
        0 <= pos <= s.len(),
        0 <= k,
    ensures
        is_match_at(s.skip(pos), pat, k) <==> is_match_at(s, pat, pos + k),
{
    if k + pat.len() <= s.len() - pos {
        assert(s.skip(pos).subrange(k, k + pat.len()) =~= s.subrange(pos + k, pos + k + pat.len()));
    }
}

/// Searching the suffix `s.skip(pos)` finds the same occurrence as
/// searching `s` from `pos`, shifted by `pos`.
pub proof fn lemma_find_at_shift(s: Seq<u8>, pat: Seq<u8>, pos: int, k: int)
    requires
        0 <= pos <= s.len(),
        0 <= k <= s.len() - pos,
    ensures
        find_at(s.skip(pos), pat, k) == match find_at(s, pat, pos + k) {
            Some(i) => Some(i - pos),
            None => None::<int>,
        },
    decreases s.len() - pos - k,
{
    lemma_is_match_at_shift(s, pat, pos, k);
    if is_match_at(s.skip(pos), pat, k) {
    } else if k >= s.len() - pos {
    } else {
        lemma_find_at_shift(s, pat, pos, k + 1);
    }
}

/// Relies on nom's `FindSubstring` implementation for byte slices: it
/// returns the byte offset of the leftmost occurrence of `pat` in
/// `haystack`, or `None` when `pat` does not occur (an empty `pat` is
/// found at offset zero).
#[verifier::external_body]
fn find_substring(haystack: &[u8], pat: &[u8]) -> (r: Option<usize>)
    ensures
        r is Some <==> find_at(haystack@, pat@, 0) is Some,
        r matches Some(i) ==> find_at(haystack@, pat@, 0) == Some(i as int),
{
    nom::FindSubstring::find_substring(&haystack, pat)
}

/// Search `s` for the next occurrence of `pat` at or after position `pos`.
pub fn find_from(s: &[u8], pos: usize, pat: &[u8]) -> (r: Option<usize>)
    requires
        pos <= s@.len(),
    ensures
        r is Some <==> find_at(s@, pat@, pos as int) is Some,
        r matches Some(i) ==> {
            &&& find_at(s@, pat@, pos as int) == Some(i as int)
            &&& pos <= i
            &&& i + pat@.len() <= s@.len()
        },
{
    let rest = slice_subrange(s, pos, s.len());
    proof {
        assert(rest@ =~= s@.skip(pos as int));
        lemma_find_at_shift(s@, pat@, pos as int, 0);
    }
    match find_substring(rest, pat) {
        None => None,
        Some(i) => {
            proof {
                lemma_find_at(s@, pat@, pos as int);
            }
            Some(pos + i)
        }
    }
}

/// Whether `pat` is a prefix of `rest`.
pub fn starts_with(rest: &[u8], pat: &[u8]) -> (r: bool)
    ensures
        r == is_match_at(rest@, pat@, 0),
{
    if pat.len() > rest.len() {
        return false;
    }
    let mut k: usize = 0;
    while k < pat.len()
        invariant
            k <= pat@.len() <= rest@.len(),
            forall|t: int| 0 <= t < k ==> rest@[t] == pat@[t],
        decreases pat@.len() - k,
    {
        if rest[k] != pat[k] {
            proof {
                assert(rest@.subrange(0, pat@.len() as int)[k as int] == rest@[k as int]);
            }
            return false;
        }
        k += 1;
    }
    proof {
        assert(rest@.subrange(0, pat@.len() as int) =~= pat@);
    }
    true
}

/// Copy the elements of `s` between positions `i` and `j` into a fresh
/// vector.
pub fn copy_range(s: &[u8], i: usize, j: usize) -> (v: Vec<u8>)
    requires
        i <= j <= s@.len(),
    ensures
        v@ == s@.subrange(i as int, j as int),
{
    slice_to_vec(slice_subrange(s, i, j))
}

} // verus!

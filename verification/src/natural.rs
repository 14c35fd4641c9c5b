//! The natural ordering of the filler catalog, taken from the lexical-sort
//! crate: lexical comparison that reads runs of ASCII digits as numbers, so
//! that `file2` precedes `file10`.

use vstd::prelude::*;
use crate::media::Media;
use crate::text::chars_vec;

verus! {

/// The "does not come after" relation decided by
/// `lexical_sort::natural_lexical_cmp`: it holds of `(a, b)` exactly when the
/// comparison of `a` and `b` is not `Greater`.  The comparison reads the
/// characters alone, so the relation is a function of them; the library
/// carries its value by name only.
pub uninterp spec fn natural_leq(a: Seq<char>, b: Seq<char>) -> bool;

/// The catalog is in natural order of source paths.
pub open spec fn natural_sorted(s: Seq<Media>) -> bool {
    forall|i: int, j: int| 0 <= i < j < s.len() ==> natural_leq(s[i].source@, s[j].source@)
}

/// Every character is ASCII, so the comparator passes each through
/// unchanged (it transliterates non-ASCII alphanumerics, which can mint
/// digits the text never showed).
pub open spec fn ascii_chars(s: Seq<char>) -> bool {
    forall|i: int| 0 <= i < s.len() ==> ((#[trigger] s[i]) as u32) < 128
}

/// An ASCII decimal digit.
pub open spec fn is_ascii_digit_char(c: char) -> bool {
    48 <= c as u32 <= 57
}

/// The characters at positions `lo..hi` are all ASCII digits.
pub open spec fn all_digits(s: Seq<char>, lo: int, hi: int) -> bool {
    forall|k: int| lo <= k < hi ==> is_ascii_digit_char(#[trigger] s[k])
}

/// No run of 20 or more consecutive ASCII digits: 19 digits always fit the
/// comparator's 64-bit accumulator.
pub open spec fn digit_runs_bounded(s: Seq<char>) -> bool {
    forall|i: int| 0 <= i && i + 20 <= s.len() ==> !(#[trigger] all_digits(s, i, i + 20))
}

/// A source the natural comparator is known not to abort on: ASCII text
/// whose digit runs its 64-bit accumulator can hold.
pub open spec fn natural_sortable(s: Seq<char>) -> bool {
    ascii_chars(s) && digit_runs_bounded(s)
}

/// Relies on `slice::sort_by` driven by `lexical_sort::natural_lexical_cmp`,
/// a total order on strings: the sort reorders the same entries so that no
/// entry compares `Greater` against a later one.  The comparator accumulates
/// aligned digit runs in a `u64` with unchecked arithmetic, so sources are
/// required to be ASCII with digit runs shorter than 20 characters, where
/// the accumulation cannot overflow and the call cannot abort.
#[verifier::external_body]
pub fn natural_sort_media(list: &mut Vec<Media>)
    requires
        forall|i: int|
            0 <= i < old(list)@.len() ==> natural_sortable((#[trigger] old(list)@[i]).source@),
    ensures
        final(list)@.to_multiset() == old(list)@.to_multiset(),
        final(list)@.len() == old(list)@.len(),
        forall|i: int, j: int|
            0 <= i < j < final(list)@.len() ==> natural_leq(
                final(list)@[i].source@,
                final(list)@[j].source@,
            ),
{
    list.as_mut_slice().sort_by(
        |a, b| lexical_sort::natural_lexical_cmp(a.source.as_str(), b.source.as_str()),
    )
}

/// Decides `natural_sortable` for one source string.
pub fn natural_sortable_str(s: &str) -> (r: bool)
    ensures
        r == natural_sortable(s@),
{
    let cs = chars_vec(s);
    let mut run: usize = 0;
    let mut k: usize = 0;
    while k < cs.len()
        invariant
            cs@ == s@,
            k <= cs@.len(),
            run <= k,
            run <= 19,
            forall|i: int| 0 <= i < k ==> ((#[trigger] cs@[i]) as u32) < 128,
            all_digits(cs@, k - run, k as int),
            run < k ==> !is_ascii_digit_char(cs@[k - run - 1]),
            forall|i: int| 0 <= i && i + 20 <= k ==> !(#[trigger] all_digits(cs@, i, i + 20)),
        decreases cs@.len() - k,
    {
        let c = cs[k];
        if (c as u32) >= 128 {
            proof {
                assert(!ascii_chars(s@));
            }
            return false;
        }
        if (c as u32) >= 48 && (c as u32) <= 57 {
            if run == 19 {
                proof {
                    let w = k as int - 19;
                    assert(all_digits(cs@, w, w + 20));
                    assert(!digit_runs_bounded(s@));
                }
                return false;
            }
            run = run + 1;
        } else {
            run = 0;
        }
        k = k + 1;
    }
    true
}

/// Decides `natural_sortable` for every entry of a list of sources.
pub fn natural_sortable_sources(entries: &Vec<String>) -> (r: bool)
    ensures
        r == (forall|i: int|
            0 <= i < entries@.len() ==> natural_sortable((#[trigger] entries@[i])@)),
{
    let mut i: usize = 0;
    while i < entries.len()
        invariant
            i <= entries@.len(),
            forall|j: int| 0 <= j < i ==> natural_sortable((#[trigger] entries@[j])@),
        decreases entries@.len() - i,
    {
        if !natural_sortable_str(entries[i].as_str()) {
            return false;
        }
        i = i + 1;
    }
    true
}

} // verus!

//! Ordering and indexing of catalogs: the lexical sort used by the primary
//! catalog, contiguous index assignment, and the permutation lemmas the
//! regeneration contracts rest on.

use vstd::prelude::*;
use crate::media::Media;
use crate::text::{lex_le, lemma_lex_le_total, lemma_lex_le_trans, lex_le_chars, chars_vec};

verus! {

broadcast use vstd::seq_lib::group_to_multiset_ensures, vstd::multiset::group_multiset_axioms;

/// One entry precedes another when its source path does lexicographically.
pub open spec fn media_le(a: Media, b: Media) -> bool {
    lex_le(a.source@, b.source@)
}

/// The catalog is in lexical order of source paths.
pub open spec fn sorted_by_source(s: Seq<Media>) -> bool {
    forall|i: int, j: int| 0 <= i < j < s.len() ==> media_le(s[i], s[j])
}

/// The first `n` entries are in lexical order of source paths.
spec fn sorted_to(s: Seq<Media>, n: int) -> bool {
    forall|x: int, y: int| 0 <= x < y < n && y < s.len() ==> media_le(s[x], s[y])
}

/// The source paths of a catalog, as character sequences.
pub open spec fn source_views(s: Seq<Media>) -> Seq<Seq<char>> {
    s.map_values(|m: Media| m.source@)
}

/// Every entry carries the slot it occupies: indices are contiguous from 0.
pub open spec fn indexed(s: Seq<Media>) -> bool {
    forall|i: int| 0 <= i < s.len() ==> (#[trigger] s[i]).index == Some(i as usize)
}

/// The same entries with indices reassigned to their positions.
pub open spec fn reindexed(s: Seq<Media>) -> Seq<Media> {
    Seq::new(s.len(), |i: int| (Media { index: Some(i as usize), ..s[i] }))
}

/// Reassigned indices are contiguous and change nothing else.
pub proof fn lemma_reindexed_indexed(s: Seq<Media>)
    ensures
        reindexed(s).len() == s.len(),
        indexed(reindexed(s)),
        forall|i: int| 0 <= i < s.len() ==> (#[trigger] reindexed(s)[i]).source
            == s[i].source && reindexed(s)[i].begin == s[i].begin && reindexed(s)[i].probe
            == s[i].probe && reindexed(s)[i].filter == s[i].filter,
{
}

/// Decides `media_le` on two entries.
pub fn source_le(a: &Media, b: &Media) -> (r: bool)
    ensures
        r == media_le(*a, *b),
{
    let ca = chars_vec(a.source.as_str());
    let cb = chars_vec(b.source.as_str());
    lex_le_chars(&ca, &cb)
}

/// Moving one element of a sequence elsewhere keeps its multiset of elements.
pub proof fn lemma_remove_insert_multiset<A>(s: Seq<A>, i: int, j: int)
    requires
        0 <= i < s.len(),
        0 <= j <= s.len() - 1,
    ensures
        s.remove(i).insert(j, s[i]).to_multiset() == s.to_multiset(),
{
    assert(s.contains(s[i]));
    assert(s.to_multiset().count(s[i]) > 0);
    assert(s.remove(i).insert(j, s[i]).to_multiset() =~= s.to_multiset());
}

/// Sequences with equal multisets still have equal multisets after mapping
/// each element through the same function.
pub proof fn lemma_map_to_multiset<A, B>(s: Seq<A>, t: Seq<A>, f: spec_fn(A) -> B)
    requires
        s.to_multiset() == t.to_multiset(),
    ensures
        s.map_values(f).to_multiset() == t.map_values(f).to_multiset(),
    decreases s.len(),
{
    if s.len() == 0 {
        assert(s.to_multiset().len() == s.len());
        assert(t.to_multiset().len() == t.len());
        assert(t.len() == 0);
        assert(s.map_values(f) =~= Seq::<B>::empty());
        assert(t.map_values(f) =~= Seq::<B>::empty());
        assert(s.map_values(f).to_multiset() =~= t.map_values(f).to_multiset());
    } else {
        let x = s.last();
        let s0 = s.drop_last();
        assert(s =~= s0.push(x));
        assert(s.contains(x));
        assert(s.to_multiset().count(x) > 0);
        assert(t.contains(x));
        let j = choose|j: int| 0 <= j < t.len() && t[j] == x;
        assert(s0.push(x).to_multiset() == s0.to_multiset().insert(x));
        assert(t.remove(j).to_multiset() == t.to_multiset().remove(x));
        assert(s0.to_multiset() =~= t.remove(j).to_multiset());
        lemma_map_to_multiset(s0, t.remove(j), f);
        assert(s.map_values(f) =~= s0.map_values(f).push(f(x)));
        assert(t.remove(j).map_values(f) =~= t.map_values(f).remove(j));
        assert(t.map_values(f)[j] == f(x));
        assert(t.map_values(f).remove(j).to_multiset() == t.map_values(f).to_multiset().remove(
            f(x),
        ));
        assert(t.map_values(f).contains(f(x)));
        assert(t.map_values(f).to_multiset().count(f(x)) > 0);
        assert(s.map_values(f).to_multiset() == s0.map_values(f).to_multiset().insert(f(x)));
        assert(s.map_values(f).to_multiset() =~= t.map_values(f).to_multiset());
    }
}

/// Reassigns contiguous indices `0..n-1` in the current order, leaving every
/// other field of every entry as it was.
pub fn reindex(list: &mut Vec<Media>)
    ensures
        final(list)@ == reindexed(old(list)@),
{
    let n = list.len();
    let mut i: usize = 0;
    while i < n
        invariant
            n == list@.len(),
            n == old(list)@.len(),
            i <= n,
            forall|k: int| 0 <= k < i ==> list@[k] == (Media {
                index: Some(k as usize),
                ..old(list)@[k]
            }),
            forall|k: int| i <= k < n ==> list@[k] == old(list)@[k],
        decreases n - i,
    {
        let mut m = list.remove(i);
        m.index = Some(i);
        list.insert(i, m);
        i = i + 1;
    }
    proof {
        assert(list@ =~= reindexed(old(list)@));
    }
}

proof fn lemma_insertion_step(s: Seq<Media>, i: int, j: int)
    requires
        0 <= j <= i < s.len(),
        sorted_to(s, i),
        j > 0 ==> media_le(s[j - 1], s[i]),
        forall|k: int| j <= k < i ==> media_le(s[i], s[k]),
    ensures
        sorted_to(s.remove(i).insert(j, s[i]), i + 1),
{
    let t = s.remove(i).insert(j, s[i]);
    assert(t.len() == s.len());
    assert forall|k: int| 0 <= k < j implies t[k] == s[k] by {}
    assert(t[j] == s[i]);
    assert forall|k: int| j < k <= i implies t[k] == s[k - 1] by {}
    assert forall|x: int, y: int| 0 <= x < y < i + 1 && y < t.len() implies media_le(
        t[x],
        t[y],
    ) by {
        if y < j {
        } else if x < j && y == j {
            if x < j - 1 {
                assert(media_le(s[x], s[j - 1]));
                assert(media_le(s[j - 1], s[i]));
                lemma_lex_le_trans(s[x].source@, s[j - 1].source@, s[i].source@);
            }
        } else if x < j && y > j {
        } else if x == j {
        } else {
        }
    }
}

/// Sorts the catalog by source path, in place: the result is the same
/// multiset of entries, in lexical order.
pub fn sort_by_source(list: &mut Vec<Media>)
    ensures
        final(list)@.to_multiset() == old(list)@.to_multiset(),
        final(list)@.len() == old(list)@.len(),
        sorted_by_source(final(list)@),
{
    let mut i: usize = 1;
    while i < list.len()
        invariant
            i >= 1,
            list@.to_multiset() == old(list)@.to_multiset(),
            list@.len() == old(list)@.len(),
            sorted_to(list@, i as int),
        decreases list@.len() - i,
    {
        let mut j: usize = i;
        while j > 0 && !source_le(&list[j - 1], &list[i])
            invariant
                j <= i,
                i < list@.len(),
                forall|k: int| j <= k < i ==> media_le(list@[i as int], list@[k]),
            decreases j,
        {
            proof {
                lemma_lex_le_total(list@[j - 1].source@, list@[i as int].source@);
            }
            j = j - 1;
        }
        let ghost s = list@;
        let m = list.remove(i);
        list.insert(j, m);
        proof {
            lemma_remove_insert_multiset(s, i as int, j as int);
            lemma_insertion_step(s, i as int, j as int);
        }
        i = i + 1;
    }
    proof {
        assert(sorted_by_source(list@));
    }
}

} // verus!

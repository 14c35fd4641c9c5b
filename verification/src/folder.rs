//! The per-channel core: the shared catalog-and-cursor state, the `next`
//! operation that serves entries in a gap-free sequence and regenerates the
//! catalog at wraparound, and the builders for the primary and the filler
//! catalogs.

use vstd::prelude::*;
use rand::rngs::StdRng;
use crate::media::{Media, ChannelConfig, SortPolicy, media_like};
use crate::text::{include_file_extension, ext_allowed, str_views};
use crate::order::{
    indexed, sorted_by_source, source_views, reindexed, reindex, sort_by_source,
    lemma_reindexed_indexed, lemma_map_to_multiset,
};
use crate::entropy::shuffle_media;
use crate::natural::{natural_sort_media, natural_sorted, natural_sortable};
use crate::laws::{next_position, served_slot};

verus! {

broadcast use vstd::seq_lib::group_to_multiset_ensures, vstd::multiset::group_multiset_axioms;

/// No entry has been enriched yet: no start stamp, no probe metadata, no
/// filter descriptor.
pub open spec fn unenriched(s: Seq<Media>) -> bool {
    forall|i: int|
        0 <= i < s.len() ==> (#[trigger] s[i]).begin is None && s[i].probe is None
            && s[i].filter is None
}

/// The source paths that survive the extension filter, in input order.
pub open spec fn kept_views(entries: Seq<String>, exts: Seq<String>) -> Seq<Seq<char>> {
    str_views(entries).filter(|p: Seq<char>| ext_allowed(p, str_views(exts)))
}

/// What one regeneration does: some reordering of the same entries (sorted
/// when the policy asks for it), then contiguous reindexing.  Reordering and
/// reindexing are never observable separately.
pub open spec fn regen_rel(before: Seq<Media>, after: Seq<Media>, policy: SortPolicy) -> bool {
    exists|mid: Seq<Media>|
        #![auto]
        mid.to_multiset() == before.to_multiset() && (policy == SortPolicy::Sorted
            ==> sorted_by_source(mid)) && after == reindexed(mid)
}

/// A witness to `regen_rel`: the reordering that the regeneration reindexed.
pub proof fn regen_rel_witness(before: Seq<Media>, after: Seq<Media>, policy: SortPolicy) -> (mid:
    Seq<Media>)
    requires
        regen_rel(before, after, policy),
    ensures
        mid.to_multiset() == before.to_multiset(),
        policy == SortPolicy::Sorted ==> sorted_by_source(mid),
        after == reindexed(mid),
{
    choose|mid: Seq<Media>|
        #![auto]
        mid.to_multiset() == before.to_multiset() && (policy == SortPolicy::Sorted
            ==> sorted_by_source(mid)) && after == reindexed(mid)
}

/// A permutation of unenriched entries is unenriched.
pub proof fn lemma_unenriched_perm(a: Seq<Media>, b: Seq<Media>)
    requires
        a.to_multiset() == b.to_multiset(),
        unenriched(a),
    ensures
        unenriched(b),
{
    assert forall|i: int|
        0 <= i < b.len() implies (#[trigger] b[i]).begin is None && b[i].probe is None
        && b[i].filter is None by {
        assert(b.contains(b[i]));
        assert(b.to_multiset().count(b[i]) > 0);
        assert(a.contains(b[i]));
        let j = choose|j: int| 0 <= j < a.len() && a[j] == b[i];
        assert(a[j].begin is None);
    }
}

/// Bare entries for the qualifying paths, in input order, all with the
/// provisional slot 0.
fn medias_from_entries(config: &ChannelConfig, entries: Vec<String>) -> (list: Vec<Media>)
    ensures
        source_views(list@) == kept_views(entries@, config.extensions@),
        unenriched(list@),
        forall|i: int|
            0 <= i < list@.len() ==> exists|j: int|
                0 <= j < entries@.len() && (#[trigger] list@[i]).source@ == entries@[j]@,
{
    let ghost pred = |p: Seq<char>| ext_allowed(p, str_views(config.extensions@));
    let mut list: Vec<Media> = Vec::new();
    let mut i: usize = 0;
    proof {
        assert(source_views(list@) =~= Seq::<Seq<char>>::empty());
        assert(str_views(entries@.subrange(0, 0)) =~= Seq::<Seq<char>>::empty());
        assert(kept_views(entries@.subrange(0, 0), config.extensions@) =~= Seq::<
            Seq<char>,
        >::empty());
    }
    while i < entries.len()
        invariant
            i <= entries@.len(),
            pred == (|p: Seq<char>| ext_allowed(p, str_views(config.extensions@))),
            source_views(list@) == kept_views(entries@.subrange(0, i as int), config.extensions@),
            unenriched(list@),
            forall|k: int|
                0 <= k < list@.len() ==> exists|j: int|
                    0 <= j < entries@.len() && (#[trigger] list@[k]).source@ == entries@[j]@,
        decreases entries@.len() - i,
    {
        let ghost prefix = str_views(entries@.subrange(0, i as int));
        let ghost entry_view = entries@[i as int]@;
        proof {
            assert(str_views(entries@.subrange(0, i as int + 1)) =~= prefix.push(entry_view));
            Seq::filter_distributes_over_add(prefix, seq![entry_view], pred);
            assert(prefix.push(entry_view) =~= prefix + seq![entry_view]);
            assert(seq![entry_view].drop_last() =~= Seq::<Seq<char>>::empty());
            reveal_with_fuel(Seq::<_>::filter, 2);
            if pred(entry_view) {
                assert(seq![entry_view].filter(pred) =~= seq![entry_view]);
                assert(prefix.filter(pred) + seq![entry_view] =~= prefix.filter(pred).push(
                    entry_view,
                ));
            } else {
                assert(seq![entry_view].filter(pred) =~= Seq::<Seq<char>>::empty());
                assert(prefix.filter(pred) + Seq::<Seq<char>>::empty() =~= prefix.filter(pred));
            }
        }
        if include_file_extension(config, entries[i].as_str()) {
            let ghost before = list@;
            let m = Media::new(0, entries[i].clone());
            list.push(m);
            proof {
                assert(source_views(list@) =~= source_views(before).push(entry_view));
            }
        }
        i = i + 1;
    }
    proof {
        assert(entries@.subrange(0, entries@.len() as int) =~= entries@);
    }
    list
}

/// Shared per-channel state: the configuration snapshot, the catalog, the
/// cursor, and the channel-scoped randomness source.  One value of this type
/// is the unit of locking: every concurrent caller of `next` must go through
/// one exclusive reference to it.
pub struct FolderSource {
    pub config: ChannelConfig,
    pub catalog: Vec<Media>,
    pub position: usize,
    pub rng: StdRng,
}

impl FolderSource {
    /// The cursor never points past the end of the catalog.
    pub open spec fn wf(self) -> bool {
        self.position <= self.catalog@.len()
    }

    /// Builds the initial catalog from the files found under the channel's
    /// roots: keeps the qualifying paths, orders them by the channel's
    /// policy, assigns contiguous indices, and installs the result with the
    /// cursor at the start.
    pub fn new(config: ChannelConfig, entries: Vec<String>, rng: StdRng) -> (s: Self)
        ensures
            s.wf(),
            s.position == 0,
            s.config == config,
            indexed(s.catalog@),
            unenriched(s.catalog@),
            s.catalog@.len() == kept_views(entries@, config.extensions@).len(),
            exists|mid: Seq<Media>|
                #![auto]
                source_views(mid).to_multiset() == kept_views(
                    entries@,
                    config.extensions@,
                ).to_multiset() && (config.policy == SortPolicy::Sorted ==> sorted_by_source(mid))
                    && s.catalog@ == reindexed(mid),
    {
        let mut list = medias_from_entries(&config, entries);
        let ghost built = list@;
        let mut rng = rng;
        match config.policy {
            SortPolicy::Shuffle => shuffle_media(&mut list, &mut rng),
            SortPolicy::Sorted => sort_by_source(&mut list),
        }
        let ghost mid = list@;
        proof {
            lemma_map_to_multiset(mid, built, |m: Media| m.source@);
            lemma_unenriched_perm(built, mid);
            lemma_reindexed_indexed(mid);
        }
        reindex(&mut list);
        FolderSource { config, catalog: list, position: 0, rng }
    }

    /// Installs a caller-supplied catalog wholesale, cursor at the start.
    pub fn from_list(config: ChannelConfig, list: Vec<Media>, rng: StdRng) -> (s: Self)
        ensures
            s.wf(),
            s.position == 0,
            s.config == config,
            s.catalog@ == list@,
    {
        FolderSource { config, catalog: list, position: 0, rng }
    }

    /// Reorders the catalog with fresh entropy and reassigns contiguous
    /// indices, as one regeneration.
    fn shuffle(&mut self)
        ensures
            final(self).config == old(self).config,
            final(self).position == old(self).position,
            final(self).catalog@.len() == old(self).catalog@.len(),
            regen_rel(old(self).catalog@, final(self).catalog@, SortPolicy::Shuffle),
            indexed(final(self).catalog@),
            unenriched(old(self).catalog@) ==> unenriched(final(self).catalog@),
    {
        shuffle_media(&mut self.catalog, &mut self.rng);
        let ghost mid = self.catalog@;
        reindex(&mut self.catalog);
        proof {
            lemma_reindexed_indexed(mid);
            if unenriched(old(self).catalog@) {
                lemma_unenriched_perm(old(self).catalog@, mid);
            }
        }
    }

    /// Re-sorts the catalog by source path and reassigns contiguous indices,
    /// as one regeneration.
    fn sort(&mut self)
        ensures
            final(self).config == old(self).config,
            final(self).position == old(self).position,
            final(self).catalog@.len() == old(self).catalog@.len(),
            regen_rel(old(self).catalog@, final(self).catalog@, SortPolicy::Sorted),
            indexed(final(self).catalog@),
            unenriched(old(self).catalog@) ==> unenriched(final(self).catalog@),
    {
        sort_by_source(&mut self.catalog);
        let ghost mid = self.catalog@;
        reindex(&mut self.catalog);
        proof {
            lemma_reindexed_indexed(mid);
            if unenriched(old(self).catalog@) {
                lemma_unenriched_perm(old(self).catalog@, mid);
            }
        }
    }

    /// Serves the next entry of the channel's linear sequence.
    ///
    /// In one indivisible step: if the cursor is inside the catalog, a copy
    /// of the entry at the cursor comes back and the cursor advances by one.
    /// Otherwise the catalog is exhausted: it is regenerated under the
    /// channel's policy (reordered and reindexed), and the first entry of the
    /// new ordering comes back with the cursor on the second — unless the
    /// catalog is empty, in which case the call returns the explicit empty
    /// signal and the cursor stays at the start.
    pub fn next(&mut self) -> (r: Option<Media>)
        requires
            old(self).wf(),
        ensures
            final(self).wf(),
            final(self).config == old(self).config,
            final(self).catalog@.len() == old(self).catalog@.len(),
            final(self).position as int == next_position(
                old(self).position as int,
                old(self).catalog@.len() as int,
            ),
            r is None <==> old(self).catalog@.len() == 0,
            old(self).position < old(self).catalog@.len() ==> {
                &&& final(self).catalog@ == old(self).catalog@
                &&& (r matches Some(m) && media_like(
                    m,
                    old(self).catalog@[old(self).position as int],
                ))
            },
            old(self).position >= old(self).catalog@.len() ==> {
                &&& regen_rel(old(self).catalog@, final(self).catalog@, old(self).config.policy)
                &&& indexed(final(self).catalog@)
                &&& (old(self).catalog@.len() > 0 ==> (r matches Some(m) && media_like(
                    m,
                    final(self).catalog@[0],
                )))
            },
            indexed(old(self).catalog@) ==> indexed(final(self).catalog@),
            indexed(old(self).catalog@) && old(self).catalog@.len() > 0 ==> (r matches Some(m)
                && m.index == Some(
                served_slot(old(self).position as int, old(self).catalog@.len() as int) as usize,
            )),
            unenriched(old(self).catalog@) ==> unenriched(final(self).catalog@),
    {
        if self.position < self.catalog.len() {
            let m = self.catalog[self.position].duplicate();
            self.position = self.position + 1;
            Some(m)
        } else {
            match self.config.policy {
                SortPolicy::Shuffle => self.shuffle(),
                SortPolicy::Sorted => self.sort(),
            }
            if self.catalog.len() == 0 {
                self.position = 0;
                None
            } else {
                let m = self.catalog[0].duplicate();
                self.position = 1;
                Some(m)
            }
        }
    }
}

/// Chooses the enumeration roots for the primary catalog: the configured
/// path list when a generation run is requested and the list is non-empty;
/// otherwise the channel's storage root alone.
pub fn select_roots(config: &ChannelConfig) -> (roots: Vec<String>)
    ensures
        config.paths@.len() > 0 && config.generate ==> str_views(roots@) == str_views(
            config.paths@,
        ),
        !(config.paths@.len() > 0 && config.generate) ==> roots@.len() == 1 && roots@[0]@
            == config.storage@,
{
    let mut roots: Vec<String> = Vec::new();
    if config.paths.len() > 0 && config.generate {
        let mut i: usize = 0;
        proof {
            assert(str_views(roots@) =~= str_views(config.paths@).subrange(0, 0));
        }
        while i < config.paths.len()
            invariant
                i <= config.paths@.len(),
                str_views(roots@) == str_views(config.paths@).subrange(0, i as int),
            decreases config.paths@.len() - i,
        {
            let ghost prev = roots@;
            let r = config.paths[i].clone();
            proof {
                assert(r@ == config.paths@[i as int]@);
            }
            roots.push(r);
            proof {
                assert(str_views(roots@) =~= str_views(prev).push(r@));
                assert(str_views(roots@) =~= str_views(config.paths@).subrange(0, i as int + 1));
            }
            i = i + 1;
        }
        proof {
            assert(str_views(config.paths@).subrange(0, config.paths@.len() as int) =~= str_views(
                config.paths@,
            ));
        }
    } else {
        roots.push(config.storage.clone());
    }
    roots
}

/// Where the filler content lives, as the playback driver found it: a
/// directory with its files, a single file, or nothing usable.
pub enum FillerRoot {
    Directory(Vec<String>),
    File(String),
    Missing,
}

/// Builds the independent fallback catalog.  A directory root is filtered,
/// ordered (naturally by source path, or shuffled when the policy says so)
/// and contiguously indexed; a single-file root becomes the one-entry catalog
/// with index 0 whatever the policy; a missing root yields the empty catalog.
pub fn fill_filler_list(config: &ChannelConfig, root: FillerRoot, rng: &mut StdRng) -> (list: Vec<
    Media,
>)
    requires
        root matches FillerRoot::Directory(entries) ==> (config.policy == SortPolicy::Sorted
            ==> forall|i: int|
                0 <= i < entries@.len() ==> natural_sortable((#[trigger] entries@[i])@)),
    ensures
        root matches FillerRoot::File(path) ==> {
            &&& list@.len() == 1
            &&& list@[0].index == Some(0usize)
            &&& list@[0].source@ == path@
            &&& unenriched(list@)
        },
        root matches FillerRoot::Missing ==> list@.len() == 0,
        root matches FillerRoot::Directory(entries) ==> {
            &&& indexed(list@)
            &&& unenriched(list@)
            &&& list@.len() == kept_views(entries@, config.extensions@).len()
            &&& exists|mid: Seq<Media>|
                #![auto]
                source_views(mid).to_multiset() == kept_views(
                    entries@,
                    config.extensions@,
                ).to_multiset() && (config.policy == SortPolicy::Sorted ==> natural_sorted(mid))
                    && list@ == reindexed(mid)
        },
{
    match root {
        FillerRoot::Directory(entries) => {
            let ghost entry_views = entries@;
            let mut list = medias_from_entries(config, entries);
            let ghost built = list@;
            match config.policy {
                SortPolicy::Shuffle => shuffle_media(&mut list, rng),
                SortPolicy::Sorted => {
                    proof {
                        assert forall|i: int|
                            0 <= i < list@.len() implies natural_sortable(
                            (#[trigger] list@[i]).source@,
                        ) by {
                            let j = choose|j: int|
                                0 <= j < entry_views.len() && list@[i].source@ == entry_views[j]@;
                            assert(natural_sortable(entry_views[j]@));
                        }
                    }
                    natural_sort_media(&mut list)
                },
            }
            let ghost mid = list@;
            proof {
                lemma_map_to_multiset(mid, built, |m: Media| m.source@);
                lemma_unenriched_perm(built, mid);
                lemma_reindexed_indexed(mid);
            }
            reindex(&mut list);
            list
        },
        FillerRoot::File(path) => {
            let mut list: Vec<Media> = Vec::new();
            list.push(Media::new(0, path));
            list
        },
        FillerRoot::Missing => Vec::new(),
    }
}

} // verus!

//! The data model: one playable entry, its optional enrichments, and the
//! read-only channel configuration snapshot.

use vstd::prelude::*;

verus! {

/// How a catalog is ordered when it is built or regenerated: a plain lexical
/// sort of the source paths, or a fresh shuffle.
#[derive(Clone, Copy, PartialEq, Eq, Structural, Debug)]
pub enum SortPolicy {
    Sorted,
    Shuffle,
}

/// Technical metadata for one entry, resolved by an external probing
/// collaborator and attached after the fact.
#[derive(Clone, Copy, PartialEq, Eq, Structural, Debug)]
pub struct MediaProbe {
    pub duration_ms: u64,
    pub video_streams: u32,
    pub audio_streams: u32,
}

/// One playable entry: a source path, its slot in the current ordering, and
/// optional enrichments (scheduled start, probe metadata, filter descriptor)
/// attached lazily by external collaborators.
#[derive(Debug, Clone)]
pub struct Media {
    pub index: Option<usize>,
    pub source: String,
    pub begin: Option<u64>,
    pub probe: Option<MediaProbe>,
    pub filter: Option<String>,
}

/// The view of an optional owned string.
pub open spec fn opt_str_view(o: Option<String>) -> Option<Seq<char>> {
    match o {
        Some(s) => Some(s@),
        None => None,
    }
}

/// Two entries carry the same data: equal fields, with the string fields
/// compared by their character sequences.
pub open spec fn media_like(a: Media, b: Media) -> bool {
    &&& a.index == b.index
    &&& a.source@ == b.source@
    &&& a.begin == b.begin
    &&& a.probe == b.probe
    &&& opt_str_view(a.filter) == opt_str_view(b.filter)
}

impl Media {
    /// A bare entry for a source path: the given provisional slot, no
    /// enrichments yet.
    pub fn new(index: usize, source: String) -> (m: Media)
        ensures
            m.index == Some(index),
            m.source == source,
            m.begin is None,
            m.probe is None,
            m.filter is None,
    {
        Media { index: Some(index), source, begin: None, probe: None, filter: None }
    }

    /// Attaches what the collaborators returned for this entry: the probe
    /// result where probing succeeded (a failed probe leaves the entry as it
    /// was — best effort), whatever the filter collaborator handed back, and
    /// the start stamp for the given UTC second in the channel's time zone.
    pub fn enrich(
        &mut self,
        probe: Option<MediaProbe>,
        filter: Option<String>,
        utc_secs: u64,
        tz_offset_secs: i64,
    )
        requires
            -86400 <= tz_offset_secs <= 86400,
        ensures
            final(self).index == old(self).index,
            final(self).source == old(self).source,
            (final(self).begin matches Some(b) && b == spec_time_in_seconds(
                utc_secs,
                tz_offset_secs,
            )),
            final(self).probe == (if probe is Some {
                probe
            } else {
                old(self).probe
            }),
            final(self).filter == filter,
    {
        if let Some(p) = probe {
            self.probe = Some(p);
        }
        self.filter = filter;
        self.begin = Some(time_in_seconds(utc_secs, tz_offset_secs));
    }

    /// An owned copy of this entry, field for field.
    pub fn duplicate(&self) -> (m: Media)
        ensures
            media_like(m, *self),
    {
        Media {
            index: self.index,
            source: self.source.clone(),
            begin: self.begin,
            probe: self.probe,
            filter: match &self.filter {
                Some(s) => Some(s.clone()),
                None => None,
            },
        }
    }
}

/// Read-only configuration snapshot for one channel: the channel's storage
/// root and the optional list of generation paths, the extension allow-list,
/// the ordering policy, whether a generation run was requested, and the
/// channel's time zone as a fixed offset from UTC in seconds.
#[derive(Debug, Clone)]
pub struct ChannelConfig {
    pub channel_id: u64,
    pub storage: String,
    pub paths: Vec<String>,
    pub generate: bool,
    pub extensions: Vec<String>,
    pub policy: SortPolicy,
    pub tz_offset_secs: i64,
}

pub const SECS_PER_DAY: u64 = 86400;

/// Seconds since local midnight in a zone at a fixed offset from UTC.
pub open spec fn spec_time_in_seconds(utc_secs: u64, tz_offset_secs: i64) -> int {
    ((utc_secs as int % 86400) + tz_offset_secs + 86400) % 86400
}

/// The scheduled-start stamp: seconds since midnight in the channel's time
/// zone, for a given UTC wall-clock second.
pub fn time_in_seconds(utc_secs: u64, tz_offset_secs: i64) -> (r: u64)
    requires
        -86400 <= tz_offset_secs <= 86400,
    ensures
        r == spec_time_in_seconds(utc_secs, tz_offset_secs),
        r < 86400,
{
    let base: u64 = utc_secs % SECS_PER_DAY;
    let lifted: u64 = (tz_offset_secs + 86400) as u64;
    let shifted: u64 = base + lifted;
    shifted % SECS_PER_DAY
}

} // verus!

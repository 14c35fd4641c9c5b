//! Catalog management for continuous folder-driven playback.
//!
//! A channel owns an ordered, indexed catalog of media entries and a cursor
//! that serves them one at a time.  When the cursor exhausts the catalog, the
//! catalog is regenerated in place (reshuffled or re-sorted, then reindexed)
//! and playback continues, so a channel never stops serving.  A secondary
//! "filler" catalog can be built independently as fallback content.

pub mod media;
pub mod text;
pub mod order;
pub mod entropy;
pub mod natural;
pub mod folder;
pub mod laws;

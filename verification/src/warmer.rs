//! The metadata warmer's state updates.
//!
//! The warmer drains the work queue one ID at a time and asks the tag
//! extractor about the record's file; extraction itself is I/O and happens
//! outside the library. What came back is applied here: on success the tags,
//! duration and index time are filled in, the record rejoins its categories,
//! and the ID enters the indexed set; on failure the record is marked
//! unparsable, leaves every playable category, and nothing is persisted.
//! This is the sole writer of a record's tags and duration.

use vstd::prelude::*;

use crate::catalog::IndexedFiles;
use crate::queue::IndexedSet;
use crate::track::File;
use crate::track::TagData;
use crate::track::TrackModel;

verus! {

/// What one warm pass did: the ID was unknown, extraction failed, or the
/// record was warmed and should be persisted.
pub enum WarmOutcome {
    Missing,
    Failed,
    Warmed(File),
}

/// A record after a successful warm pass: tags and duration from the
/// extractor, the index time set, the failure flag cleared.
pub open spec fn spec_warmed(m: TrackModel, duration: u64, title: Seq<char>, artist: Seq<char>, album: Seq<char>, now: u64) -> TrackModel {
    TrackModel {
        duration: duration,
        title: title,
        artist: artist,
        album: album,
        indexed_at: now,
        parse_fail: false,
        ..m
    }
}

/// A record after a failed warm pass: only the failure flag moves.
pub open spec fn spec_warm_failed(m: TrackModel) -> TrackModel {
    TrackModel { parse_fail: true, ..m }
}

/// Apply one dequeued ID's extraction outcome to the catalog and the
/// indexed set.
pub fn warm_step(
    catalog: &mut IndexedFiles,
    indexed: &mut IndexedSet,
    id: u32,
    extraction: Option<TagData>,
    now: u64,
) -> (r: WarmOutcome)
    requires
        old(catalog).wf(),
    ensures
        final(catalog).wf(),
        !old(catalog).model().contains_key(id) ==> {
            &&& r is Missing
            &&& final(catalog).model() == old(catalog).model()
            &&& final(indexed)@ == old(indexed)@
        },
        old(catalog).model().contains_key(id) ==> match extraction {
            Some(tags) => {
                let updated = spec_warmed(
                    old(catalog).model()[id],
                    tags.duration,
                    tags.title@,
                    tags.artist@,
                    tags.album@,
                    now,
                );
                &&& r matches WarmOutcome::Warmed(rec) && rec@ == updated
                &&& final(catalog).model() == old(catalog).model().insert(id, updated)
                &&& final(indexed)@ == old(indexed)@.insert(id)
            },
            None => {
                &&& r is Failed
                &&& final(catalog).model() == old(catalog).model().insert(
                    id,
                    spec_warm_failed(old(catalog).model()[id]),
                )
                &&& final(indexed)@ == old(indexed)@
            },
        },
{
    let mut f: File;
    match catalog.get(id) {
        Some(existing) => {
            f = existing.clone();
        },
        None => {
            return WarmOutcome::Missing;
        },
    }
    proof {
        assert(f.id == id);
    }
    match extraction {
        Some(tags) => {
            f.populate_lofty(Some(tags));
            f.indexed_at = now;
            let rec = f.clone();
            catalog.upsert(f);
            indexed.insert(id);
            WarmOutcome::Warmed(rec)
        },
        None => {
            f.populate_lofty(None);
            catalog.upsert(f);
            WarmOutcome::Failed
        },
    }
}

} // verus!

//! The indexing walker's decision logic.
//!
//! The filesystem walk itself is I/O and happens outside the library; what it
//! found — one entry per directory item, readable or not — is handed in as
//! plain values. A walk pass applies the exclusion prefixes and the extension
//! allow-list, computes each eligible file's stable ID, inserts a bare record
//! for a new ID, re-marks a known ID for warming when its size or
//! modification time changed, and skips unreadable entries without aborting
//! the pass.

use vstd::prelude::*;

use crate::catalog::IndexedFiles;
use crate::queue::WorkQueue;
use crate::queue::spec_enqueue;
use crate::strutil::contains_str;
use crate::strutil::has_prefix_in;
use crate::strutil::spec_contains_str;
use crate::strutil::spec_has_prefix_in;
use crate::track::File;
use crate::track::TrackModel;
use crate::track::murmur_of;
use crate::track::spec_ext_of;
use crate::track::spec_file_name_of;

verus! {

/// One item the directory walk reported: a filesystem entry with its stat
/// data, or an entry that could not be read at all.
pub enum ScanEntry {
    Found { path: String, file_size: u64, file_modified: u64, is_dir: bool },
    Unreadable,
}

/// Whether a walk indexes this entry: it must be a readable file, lie under
/// no excluded prefix, and carry an allowed extension.
pub open spec fn spec_entry_indexed(
    e: ScanEntry,
    exclusions: Seq<String>,
    allowed: Seq<String>,
) -> bool {
    match e {
        ScanEntry::Found { path, file_size, file_modified, is_dir } => {
            &&& !is_dir
            &&& !spec_has_prefix_in(exclusions, path@)
            &&& spec_contains_str(allowed, spec_ext_of(path@))
        },
        ScanEntry::Unreadable => false,
    }
}

/// The record a walk inserts for a newly discovered file: a bare record with
/// the stat data and the index time filled in.
pub open spec fn spec_scanned_model(path: Seq<char>, size: u64, mtime: u64, now: u64) -> TrackModel {
    TrackModel {
        id: murmur_of(path),
        path: path,
        file_name: spec_file_name_of(path),
        file_ext: spec_ext_of(path),
        file_size: size,
        file_modified: mtime,
        title: Seq::<char>::empty(),
        artist: Seq::<char>::empty(),
        album: Seq::<char>::empty(),
        duration: 0,
        indexed_at: now,
        accessed_at: 0,
        parse_fail: false,
    }
}

/// What one entry does to the catalog and the work queue: nothing for a
/// skipped entry; for a new ID a bare record and a place in the queue; for a
/// known ID whose size or modification time moved, a place in the queue.
pub open spec fn spec_scan_step(
    cat: Map<u32, TrackModel>,
    q: Seq<u32>,
    e: ScanEntry,
    exclusions: Seq<String>,
    allowed: Seq<String>,
    now: u64,
) -> (Map<u32, TrackModel>, Seq<u32>) {
    if !spec_entry_indexed(e, exclusions, allowed) {
        (cat, q)
    } else {
        match e {
            ScanEntry::Found { path, file_size, file_modified, is_dir } => {
                let id = murmur_of(path@);
                if cat.contains_key(id) {
                    if cat[id].file_size != file_size || cat[id].file_modified != file_modified {
                        (cat, spec_enqueue(q, id))
                    } else {
                        (cat, q)
                    }
                } else {
                    (
                        cat.insert(id, spec_scanned_model(path@, file_size, file_modified, now)),
                        spec_enqueue(q, id),
                    )
                }
            },
            ScanEntry::Unreadable => (cat, q),
        }
    }
}

/// The catalog and queue a whole walk pass leaves behind: the entries
/// applied in order.
pub open spec fn spec_walk(
    cat: Map<u32, TrackModel>,
    q: Seq<u32>,
    entries: Seq<ScanEntry>,
    exclusions: Seq<String>,
    allowed: Seq<String>,
    now: u64,
) -> (Map<u32, TrackModel>, Seq<u32>)
    decreases entries.len(),
{
    if entries.len() == 0 {
        (cat, q)
    } else {
        let prior = spec_walk(cat, q, entries.drop_last(), exclusions, allowed, now);
        spec_scan_step(prior.0, prior.1, entries.last(), exclusions, allowed, now)
    }
}

/// How many entries of the walk could not be read.
pub open spec fn spec_unreadable_count(entries: Seq<ScanEntry>) -> int
    decreases entries.len(),
{
    if entries.len() == 0 {
        0int
    } else {
        spec_unreadable_count(entries.drop_last()) + if entries.last() is Unreadable {
            1int
        } else {
            0int
        }
    }
}

/// Apply one walked entry to the catalog and the work queue.
pub fn process_entry(
    catalog: &mut IndexedFiles,
    queue: &mut WorkQueue,
    entry: &ScanEntry,
    exclusions: &Vec<String>,
    allowed: &Vec<String>,
    now: u64,
)
    requires
        old(catalog).wf(),
        old(queue).wf(),
    ensures
        final(catalog).wf(),
        final(queue).wf(),
        (final(catalog).model(), final(queue)@) == spec_scan_step(
            old(catalog).model(),
            old(queue)@,
            *entry,
            exclusions@,
            allowed@,
            now,
        ),
{
    match entry {
        ScanEntry::Unreadable => {},
        ScanEntry::Found { path, file_size, file_modified, is_dir } => {
            if *is_dir {
                return ;
            }
            if has_prefix_in(exclusions, path.as_str()) {
                return ;
            }
            let mut f = File::new_empty_file_from_path(path.as_str());
            if !contains_str(allowed, f.file_ext.as_str()) {
                return ;
            }
            let id = f.id;
            let mut changed = false;
            let mut known = false;
            match catalog.get(id) {
                Some(existing) => {
                    known = true;
                    changed = existing.file_size != *file_size || existing.file_modified
                        != *file_modified;
                },
                None => {},
            }
            if known {
                if changed {
                    queue.enqueue(id);
                }
            } else {
                f.file_size = *file_size;
                f.file_modified = *file_modified;
                f.indexed_at = now;
                proof {
                    assert(f@ == spec_scanned_model(path@, *file_size, *file_modified, now));
                }
                catalog.upsert(f);
                queue.enqueue(id);
            }
        },
    }
}

/// One walk pass: apply every entry in order, skipping unreadable entries
/// rather than aborting, and report how many were skipped.
pub fn walk_pass(
    catalog: &mut IndexedFiles,
    queue: &mut WorkQueue,
    entries: &Vec<ScanEntry>,
    exclusions: &Vec<String>,
    allowed: &Vec<String>,
    now: u64,
) -> (skipped: usize)
    requires
        old(catalog).wf(),
        old(queue).wf(),
    ensures
        final(catalog).wf(),
        final(queue).wf(),
        (final(catalog).model(), final(queue)@) == spec_walk(
            old(catalog).model(),
            old(queue)@,
            entries@,
            exclusions@,
            allowed@,
            now,
        ),
        skipped == spec_unreadable_count(entries@),
{
    let ghost cat0 = old(catalog).model();
    let ghost q0 = old(queue)@;
    let mut skipped: usize = 0;
    let n = entries.len();
    proof {
        assert(entries@.subrange(0, 0) =~= Seq::<ScanEntry>::empty());
    }
    for i in 0..n
        invariant
            n == entries@.len(),
            catalog.wf(),
            queue.wf(),
            (catalog.model(), queue@) == spec_walk(
                cat0,
                q0,
                entries@.subrange(0, i as int),
                exclusions@,
                allowed@,
                now,
            ),
            skipped == spec_unreadable_count(entries@.subrange(0, i as int)),
            skipped <= i,
    {
        let entry = &entries[i];
        process_entry(catalog, queue, entry, exclusions, allowed, now);
        if matches!(entry, ScanEntry::Unreadable) {
            skipped = skipped + 1;
        }
        proof {
            assert(entries@.subrange(0, i + 1).drop_last() =~= entries@.subrange(0, i as int));
            assert(entries@.subrange(0, i + 1).last() == entries@[i as int]);
        }
    }
    proof {
        assert(entries@.subrange(0, n as int) =~= entries@);
    }
    skipped
}

} // verus!

//! The in-memory catalog and its category indices.
//!
//! [`IndexedFiles`] maps stable track IDs to records and keeps three derived
//! ID lists: `tunes` (duration at most [`MIX_THRESHOLD_SECS`]), `mixes`
//! (longer), and `all` (their union). The lists are derived, never
//! authoritative: `upsert` recomputes a record's membership from its latest
//! `duration` and `parse_fail`, and a record that failed parsing or runs past
//! [`DURATION_MAX_SECS`] sits in no list at all, though it stays in the map
//! for bookkeeping. No order is promised inside a list: selection treats it
//! as an unordered candidate pool.

use std::collections::HashMap;

use vstd::prelude::*;

use crate::track::File;
use crate::track::TrackModel;

verus! {

broadcast use vstd::seq_lib::lemma_seq_contains_after_push;

/// Tracks up to this many seconds (23 minutes) count as tunes; longer ones
/// as mixes.
pub const MIX_THRESHOLD_SECS: u64 = 1380;

/// Tracks longer than this many seconds are excessively long and enter no
/// category.
pub const DURATION_MAX_SECS: u64 = 12000;

/// Whether a record may enter the playable categories at all.
pub open spec fn spec_eligible(m: TrackModel) -> bool {
    !m.parse_fail && m.duration <= DURATION_MAX_SECS
}

/// Whether an eligible record belongs to `mixes` rather than `tunes`.
pub open spec fn spec_is_mix(m: TrackModel) -> bool {
    m.duration > MIX_THRESHOLD_SECS
}

/// The catalog: records by stable ID, with the derived category lists.
pub struct IndexedFiles {
    files: HashMap<u32, File>,
    mixes: Vec<u32>,
    tunes: Vec<u32>,
    all: Vec<u32>,
}

impl IndexedFiles {
    /// The catalog as a map from stable ID to track model.
    pub closed spec fn model(&self) -> Map<u32, TrackModel> {
        Map::new(
            |id: u32| self.files@.contains_key(id),
            |id: u32| self.files@[id]@,
        )
    }

    /// The IDs currently in the `mixes` category.
    pub closed spec fn mixes_view(&self) -> Seq<u32> {
        self.mixes@
    }

    /// The IDs currently in the `tunes` category.
    pub closed spec fn tunes_view(&self) -> Seq<u32> {
        self.tunes@
    }

    /// The IDs currently in the `all` category.
    pub closed spec fn all_view(&self) -> Seq<u32> {
        self.all@
    }

    /// The partition invariant: each list is duplicate-free, every record is
    /// keyed by its own ID, and a record's membership is exactly determined
    /// by its eligibility and duration — eligible records sit in `all` and in
    /// precisely one of `tunes`/`mixes`, ineligible records in none.
    pub open spec fn wf(&self) -> bool {
        &&& forall|id: u32| #[trigger] self.model().contains_key(id) ==> self.model()[id].id == id
        &&& self.mixes_view().no_duplicates()
        &&& self.tunes_view().no_duplicates()
        &&& self.all_view().no_duplicates()
        &&& forall|id: u32|
            #[trigger] self.all_view().contains(id) <==> self.model().contains_key(id)
                && spec_eligible(self.model()[id])
        &&& forall|id: u32|
            #[trigger] self.mixes_view().contains(id) <==> self.model().contains_key(id)
                && spec_eligible(self.model()[id]) && spec_is_mix(self.model()[id])
        &&& forall|id: u32|
            #[trigger] self.tunes_view().contains(id) <==> self.model().contains_key(id)
                && spec_eligible(self.model()[id]) && !spec_is_mix(self.model()[id])
    }

    /// An empty catalog.
    pub fn new() -> (r: IndexedFiles)
        ensures
            r.wf(),
            r.model() == Map::<u32, TrackModel>::empty(),
            r.mixes_view() == Seq::<u32>::empty(),
            r.tunes_view() == Seq::<u32>::empty(),
            r.all_view() == Seq::<u32>::empty(),
    {
        let r = IndexedFiles {
            files: HashMap::new(),
            mixes: Vec::new(),
            tunes: Vec::new(),
            all: Vec::new(),
        };
        proof {
            assert(r.model() =~= Map::<u32, TrackModel>::empty());
        }
        r
    }

    /// How many records the catalog holds.
    pub fn len(&self) -> (r: usize)
        ensures
            r == self.model().dom().len(),
    {
        proof {
            assert(self.model().dom() =~= self.files@.dom());
        }
        self.files.len()
    }

    /// Look a record up by its stable ID.
    pub fn get(&self, id: u32) -> (r: Option<&File>)
        ensures
            match r {
                Some(f) => self.model().contains_key(id) && f@ == self.model()[id],
                None => !self.model().contains_key(id),
            },
    {
        self.files.get(&id)
    }

    /// Insert or replace a record under its own ID and recompute its
    /// category membership from its latest `duration` and `parse_fail`.
    pub fn upsert(&mut self, f: File)
        requires
            old(self).wf(),
        ensures
            final(self).wf(),
            final(self).model() == old(self).model().insert(f.id, f@),
    {
        let id = f.id;
        let ghost fm = f@;
        let eligible = !f.parse_fail && f.duration <= DURATION_MAX_SECS;
        let is_mix = f.duration > MIX_THRESHOLD_SECS;
        self.files.insert(id, f);
        remove_id(&mut self.all, id);
        remove_id(&mut self.mixes, id);
        remove_id(&mut self.tunes, id);
        if eligible {
            proof {
                lemma_push_keeps_no_duplicates(self.all@, id);
            }
            self.all.push(id);
            if is_mix {
                proof {
                    lemma_push_keeps_no_duplicates(self.mixes@, id);
                }
                self.mixes.push(id);
            } else {
                proof {
                    lemma_push_keeps_no_duplicates(self.tunes@, id);
                }
                self.tunes.push(id);
            }
        }
        proof {
            assert(self.model() =~= old(self).model().insert(id, fm));
            assert forall|x: u32| #[trigger] self.all_view().contains(x) implies self.model()
                .contains_key(x) && spec_eligible(self.model()[x]) by {
                if x != id {
                    assert(old(self).all_view().contains(x));
                }
            }
            assert forall|x: u32|
                self.model().contains_key(x) && spec_eligible(self.model()[x]) implies #[trigger] self.all_view().contains(x) by {
                if x != id {
                    assert(old(self).all_view().contains(x));
                }
            }
            assert forall|x: u32| #[trigger] self.mixes_view().contains(x) implies self.model()
                .contains_key(x) && spec_eligible(self.model()[x]) && spec_is_mix(self.model()[x]) by {
                if x != id {
                    assert(old(self).mixes_view().contains(x));
                }
            }
            assert forall|x: u32|
                self.model().contains_key(x) && spec_eligible(self.model()[x]) && spec_is_mix(self.model()[x]) implies #[trigger] self.mixes_view().contains(x) by {
                if x != id {
                    assert(old(self).mixes_view().contains(x));
                }
            }
            assert forall|x: u32| #[trigger] self.tunes_view().contains(x) implies self.model()
                .contains_key(x) && spec_eligible(self.model()[x]) && !spec_is_mix(self.model()[x]) by {
                if x != id {
                    assert(old(self).tunes_view().contains(x));
                }
            }
            assert forall|x: u32|
                self.model().contains_key(x) && spec_eligible(self.model()[x]) && !spec_is_mix(self.model()[x]) implies #[trigger] self.tunes_view().contains(x) by {
                if x != id {
                    assert(old(self).tunes_view().contains(x));
                }
            }
        }
    }

    /// The current `mixes` candidate pool.
    pub fn mixes(&self) -> (r: &Vec<u32>)
        ensures
            r@ == self.mixes_view(),
    {
        &self.mixes
    }

    /// The current `tunes` candidate pool.
    pub fn tunes(&self) -> (r: &Vec<u32>)
        ensures
            r@ == self.tunes_view(),
    {
        &self.tunes
    }

    /// The current `all` candidate pool.
    pub fn all(&self) -> (r: &Vec<u32>)
        ensures
            r@ == self.all_view(),
    {
        &self.all
    }
}

/// The partition law: in a well-formed catalog, a record with `parse_fail`
/// false and `duration` within bounds has its ID in `all` and in exactly one
/// of `tunes` and `mixes`; a record failing either condition appears in no
/// category at all.
pub proof fn lemma_partition_invariant(cat: IndexedFiles, id: u32)
    requires
        cat.wf(),
        cat.model().contains_key(id),
    ensures
        spec_eligible(cat.model()[id]) ==> {
            &&& cat.all_view().contains(id)
            &&& cat.tunes_view().contains(id) || cat.mixes_view().contains(id)
            &&& !(cat.tunes_view().contains(id) && cat.mixes_view().contains(id))
        },
        !spec_eligible(cat.model()[id]) ==> {
            &&& !cat.all_view().contains(id)
            &&& !cat.tunes_view().contains(id)
            &&& !cat.mixes_view().contains(id)
        },
{
}

/// The catalog a sequence of records builds up, later records replacing
/// earlier ones with the same ID.
pub open spec fn spec_catalog_of(files: Seq<File>) -> Map<u32, TrackModel>
    decreases files.len(),
{
    if files.len() == 0 {
        Map::<u32, TrackModel>::empty()
    } else {
        spec_catalog_of(files.drop_last()).insert(files.last().id, files.last()@)
    }
}

/// Build the catalog from a set of scanned records: every record is upserted
/// in order, so the result satisfies the partition invariant and holds
/// exactly the given records, keyed and categorised by their own fields.
pub fn synchronous_file_scan(files: Vec<File>) -> (r: IndexedFiles)
    ensures
        r.wf(),
        r.model() == spec_catalog_of(files@),
{
    let mut r = IndexedFiles::new();
    proof {
        assert(files@.subrange(0, 0) =~= Seq::<File>::empty());
    }
    let files_len = files.len();
    for i in 0..files_len
        invariant
            files_len == files@.len(),
            r.wf(),
            r.model() == spec_catalog_of(files@.subrange(0, i as int)),
    {
        let f = files[i].clone();
        r.upsert(f);
        proof {
            assert(files@.subrange(0, i + 1) =~= files@.subrange(0, i as int).push(files@[i as int]));
            assert(files@.subrange(0, i + 1).drop_last() =~= files@.subrange(0, i as int));
        }
    }
    proof {
        assert(files@.subrange(0, files_len as int) =~= files@);
    }
    r
}

/// Remove every occurrence of `id` from a duplicate-free ID list, leaving
/// the other IDs' membership untouched.
fn remove_id(v: &mut Vec<u32>, id: u32)
    requires
        old(v)@.no_duplicates(),
    ensures
        final(v)@.no_duplicates(),
        forall|x: u32| #[trigger] final(v)@.contains(x) <==> old(v)@.contains(x) && x != id,
{
    let mut out: Vec<u32> = Vec::new();
    let n = v.len();
    let mut i: usize = 0;
    while i < n
        invariant
            n == v@.len(),
            i <= n,
            v@.no_duplicates(),
            out@.no_duplicates(),
            forall|x: u32| #[trigger] out@.contains(x) <==> v@.subrange(0, i as int).contains(x) && x != id,
        decreases n - i,
    {
        let e = v[i];
        if e != id {
            proof {
                if out@.contains(e) {
                    let j = choose|j: int| 0 <= j < i && v@.subrange(0, i as int)[j] == e;
                    assert(v@[j] == e);
                    assert(v@[i as int] == e);
                    assert(false);
                }
                lemma_push_keeps_no_duplicates(out@, e);
            }
            out.push(e);
        }
        proof {
            assert forall|x: u32| #[trigger] out@.contains(x) <==> v@.subrange(0, i + 1).contains(x)
                && x != id by {
                assert(v@.subrange(0, i + 1) =~= v@.subrange(0, i as int).push(v@[i as int]));
            }
        }
        i = i + 1;
    }
    proof {
        assert(v@.subrange(0, n as int) =~= v@);
    }
    *v = out;
}

/// Pushing an element a duplicate-free sequence lacks keeps it
/// duplicate-free.
pub proof fn lemma_push_keeps_no_duplicates(s: Seq<u32>, x: u32)
    requires
        s.no_duplicates(),
        !s.contains(x),
    ensures
        s.push(x).no_duplicates(),
{
    let t = s.push(x);
    assert forall|i: int, j: int| 0 <= i < t.len() && 0 <= j < t.len() && i != j implies t[i]
        != t[j] by {
        if i < s.len() && j < s.len() {
            assert(t[i] == s[i] && t[j] == s[j]);
        } else if i < s.len() {
            assert(t[i] == s[i] && t[j] == x);
            assert(s[i] != x);
        } else {
            assert(t[i] == x && t[j] == s[j]);
            assert(s[j] != x);
        }
    }
}

} // verus!

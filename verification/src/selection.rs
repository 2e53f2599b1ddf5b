//! Random track selection and the response it produces.
//!
//! A request names a category; selection draws one ID uniformly from that
//! pool, falling back to the whole `all` pool when the category is empty,
//! and reports nothing only when both are empty. A hit issues a playback
//! token into the cache and returns the client-facing record; a miss or an
//! empty pool produces the not-found response.

use vstd::prelude::*;

use crate::catalog::IndexedFiles;
use crate::plays::PlayCache;
use crate::strutil::str_eq;
use crate::track::FileHashed;
use crate::track::TrackModel;

verus! {

/// Relies on `rand::random_range` over `0..len`: a uniformly drawn index
/// below `len`. The call panics on an empty range, so a positive length is
/// required; nothing can be promised about which index comes back.
#[verifier::external_body]
fn random_index(len: usize) -> (r: usize)
    requires
        len > 0,
    ensures
        r < len,
{
    rand::random_range(0..len)
}

/// The candidate pool a mode names: `tunes` and `all` select their lists,
/// anything else — `mixes` included — falls back to the default `mixes`.
pub open spec fn spec_mode_pool(mode: Seq<char>, state: &IndexedFiles) -> Seq<u32> {
    if mode == "tunes"@ {
        state.tunes_view()
    } else if mode == "all"@ {
        state.all_view()
    } else {
        state.mixes_view()
    }
}

/// Draw one candidate ID for the requested mode: from the mode's pool when
/// it has members, from the whole `all` pool when it is empty, and nothing
/// only when both pools are empty.
pub fn random_hash(mode: &str, state: &IndexedFiles) -> (r: Option<u32>)
    ensures
        ({
            let pool = spec_mode_pool(mode@, state);
            if pool.len() > 0 {
                r is Some && pool.contains(r->0)
            } else if state.all_view().len() > 0 {
                r is Some && state.all_view().contains(r->0)
            } else {
                r is None
            }
        }),
{
    let pool: &Vec<u32> = if str_eq(mode, "tunes") {
        state.tunes()
    } else if str_eq(mode, "all") {
        state.all()
    } else {
        state.mixes()
    };
    let chosen: &Vec<u32> = if pool.len() > 0 {
        pool
    } else {
        state.all()
    };
    if chosen.len() == 0 {
        return None;
    }
    let idx = random_index(chosen.len());
    let id = chosen[idx];
    proof {
        assert(chosen@[idx as int] == id);
    }
    Some(id)
}

/// The JSON-shaped selection response: a status, a message, and the chosen
/// records with playback tokens in place of their paths.
pub struct FileResponse {
    pub status: i32,
    pub message: String,
    pub count: usize,
    pub data: Vec<FileHashed>,
}

/// Build the response for a drawn ID: on a catalog hit, a `200` carrying the
/// record with a fresh playback token as its path, the token mapping to a
/// snapshot whose access time is `now`; on a miss or no draw, a `404` with
/// an empty list and the cache untouched.
pub fn generate_random_response(
    random_hash: Option<u32>,
    state: &IndexedFiles,
    plays: &mut PlayCache,
    now: u64,
) -> (r: FileResponse)
    requires
        old(plays).wf(),
    ensures
        final(plays).wf(),
        ({
            let found = random_hash is Some && state.model().contains_key(random_hash->0);
            if found {
                let rec = state.model()[random_hash->0];
                let snap = TrackModel { accessed_at: now, ..rec };
                &&& r.status == 200
                &&& r.message@ == "OK"@
                &&& r.count == 1
                &&& r.data@.len() == 1
                &&& r.data@[0].path@.len() == 36
                &&& r.data@[0].ext@ == rec.file_ext
                &&& r.data@[0].title@ == rec.title
                &&& r.data@[0].artist@ == rec.artist
                &&& r.data@[0].album@ == rec.album
                &&& r.data@[0].file@ == rec.file_name
                &&& final(plays).has(r.data@[0].path@, snap, now)
                &&& forall|t: Seq<char>, f: TrackModel, la: u64|
                    t != r.data@[0].path@ ==> (#[trigger] final(plays).has(t, f, la) <==> old(
                        plays,
                    ).has(t, f, la))
            } else {
                &&& r.status == 404
                &&& r.message@ == "Not Found"@
                &&& r.count == 0
                &&& r.data@.len() == 0
                &&& *final(plays) == *old(plays)
            }
        }),
{
    match random_hash {
        Some(id) => {
            match state.get(id) {
                Some(file) => {
                    let mut copy = file.clone();
                    let hashed = copy.to_response(now);
                    let mut snap = file.clone();
                    snap.accessed_at = now;
                    plays.insert(hashed.path.clone(), snap, now);
                    let mut data: Vec<FileHashed> = Vec::new();
                    data.push(hashed);
                    FileResponse {
                        status: 200,
                        message: "OK".to_owned(),
                        count: 1,
                        data,
                    }
                },
                None => not_found_response(),
            }
        },
        None => not_found_response(),
    }
}

/// The empty not-found response.
fn not_found_response() -> (r: FileResponse)
    ensures
        r.status == 404,
        r.message@ == "Not Found"@,
        r.count == 0,
        r.data@.len() == 0,
{
    FileResponse { status: 404, message: "Not Found".to_owned(), count: 0, data: Vec::new() }
}

} // verus!

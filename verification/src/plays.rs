//! The playback-token cache.
//!
//! Selection issues a short-lived opaque token for a chosen track and stores
//! a snapshot of the record beside it; streaming resolves the token back to
//! the snapshot; the reaper sweeps entries once stale. An entry's recency is
//! set when the token is issued and deliberately not refreshed on resolve, so
//! a token expires a fixed multiple of the track's duration after issue:
//! long enough to replay the track, not longer.

use vstd::prelude::*;

use crate::strutil::str_eq;
use crate::track::File;
use crate::track::TrackModel;
use crate::track::fresh_uuid;

verus! {

/// How many times a track's duration a token stays resolvable after issue.
pub const REPLAY_FACTOR: u64 = 2;

/// Whether an entry issued at `last_accessed` for a track of `duration`
/// seconds is still fresh at `now`: its age has not passed
/// `duration * REPLAY_FACTOR`.
pub open spec fn spec_keep(last_accessed: u64, duration: u64, now: u64) -> bool {
    now - last_accessed <= duration * REPLAY_FACTOR
}

/// Token-TTL law: a token issued at `issued_at` for a track of `duration`
/// seconds is still fresh one second before its deadline of
/// `issued_at + duration * REPLAY_FACTOR`, and stale one second after it.
pub proof fn lemma_token_ttl(issued_at: u64, duration: u64, just_before: u64, just_after: u64)
    requires
        duration >= 1,
        just_before == issued_at + duration * REPLAY_FACTOR - 1,
        just_after == issued_at + duration * REPLAY_FACTOR + 1,
    ensures
        spec_keep(issued_at, duration, just_before),
        !spec_keep(issued_at, duration, just_after),
{
}

/// One cache entry: the token, the record snapshot it resolves to, and when
/// the token was issued.
pub struct PlayEntry {
    pub token: String,
    pub file: File,
    pub last_accessed: u64,
}

impl Clone for PlayEntry {
    fn clone(&self) -> (r: Self)
        ensures
            r == *self,
    {
        PlayEntry {
            token: self.token.clone(),
            file: self.file.clone(),
            last_accessed: self.last_accessed,
        }
    }
}

impl PlayEntry {
    /// Whether this entry is still fresh at `now`.
    pub open spec fn fresh_at(&self, now: u64) -> bool {
        spec_keep(self.last_accessed, self.file@.duration, now)
    }
}

/// Whether `s` holds an entry for token `t` with snapshot `f` issued at `la`.
pub open spec fn seq_has(s: Seq<PlayEntry>, t: Seq<char>, f: TrackModel, la: u64) -> bool {
    exists|i: int|
        0 <= i < s.len() && s[i].token@ == t && s[i].file@ == f && s[i].last_accessed == la
}

/// Whether `s` holds an entry for token `t`.
pub open spec fn seq_has_token(s: Seq<PlayEntry>, t: Seq<char>) -> bool {
    exists|i: int| 0 <= i < s.len() && s[i].token@ == t
}

/// The token cache: entries with pairwise distinct tokens.
pub struct PlayCache {
    entries: Vec<PlayEntry>,
}

/// A token names one snapshot: under the cache invariant, two mappings for
/// the same token agree, so issue-then-resolve always sees exactly what was
/// issued.
pub proof fn lemma_token_unique(
    cache: PlayCache,
    t: Seq<char>,
    f1: TrackModel,
    la1: u64,
    f2: TrackModel,
    la2: u64,
)
    requires
        cache.wf(),
        cache.has(t, f1, la1),
        cache.has(t, f2, la2),
    ensures
        f1 == f2,
        la1 == la2,
{
    let s = cache.entries_view();
    let i = choose|i: int|
        0 <= i < s.len() && s[i].token@ == t && s[i].file@ == f1 && s[i].last_accessed == la1;
    let j = choose|j: int|
        0 <= j < s.len() && s[j].token@ == t && s[j].file@ == f2 && s[j].last_accessed == la2;
    if i != j {
        assert(s[i].token@ != s[j].token@);
    }
}

impl PlayCache {
    /// The entries as the contracts see them.
    pub closed spec fn entries_view(&self) -> Seq<PlayEntry> {
        self.entries@
    }

    /// Whether the cache maps token `t` to snapshot `f` issued at `la`.
    pub open spec fn has(&self, t: Seq<char>, f: TrackModel, la: u64) -> bool {
        seq_has(self.entries_view(), t, f, la)
    }

    /// Whether the cache holds token `t` at all.
    pub open spec fn contains_token(&self, t: Seq<char>) -> bool {
        seq_has_token(self.entries_view(), t)
    }

    /// No two entries share a token, so a token resolves to one snapshot.
    pub open spec fn wf(&self) -> bool {
        forall|i: int, j: int|
            0 <= i < self.entries_view().len() && 0 <= j < self.entries_view().len() && i != j
                ==> self.entries_view()[i].token@ != self.entries_view()[j].token@
    }

    /// An empty cache.
    pub fn new() -> (r: PlayCache)
        ensures
            r.wf(),
            r.entries_view() == Seq::<PlayEntry>::empty(),
    {
        PlayCache { entries: Vec::new() }
    }

    /// How many tokens are live.
    pub fn len(&self) -> (r: usize)
        ensures
            r == self.entries_view().len(),
    {
        self.entries.len()
    }

    /// Drop the entry holding `token`, if any, leaving every other token's
    /// mapping untouched.
    fn remove_token(&mut self, token: &str)
        requires
            old(self).wf(),
        ensures
            final(self).wf(),
            !final(self).contains_token(token@),
            forall|t: Seq<char>, f: TrackModel, la: u64|
                #[trigger] final(self).has(t, f, la) <==> old(self).has(t, f, la) && t != token@,
    {
        let ghost pre = self.entries@;
        proof {
            assert(pre == old(self).entries_view());
        }
        let mut out: Vec<PlayEntry> = Vec::new();
        let ghost mut srcs: Seq<int> = Seq::empty();
        let ghost mut sel: Seq<int> = Seq::empty();
        let n = self.entries.len();
        let mut i: usize = 0;
        while i < n
            invariant
                n == self.entries@.len(),
                i <= n,
                self.entries@ == pre,
                srcs.len() == out@.len(),
                sel.len() == i,
                forall|k: int| 0 <= k < out@.len() ==> 0 <= #[trigger] srcs[k] < i,
                forall|k1: int, k2: int| 0 <= k1 < k2 < srcs.len() ==> srcs[k1] < srcs[k2],
                forall|k: int| 0 <= k < out@.len() ==> #[trigger] out@[k] == pre[srcs[k]],
                forall|k: int| 0 <= k < out@.len() ==> (#[trigger] out@[k]).token@ != token@,
                forall|j: int|
                    #![trigger sel[j]]
                    0 <= j < i && pre[j].token@ != token@ ==> 0 <= sel[j] < out@.len()
                        && out@[sel[j]] == pre[j],
            decreases n - i,
        {
            if !str_eq(self.entries[i].token.as_str(), token) {
                proof {
                    sel = sel.push(out@.len() as int);
                    srcs = srcs.push(i as int);
                }
                let e = self.entries[i].clone();
                out.push(e);
            } else {
                proof {
                    sel = sel.push(-1);
                }
            }
            i = i + 1;
        }
        self.entries = out;
        proof {
            let fin = self.entries@;
            assert forall|k1: int, k2: int|
                0 <= k1 < fin.len() && 0 <= k2 < fin.len() && k1 != k2 implies fin[k1].token@
                != fin[k2].token@ by {
                if k1 < k2 {
                    assert(srcs[k1] < srcs[k2]);
                } else {
                    assert(srcs[k2] < srcs[k1]);
                }
                assert(fin[k1] == pre[srcs[k1]] && fin[k2] == pre[srcs[k2]]);
                assert(old(self).entries_view()[srcs[k1]].token@ != old(self).entries_view()[
                    srcs[k2]
                ].token@);
            }
            assert forall|t: Seq<char>, f: TrackModel, la: u64|
                #[trigger] self.has(t, f, la) implies old(self).has(t, f, la) && t != token@ by {
                let k = choose|k: int|
                    0 <= k < fin.len() && fin[k].token@ == t && fin[k].file@ == f
                        && fin[k].last_accessed == la;
                let j = srcs[k];
                assert(pre[j].token@ == t && pre[j].file@ == f && pre[j].last_accessed == la);
            }
            assert forall|t: Seq<char>, f: TrackModel, la: u64|
                old(self).has(t, f, la) && t != token@ implies #[trigger] self.has(t, f, la) by {
                let j = choose|j: int|
                    0 <= j < pre.len() && pre[j].token@ == t && pre[j].file@ == f
                        && pre[j].last_accessed == la;
                let k = sel[j];
                assert(fin[k].token@ == t && fin[k].file@ == f && fin[k].last_accessed == la);
            }
            assert forall|t: Seq<char>| #[trigger] self.contains_token(t) implies t != token@ by {
                let k = choose|k: int| 0 <= k < fin.len() && fin[k].token@ == t;
                assert(fin[k].token@ != token@);
            }
        }
    }

    /// Store `file` under `token` issued at `now`, replacing whatever the
    /// token previously mapped to and leaving every other token untouched.
    pub fn insert(&mut self, token: String, file: File, now: u64)
        requires
            old(self).wf(),
        ensures
            final(self).wf(),
            final(self).has(token@, file@, now),
            forall|t: Seq<char>, f: TrackModel, la: u64|
                t != token@ ==> (#[trigger] final(self).has(t, f, la) <==> old(self).has(t, f, la)),
            forall|t: Seq<char>, f: TrackModel, la: u64|
                #[trigger] final(self).has(t, f, la) && t == token@ ==> f == file@ && la == now,
    {
        self.remove_token(token.as_str());
        let ghost mid = *self;
        let ghost tv = token@;
        self.entries.push(PlayEntry { token, file, last_accessed: now });
        proof {
            let fin = self.entries@;
            let m = mid.entries_view().len() as int;
            assert(fin[m].token@ == tv && fin[m].file@ == file@ && fin[m].last_accessed == now);
            assert forall|t: Seq<char>, f: TrackModel, la: u64|
                #[trigger] self.has(t, f, la) && t != tv implies mid.has(t, f, la) by {
                let k = choose|k: int|
                    0 <= k < fin.len() && fin[k].token@ == t && fin[k].file@ == f
                        && fin[k].last_accessed == la;
                assert(k < m);
                assert(mid.entries_view()[k] == fin[k]);
            }
            assert forall|t: Seq<char>, f: TrackModel, la: u64|
                mid.has(t, f, la) && t != tv implies #[trigger] self.has(t, f, la) by {
                let k = choose|k: int|
                    0 <= k < mid.entries_view().len() && mid.entries_view()[k].token@ == t
                        && mid.entries_view()[k].file@ == f && mid.entries_view()[k].last_accessed
                        == la;
                assert(fin[k] == mid.entries_view()[k]);
            }
            assert forall|t: Seq<char>, f: TrackModel, la: u64|
                #[trigger] self.has(t, f, la) && t == tv implies f == file@ && la == now by {
                let k = choose|k: int|
                    0 <= k < fin.len() && fin[k].token@ == t && fin[k].file@ == f
                        && fin[k].last_accessed == la;
                if k < m {
                    assert(mid.entries_view()[k] == fin[k]);
                    assert(mid.contains_token(tv));
                }
            }
            assert forall|k1: int, k2: int|
                0 <= k1 < fin.len() && 0 <= k2 < fin.len() && k1 != k2 implies fin[k1].token@
                != fin[k2].token@ by {
                if k1 < m && k2 < m {
                    assert(mid.entries_view()[k1] == fin[k1]);
                    assert(mid.entries_view()[k2] == fin[k2]);
                } else if k1 == m {
                    assert(mid.entries_view()[k2] == fin[k2]);
                    if fin[k2].token@ == tv {
                        assert(mid.contains_token(tv));
                    }
                } else {
                    assert(mid.entries_view()[k1] == fin[k1]);
                    if fin[k1].token@ == tv {
                        assert(mid.contains_token(tv));
                    }
                }
            }
        }
    }

    /// Issue a fresh token for a snapshot: the returned token resolves to
    /// `file` as of `now`, and no other token's mapping moves.
    pub fn issue(&mut self, file: File, now: u64) -> (token: String)
        requires
            old(self).wf(),
        ensures
            final(self).wf(),
            token@.len() == 36,
            final(self).has(token@, file@, now),
            forall|t: Seq<char>, f: TrackModel, la: u64|
                t != token@ ==> (#[trigger] final(self).has(t, f, la) <==> old(self).has(t, f, la)),
    {
        let token = fresh_uuid();
        self.insert(token.clone(), file, now);
        token
    }

    /// Resolve a token to a copy of its snapshot, without touching recency.
    /// An unknown token resolves to nothing.
    pub fn resolve(&self, token: &str) -> (r: Option<File>)
        requires
            self.wf(),
        ensures
            r is Some ==> exists|la: u64| self.has(token@, (r->Some_0)@, la),
            r is None ==> !self.contains_token(token@),
    {
        let n = self.entries.len();
        let mut i: usize = 0;
        while i < n
            invariant
                n == self.entries_view().len(),
                i <= n,
                forall|j: int| 0 <= j < i ==> self.entries_view()[j].token@ != token@,
            decreases n - i,
        {
            if str_eq(self.entries[i].token.as_str(), token) {
                let f = self.entries[i].file.clone();
                let ret = Some(f);
                proof {
                    let la = self.entries@[i as int].last_accessed;
                    assert(self.entries@[i as int].token@ == token@);
                    assert(self.entries@[i as int].file@ == (ret->Some_0)@);
                    assert(self.has(token@, (ret->Some_0)@, la));
                }
                return ret;
            }
            i = i + 1;
        }
        None
    }

    /// Sweep at `now`: every stale entry goes, every fresh one stays, token
    /// by token.
    pub fn sweep(&mut self, now: u64)
        requires
            old(self).wf(),
        ensures
            final(self).wf(),
            forall|t: Seq<char>, f: TrackModel, la: u64|
                #[trigger] final(self).has(t, f, la) <==> old(self).has(t, f, la) && spec_keep(
                    la,
                    f.duration,
                    now,
                ),
    {
        let ghost pre = self.entries@;
        proof {
            assert(pre == old(self).entries_view());
        }
        let mut out: Vec<PlayEntry> = Vec::new();
        let ghost mut srcs: Seq<int> = Seq::empty();
        let ghost mut sel: Seq<int> = Seq::empty();
        let n = self.entries.len();
        let mut i: usize = 0;
        while i < n
            invariant
                n == self.entries@.len(),
                i <= n,
                self.entries@ == pre,
                srcs.len() == out@.len(),
                sel.len() == i,
                forall|k: int| 0 <= k < out@.len() ==> 0 <= #[trigger] srcs[k] < i,
                forall|k1: int, k2: int| 0 <= k1 < k2 < srcs.len() ==> srcs[k1] < srcs[k2],
                forall|k: int| 0 <= k < out@.len() ==> #[trigger] out@[k] == pre[srcs[k]],
                forall|k: int| 0 <= k < out@.len() ==> (#[trigger] out@[k]).fresh_at(now),
                forall|j: int|
                    #![trigger sel[j]]
                    0 <= j < i && pre[j].fresh_at(now) ==> 0 <= sel[j] < out@.len()
                        && out@[sel[j]] == pre[j],
            decreases n - i,
        {
            let e_la = self.entries[i].last_accessed;
            let e_dur = self.entries[i].file.duration;
            let fresh = if now <= e_la {
                true
            } else {
                let age = now - e_la;
                proof {
                    assert((e_dur as int) * (REPLAY_FACTOR as int) <= u128::MAX)
                        by (nonlinear_arith)
                        requires
                            e_dur <= u64::MAX,
                            REPLAY_FACTOR == 2,
                    ;
                }
                (age as u128) <= (e_dur as u128) * (REPLAY_FACTOR as u128)
            };
            proof {
                assert(fresh == self.entries@[i as int].fresh_at(now));
            }
            if fresh {
                proof {
                    sel = sel.push(out@.len() as int);
                    srcs = srcs.push(i as int);
                }
                let kept = self.entries[i].clone();
                out.push(kept);
            } else {
                proof {
                    sel = sel.push(-1);
                }
            }
            i = i + 1;
        }
        self.entries = out;
        proof {
            let fin = self.entries@;
            assert forall|k1: int, k2: int|
                0 <= k1 < fin.len() && 0 <= k2 < fin.len() && k1 != k2 implies fin[k1].token@
                != fin[k2].token@ by {
                if k1 < k2 {
                    assert(srcs[k1] < srcs[k2]);
                } else {
                    assert(srcs[k2] < srcs[k1]);
                }
                assert(fin[k1] == pre[srcs[k1]] && fin[k2] == pre[srcs[k2]]);
                assert(old(self).entries_view()[srcs[k1]].token@ != old(self).entries_view()[
                    srcs[k2]
                ].token@);
            }
            assert forall|t: Seq<char>, f: TrackModel, la: u64|
                #[trigger] self.has(t, f, la) implies old(self).has(t, f, la) && spec_keep(
                la,
                f.duration,
                now,
            ) by {
                let k = choose|k: int|
                    0 <= k < fin.len() && fin[k].token@ == t && fin[k].file@ == f
                        && fin[k].last_accessed == la;
                let j = srcs[k];
                assert(pre[j].token@ == t && pre[j].file@ == f && pre[j].last_accessed == la);
                assert(fin[k].fresh_at(now));
            }
            assert forall|t: Seq<char>, f: TrackModel, la: u64|
                old(self).has(t, f, la) && spec_keep(la, f.duration, now) implies
                #[trigger] self.has(t, f, la) by {
                let j = choose|j: int|
                    0 <= j < pre.len() && pre[j].token@ == t && pre[j].file@ == f
                        && pre[j].last_accessed == la;
                assert(pre[j].fresh_at(now));
                let k = sel[j];
                assert(fin[k].token@ == t && fin[k].file@ == f && fin[k].last_accessed == la);
            }
        }
    }
}

} // verus!

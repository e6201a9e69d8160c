//! A snapshot of an MVCC store and the scan-oriented adapter that query
//! operators read through.

use vstd::prelude::*;
use crate::codec::{lex_lt, lex_le, bytes_lt, bytes_eq, lemma_lex_trans, lemma_lex_irreflexive};
use crate::errors::Error;

verus! {

/// `a + b`, held at `usize::MAX` instead of overflowing.
pub open spec fn sat_add(a: usize, b: usize) -> usize {
    if a + b > usize::MAX {
        usize::MAX
    } else {
        (a + b) as usize
    }
}

/// Access counters of a storage adapter.
#[derive(Debug, Clone, Copy, PartialEq, Eq, Structural)]
pub struct Statistics {
    /// Point lookups.
    pub get: usize,
    /// Cursor positionings.
    pub seek: usize,
    /// Cursor steps.
    pub next: usize,
    /// Key-value pairs handed out.
    pub processed: usize,
}

impl Statistics {
    pub open spec fn is_zero(&self) -> bool {
        self.get == 0 && self.seek == 0 && self.next == 0 && self.processed == 0
    }

    /// Counter-by-counter sum, each held at `usize::MAX`.
    pub open spec fn spec_add(&self, o: Statistics) -> Statistics {
        Statistics {
            get: sat_add(self.get, o.get),
            seek: sat_add(self.seek, o.seek),
            next: sat_add(self.next, o.next),
            processed: sat_add(self.processed, o.processed),
        }
    }

    pub fn new() -> (r: Statistics)
        ensures
            r.is_zero(),
    {
        Statistics { get: 0, seek: 0, next: 0, processed: 0 }
    }

    /// Adds the counters of `o` into `self`.
    pub fn add(&mut self, o: &Statistics)
        ensures
            *final(self) == old(self).spec_add(*o),
    {
        self.get = self.get.saturating_add(o.get);
        self.seek = self.seek.saturating_add(o.seek);
        self.next = self.next.saturating_add(o.next);
        self.processed = self.processed.saturating_add(o.processed);
    }
}

/// Adding counters that are all zero changes nothing: once an adapter's
/// counters were drained, draining it again adds nothing.
pub proof fn lemma_add_zero_statistics(d: Statistics, z: Statistics)
    requires
        z.is_zero(),
    ensures
        d.spec_add(z) == d,
{
}

/// A half-open key range `[lower_inclusive, upper_exclusive)` of user keys.
pub struct IntervalRange {
    pub lower_inclusive: Vec<u8>,
    pub upper_exclusive: Vec<u8>,
}

pub open spec fn in_range(k: Seq<u8>, lower: Seq<u8>, upper: Seq<u8>) -> bool {
    lex_le(lower, k) && lex_lt(k, upper)
}

/// The committed value of a user key in a snapshot.
pub struct Version {
    pub key: Vec<u8>,
    pub commit_ts: u64,
    pub value: Vec<u8>,
}

/// An unresolved lock on a user key, taken at `ts`.
pub struct Lock {
    pub key: Vec<u8>,
    pub ts: u64,
}

/// What a read at `ts` sees of the versions in `[lower, upper)`, in key
/// order, with values left empty when only keys are asked for.
pub open spec fn visible_pairs(
    vs: Seq<Version>,
    ts: u64,
    lower: Seq<u8>,
    upper: Seq<u8>,
    key_only: bool,
) -> Seq<(Seq<u8>, Seq<u8>)>
    decreases vs.len(),
{
    if vs.len() == 0 {
        Seq::empty()
    } else {
        let rest = visible_pairs(vs.drop_last(), ts, lower, upper, key_only);
        let v = vs.last();
        if v.commit_ts <= ts && in_range(v.key@, lower, upper) {
            rest.push((v.key@, if key_only { Seq::empty() } else { v.value@ }))
        } else {
            rest
        }
    }
}

/// The value of `key` that a read at `ts` sees.
pub open spec fn visible_value(vs: Seq<Version>, ts: u64, key: Seq<u8>) -> Option<Seq<u8>>
    decreases vs.len(),
{
    if vs.len() == 0 {
        None
    } else if vs.last().key@ == key && vs.last().commit_ts <= ts {
        Some(vs.last().value@)
    } else {
        visible_value(vs.drop_last(), ts, key)
    }
}

/// Index of the first lock in `[lower, upper)` that a read at `ts` must wait for.
pub open spec fn first_conflicting_lock(ls: Seq<Lock>, ts: u64, lower: Seq<u8>, upper: Seq<u8>) -> Option<int>
    decreases ls.len(),
{
    if ls.len() == 0 {
        None
    } else {
        match first_conflicting_lock(ls.drop_last(), ts, lower, upper) {
            Some(i) => Some(i),
            None => if ls.last().ts <= ts && in_range(ls.last().key@, lower, upper) {
                Some(ls.len() - 1)
            } else {
                None
            },
        }
    }
}

pub open spec fn pairs_view(p: Seq<(Vec<u8>, Vec<u8>)>) -> Seq<(Seq<u8>, Seq<u8>)> {
    p.map_values(|x: (Vec<u8>, Vec<u8>)| (x.0@, x.1@))
}

fn copy_bytes(v: &Vec<u8>) -> (r: Vec<u8>)
    ensures
        r@ == v@,
{
    let r = v.clone();
    proof {
        assert(r@ =~= v@);
    }
    r
}

/// A consistent view of the store at `start_ts`: at most one committed
/// version per user key, kept in ascending key order, and the locks.
pub struct SnapshotStore {
    versions: Vec<Version>,
    locks: Vec<Lock>,
    start_ts: u64,
    get_stats: Statistics,
}

impl SnapshotStore {
    pub closed spec fn versions(&self) -> Seq<Version> {
        self.versions@
    }

    pub closed spec fn locks(&self) -> Seq<Lock> {
        self.locks@
    }

    pub closed spec fn start_ts(&self) -> u64 {
        self.start_ts
    }

    pub closed spec fn get_stats(&self) -> Statistics {
        self.get_stats
    }

    /// Keys strictly ascend.
    pub open spec fn wf(&self) -> bool {
        forall|i: int, j: int|
            0 <= i < j < self.versions().len() ==> lex_lt(
                #[trigger] self.versions()[i].key@,
                #[trigger] self.versions()[j].key@,
            )
    }

    /// An empty store read at `start_ts`.
    pub fn new(start_ts: u64) -> (r: SnapshotStore)
        ensures
            r.wf(),
            r.versions().len() == 0,
            r.locks().len() == 0,
            r.start_ts() == start_ts,
            r.get_stats().is_zero(),
    {
        SnapshotStore { versions: Vec::new(), locks: Vec::new(), start_ts, get_stats: Statistics::new() }
    }

    /// Records `value` as committed at `commit_ts` for `key`, replacing
    /// what the key held.
    pub fn put(&mut self, key: Vec<u8>, commit_ts: u64, value: Vec<u8>)
        requires
            old(self).wf(),
        ensures
            final(self).wf(),
            final(self).locks() == old(self).locks(),
            final(self).start_ts() == old(self).start_ts(),
            final(self).get_stats() == old(self).get_stats(),
            exists|p: int|
                0 <= p <= old(self).versions().len() && {
                    let v = #[trigger] final(self).versions()[p];
                    &&& v.key@ == key@
                    &&& v.commit_ts == commit_ts
                    &&& v.value@ == value@
                },
            forall|ts: u64|
                #[trigger] visible_value(final(self).versions(), ts, key@) == if commit_ts <= ts {
                    Some(value@)
                } else {
                    None
                },
            forall|ts: u64, k: Seq<u8>|
                k != key@ ==> #[trigger] visible_value(final(self).versions(), ts, k) == visible_value(
                    old(self).versions(),
                    ts,
                    k,
                ),
    {
        let ghost key_v = key@;
        let ghost value_v = value@;
        let n = self.versions.len();
        let mut p: usize = 0;
        while p < n && bytes_lt(self.versions[p].key.as_slice(), key.as_slice())
            invariant
                n == self.versions@.len(),
                p <= n,
                forall|i: int| 0 <= i < p ==> lex_lt(#[trigger] self.versions@[i].key@, key@),
            decreases n - p,
        {
            p += 1;
        }
        let ghost old_vs = self.versions@;
        proof {
            assert(old_vs == old(self).versions());
        }
        if p < n && bytes_eq(self.versions[p].key.as_slice(), key.as_slice()) {
            self.versions.set(p, Version { key, commit_ts, value });
            proof {
                assert forall|i: int, j: int|
                    0 <= i < j < self.versions@.len() implies lex_lt(
                    #[trigger] self.versions@[i].key@,
                    #[trigger] self.versions@[j].key@,
                ) by {
                    assert(old_vs == old(self).versions());
                    assert(lex_lt(old(self).versions()[i].key@, old(self).versions()[j].key@));
                }
                assert(self.versions()[p as int].key@ == key_v && self.versions()[p as int].commit_ts
                    == commit_ts && self.versions()[p as int].value@ == value_v);
                lemma_ascending_distinct(old_vs);
                lemma_ascending_distinct(self.versions@);
                assert(self.versions@ == old_vs.update(p as int, self.versions@[p as int]));
                assert forall|ts: u64, k: Seq<u8>| k != key_v implies #[trigger] visible_value(self.versions@, ts, k)
                    == visible_value(old_vs, ts, k) by {
                    lemma_put_reads(old_vs, self.versions@, p as int, true, ts, k);
                }
                assert forall|ts: u64| #[trigger] visible_value(self.versions@, ts, key_v) == if commit_ts <= ts {
                    Some(value_v)
                } else {
                    None
                } by {
                    lemma_put_reads(old_vs, self.versions@, p as int, true, ts, key_v);
                }
            }
        } else {
            proof {
                if p < n {
                    lemma_lex_total_for_put(old_vs[p as int].key@, key@);
                }
            }
            self.versions.insert(p, Version { key, commit_ts, value });
            proof {
                let vs = self.versions@;
                assert forall|i: int, j: int|
                    0 <= i < j < vs.len() implies lex_lt(#[trigger] vs[i].key@, #[trigger] vs[j].key@) by {
                    if j < p {
                        assert(vs[i] == old_vs[i] && vs[j] == old_vs[j]);
                        assert(lex_lt(old(self).versions()[i].key@, old(self).versions()[j].key@));
                    } else if j == p {
                        assert(vs[i] == old_vs[i]);
                    } else if i == p {
                        assert(vs[j] == old_vs[j - 1]);
                        if j - 1 > p {
                            assert(lex_lt(old(self).versions()[p as int].key@, old(self).versions()[j - 1].key@));
                            lemma_lex_trans(key@, old_vs[p as int].key@, old_vs[j - 1].key@);
                        }
                    } else if i < p {
                        assert(vs[i] == old_vs[i] && vs[j] == old_vs[j - 1]);
                        assert(lex_lt(old_vs[i].key@, key@));
                        if j - 1 >= p {
                            lemma_lex_trans(old_vs[i].key@, key@, old_vs[p as int].key@);
                            if j - 1 > p {
                                assert(lex_lt(old(self).versions()[p as int].key@, old(self).versions()[j - 1].key@));
                                lemma_lex_trans(old_vs[i].key@, old_vs[p as int].key@, old_vs[j - 1].key@);
                            }
                        }
                    } else {
                        assert(vs[i] == old_vs[i - 1] && vs[j] == old_vs[j - 1]);
                        assert(lex_lt(old(self).versions()[i - 1].key@, old(self).versions()[j - 1].key@));
                    }
                }
                assert(self.versions()[p as int].key@ == key_v && self.versions()[p as int].commit_ts
                    == commit_ts && self.versions()[p as int].value@ == value_v);
                lemma_ascending_distinct(old_vs);
                lemma_ascending_distinct(self.versions@);
                assert(self.versions@ == old_vs.insert(p as int, self.versions@[p as int]));
                assert forall|ts: u64, k: Seq<u8>| k != key_v implies #[trigger] visible_value(self.versions@, ts, k)
                    == visible_value(old_vs, ts, k) by {
                    lemma_put_reads(old_vs, self.versions@, p as int, false, ts, k);
                }
                assert forall|ts: u64| #[trigger] visible_value(self.versions@, ts, key_v) == if commit_ts <= ts {
                    Some(value_v)
                } else {
                    None
                } by {
                    lemma_put_reads(old_vs, self.versions@, p as int, false, ts, key_v);
                }
            }
        }
    }

    /// Records an unresolved lock on `key` taken at `ts`.
    pub fn put_lock(&mut self, key: Vec<u8>, ts: u64)
        ensures
            final(self).versions() == old(self).versions(),
            final(self).locks() == old(self).locks().push(Lock { key, ts }),
            final(self).start_ts() == old(self).start_ts(),
            final(self).get_stats() == old(self).get_stats(),
            old(self).wf() ==> final(self).wf(),
    {
        self.locks.push(Lock { key, ts });
    }

    /// The value of `key` that this snapshot sees; counted as one lookup.
    pub fn incremental_get(&mut self, key: &[u8]) -> (r: Result<Option<Vec<u8>>, Error>)
        ensures
            r is Ok,
            match r {
                Ok(Some(v)) => visible_value(old(self).versions(), old(self).start_ts(), key@) == Some(v@),
                Ok(None) => visible_value(old(self).versions(), old(self).start_ts(), key@) is None,
                Err(_) => false,
            },
            final(self).versions() == old(self).versions(),
            final(self).locks() == old(self).locks(),
            final(self).start_ts() == old(self).start_ts(),
            final(self).get_stats() == old(self).get_stats().spec_add(
                Statistics { get: 1, seek: 0, next: 0, processed: 0 },
            ),
            old(self).wf() ==> final(self).wf(),
    {
        self.get_stats.get = self.get_stats.get.saturating_add(1);
        let ts = self.start_ts;
        Ok(self.get_at(key, ts))
    }

    /// The value of `key` that a read at `ts` sees.
    pub fn get_at(&self, key: &[u8], ts: u64) -> (r: Option<Vec<u8>>)
        ensures
            match r {
                Some(v) => visible_value(self.versions(), ts, key@) == Some(v@),
                None => visible_value(self.versions(), ts, key@) is None,
            },
    {
        let mut i: usize = self.versions.len();
        proof {
            assert(self.versions@.subrange(0, self.versions@.len() as int) =~= self.versions@);
        }
        while i > 0
            invariant
                i <= self.versions@.len(),
                visible_value(self.versions@, ts, key@) == visible_value(
                    self.versions@.subrange(0, i as int),
                    ts,
                    key@,
                ),
            decreases i,
        {
            let v = &self.versions[i - 1];
            proof {
                assert(self.versions@.subrange(0, i as int).drop_last() =~= self.versions@.subrange(0, i - 1));
            }
            if v.commit_ts <= ts && bytes_eq(v.key.as_slice(), key) {
                return Some(copy_bytes(&v.value));
            }
            i -= 1;
        }
        None
    }

    /// Hands out the lookup counters and resets them.
    pub fn incremental_get_take_statistics(&mut self) -> (r: Statistics)
        ensures
            r == old(self).get_stats(),
            final(self).get_stats().is_zero(),
            final(self).versions() == old(self).versions(),
            final(self).locks() == old(self).locks(),
            final(self).start_ts() == old(self).start_ts(),
            old(self).wf() ==> final(self).wf(),
    {
        let r = self.get_stats;
        self.get_stats = Statistics::new();
        r
    }

    /// A cursor over what this snapshot sees in `[lower, upper)`.
    pub fn scanner(&self, backward: bool, key_only: bool, lower: &[u8], upper: &[u8]) -> (r: Scanner)
        ensures
            r.pairs() == visible_pairs(self.versions(), self.start_ts(), lower@, upper@, key_only),
            r.pos() == 0,
            r.backward() == backward,
            r.statistics() == (Statistics { get: 0, seek: 1, next: 0, processed: 0 }),
    {
        let mut pairs: Vec<(Vec<u8>, Vec<u8>)> = Vec::new();
        let mut i: usize = 0;
        while i < self.versions.len()
            invariant
                i <= self.versions@.len(),
                pairs_view(pairs@) == visible_pairs(
                    self.versions@.subrange(0, i as int),
                    self.start_ts,
                    lower@,
                    upper@,
                    key_only,
                ),
            decreases self.versions@.len() - i,
        {
            let v = &self.versions[i];
            proof {
                assert(self.versions@.subrange(0, i + 1).drop_last() =~= self.versions@.subrange(0, i as int));
            }
            if v.commit_ts <= self.start_ts && !bytes_lt(v.key.as_slice(), lower) && bytes_lt(v.key.as_slice(), upper) {
                proof {
                    crate::codec::lemma_lex_total(lower@, v.key@);
                }
                let value = if key_only {
                    Vec::new()
                } else {
                    copy_bytes(&v.value)
                };
                pairs.push((copy_bytes(&v.key), value));
                proof {
                    assert(pairs_view(pairs@) =~= visible_pairs(
                        self.versions@.subrange(0, i + 1),
                        self.start_ts,
                        lower@,
                        upper@,
                        key_only,
                    ));
                }
            } else {
                proof {
                    crate::codec::lemma_lex_total(lower@, v.key@);
                    lemma_lex_irreflexive(v.key@);
                }
            }
            i += 1;
        }
        proof {
            assert(self.versions@.subrange(0, self.versions@.len() as int) =~= self.versions@);
        }
        Scanner {
            pairs,
            pos: 0,
            backward,
            statistics: Statistics { get: 0, seek: 1, next: 0, processed: 0 },
        }
    }

    /// Checks the locks of `[lower, upper)` once, then builds a forward batch
    /// cursor over it.
    pub fn build_range_scanner_forward(&self, key_only: bool, lower: &[u8], upper: &[u8]) -> (r: Result<
        Scanner,
        Error,
    >)
        ensures
            match first_conflicting_lock(self.locks(), self.start_ts(), lower@, upper@) {
                Some(i) => r is Err && r->Err_0 is KeyIsLocked && r->Err_0->KeyIsLocked_0@ == self.locks()[i].key@,
                None => r is Ok && r->Ok_0.pairs() == visible_pairs(
                    self.versions(),
                    self.start_ts(),
                    lower@,
                    upper@,
                    key_only,
                ) && r->Ok_0.pos() == 0 && !r->Ok_0.backward() && r->Ok_0.statistics() == (Statistics {
                    get: 0,
                    seek: 1,
                    next: 0,
                    processed: 0,
                }),
            },
    {
        let mut i: usize = 0;
        while i < self.locks.len()
            invariant
                i <= self.locks@.len(),
                first_conflicting_lock(self.locks@.subrange(0, i as int), self.start_ts, lower@, upper@) is None,
            decreases self.locks@.len() - i,
        {
            let l = &self.locks[i];
            proof {
                assert(self.locks@.subrange(0, i + 1).drop_last() =~= self.locks@.subrange(0, i as int));
                crate::codec::lemma_lex_total(lower@, l.key@);
                lemma_lex_irreflexive(l.key@);
            }
            if l.ts <= self.start_ts && !bytes_lt(l.key.as_slice(), lower) && bytes_lt(l.key.as_slice(), upper) {
                proof {
                    lemma_first_lock_prefix(self.locks@, i as int + 1, self.start_ts, lower@, upper@);
                }
                return Err(Error::KeyIsLocked(copy_bytes(&l.key)));
            }
            i += 1;
        }
        proof {
            assert(self.locks@.subrange(0, self.locks@.len() as int) =~= self.locks@);
        }
        Ok(self.scanner(false, key_only, lower, upper))
    }
}

/// No two versions hold the same key.
pub open spec fn keys_distinct(vs: Seq<Version>) -> bool {
    forall|i: int, j: int| 0 <= i < vs.len() && 0 <= j < vs.len() && i != j ==> #[trigger] vs[i].key@ != #[trigger] vs[j].key@
}

proof fn lemma_ascending_distinct(vs: Seq<Version>)
    requires
        forall|i: int, j: int| 0 <= i < j < vs.len() ==> lex_lt(#[trigger] vs[i].key@, #[trigger] vs[j].key@),
    ensures
        keys_distinct(vs),
{
    assert forall|i: int, j: int| 0 <= i < vs.len() && 0 <= j < vs.len() && i != j implies #[trigger] vs[i].key@
        != #[trigger] vs[j].key@ by {
        lemma_lex_irreflexive(vs[i].key@);
        if i < j {
            assert(lex_lt(vs[i].key@, vs[j].key@));
        } else {
            assert(lex_lt(vs[j].key@, vs[i].key@));
        }
    }
}

/// With distinct keys, what a read sees of `k` is the one version of `k`,
/// if it is old enough, and nothing when no version holds `k`.
proof fn lemma_visible_value_distinct(vs: Seq<Version>, ts: u64, k: Seq<u8>)
    requires
        keys_distinct(vs),
    ensures
        (forall|i: int| 0 <= i < vs.len() ==> vs[i].key@ != k) ==> visible_value(vs, ts, k) is None,
        forall|i: int|
            0 <= i < vs.len() && #[trigger] vs[i].key@ == k ==> visible_value(vs, ts, k) == if vs[i].commit_ts
                <= ts {
                Some(vs[i].value@)
            } else {
                None
            },
    decreases vs.len(),
{
    if vs.len() > 0 {
        let d = vs.drop_last();
        assert(keys_distinct(d)) by {
            assert forall|i: int, j: int| 0 <= i < d.len() && 0 <= j < d.len() && i != j implies #[trigger] d[i].key@
                != #[trigger] d[j].key@ by {
                assert(d[i] == vs[i] && d[j] == vs[j]);
            }
        }
        lemma_visible_value_distinct(d, ts, k);
        if vs.last().key@ == k {
            assert forall|i: int| 0 <= i < d.len() implies d[i].key@ != k by {
                assert(d[i] == vs[i]);
                assert(vs[i].key@ != vs[vs.len() - 1].key@);
            }
        }
        assert forall|i: int| 0 <= i < vs.len() - 1 && #[trigger] vs[i].key@ == k implies d[i].key@ == k by {
            assert(d[i] == vs[i]);
        }
    }
}

/// Reads after a version `new_vs[p]` replaced the one at `p`, or was
/// inserted at `p`: its key reads the new version, other keys read as before.
proof fn lemma_put_reads(old_vs: Seq<Version>, new_vs: Seq<Version>, p: int, replaced: bool, ts: u64, k: Seq<u8>)
    requires
        keys_distinct(old_vs),
        keys_distinct(new_vs),
        0 <= p < new_vs.len(),
        replaced ==> p < old_vs.len() && new_vs == old_vs.update(p, new_vs[p]) && old_vs[p].key@ == new_vs[p].key@,
        !replaced ==> p <= old_vs.len() && new_vs == old_vs.insert(p, new_vs[p]),
    ensures
        k == new_vs[p].key@ ==> visible_value(new_vs, ts, k) == if new_vs[p].commit_ts <= ts {
            Some(new_vs[p].value@)
        } else {
            None
        },
        k != new_vs[p].key@ ==> visible_value(new_vs, ts, k) == visible_value(old_vs, ts, k),
{
    lemma_visible_value_distinct(old_vs, ts, k);
    lemma_visible_value_distinct(new_vs, ts, k);
    if !replaced {
        old_vs.insert_ensures(p, new_vs[p]);
    }
    if k == new_vs[p].key@ {
        assert(new_vs[p].key@ == k);
    } else if exists|i: int| 0 <= i < old_vs.len() && old_vs[i].key@ == k {
        let i = choose|i: int| 0 <= i < old_vs.len() && old_vs[i].key@ == k;
        if replaced {
            assert(i != p);
        }
        let j = if replaced || i < p {
            i
        } else {
            i + 1
        };
        assert(new_vs[j] == old_vs[i]);
        assert(new_vs[j].key@ == k);
    } else {
        assert forall|j: int| 0 <= j < new_vs.len() implies new_vs[j].key@ != k by {
            if j != p {
                let i = if replaced || j < p {
                    j
                } else {
                    j - 1
                };
                assert(new_vs[j] == old_vs[i]);
            }
        }
    }
}

proof fn lemma_lex_total_for_put(a: Seq<u8>, k: Seq<u8>)
    requires
        !lex_lt(a, k),
        a != k,
    ensures
        lex_lt(k, a),
{
    crate::codec::lemma_lex_total(a, k);
}

proof fn lemma_first_lock_prefix(ls: Seq<Lock>, n: int, ts: u64, lower: Seq<u8>, upper: Seq<u8>)
    requires
        0 < n <= ls.len(),
        first_conflicting_lock(ls.subrange(0, n - 1), ts, lower, upper) is None,
        ls[n - 1].ts <= ts && in_range(ls[n - 1].key@, lower, upper),
    ensures
        first_conflicting_lock(ls, ts, lower, upper) == Some(n - 1),
    decreases ls.len(),
{
    if ls.len() > n {
        assert(ls.drop_last().subrange(0, n - 1) =~= ls.subrange(0, n - 1));
        lemma_first_lock_prefix(ls.drop_last(), n, ts, lower, upper);
    } else {
        assert(ls.drop_last() =~= ls.subrange(0, n - 1));
    }
}

/// A cursor over a materialised run of key-value pairs, walked from the
/// front or from the back.
pub struct Scanner {
    pairs: Vec<(Vec<u8>, Vec<u8>)>,
    pos: usize,
    backward: bool,
    statistics: Statistics,
}

impl Scanner {
    pub closed spec fn pairs(&self) -> Seq<(Seq<u8>, Seq<u8>)> {
        pairs_view(self.pairs@)
    }

    pub closed spec fn pos(&self) -> nat {
        self.pos as nat
    }

    pub closed spec fn backward(&self) -> bool {
        self.backward
    }

    pub closed spec fn statistics(&self) -> Statistics {
        self.statistics
    }

    pub open spec fn wf(&self) -> bool {
        self.pos() <= self.pairs().len()
    }

    /// The pair at step `i` of the walk.
    pub open spec fn nth(&self, i: int) -> (Seq<u8>, Seq<u8>) {
        if self.backward() {
            self.pairs()[self.pairs().len() - 1 - i]
        } else {
            self.pairs()[i]
        }
    }

    /// The next pair of the walk, if any.
    pub fn next(&mut self) -> (r: Result<Option<(Vec<u8>, Vec<u8>)>, Error>)
        requires
            old(self).wf(),
        ensures
            final(self).wf(),
            final(self).pairs() == old(self).pairs(),
            final(self).backward() == old(self).backward(),
            old(self).pos() < old(self).pairs().len() ==> {
                &&& r is Ok && r->Ok_0 is Some
                &&& r->Ok_0->Some_0.0@ == old(self).nth(old(self).pos() as int).0
                &&& r->Ok_0->Some_0.1@ == old(self).nth(old(self).pos() as int).1
                &&& final(self).pos() == old(self).pos() + 1
                &&& final(self).statistics() == old(self).statistics().spec_add(
                    Statistics { get: 0, seek: 0, next: 1, processed: 1 },
                )
            },
            old(self).pos() >= old(self).pairs().len() ==> {
                &&& r == Ok::<Option<(Vec<u8>, Vec<u8>)>, Error>(None)
                &&& final(self).pos() == old(self).pos()
                &&& final(self).statistics() == old(self).statistics().spec_add(
                    Statistics { get: 0, seek: 0, next: 1, processed: 0 },
                )
            },
    {
        let n = self.pairs.len();
        if self.pos >= n {
            self.statistics.next = self.statistics.next.saturating_add(1);
            return Ok(None);
        }
        let idx = if self.backward {
            n - 1 - self.pos
        } else {
            self.pos
        };
        let k = copy_bytes(&self.pairs[idx].0);
        let v = copy_bytes(&self.pairs[idx].1);
        self.pos = self.pos + 1;
        self.statistics.next = self.statistics.next.saturating_add(1);
        self.statistics.processed = self.statistics.processed.saturating_add(1);
        Ok(Some((k, v)))
    }

    /// Appends up to `n` pairs of the walk to `out_keys` and `out_values`,
    /// returning how many; fewer than `n` means the range is exhausted.
    pub fn next_batch(&mut self, n: usize, out_keys: &mut Vec<Vec<u8>>, out_values: &mut Vec<Vec<u8>>) -> (r: Result<usize, Error>)
        requires
            old(self).wf(),
        ensures
            final(self).wf(),
            final(self).pairs() == old(self).pairs(),
            final(self).backward() == old(self).backward(),
            r is Ok,
            r->Ok_0 == if old(self).pos() + n <= old(self).pairs().len() {
                n as int
            } else {
                old(self).pairs().len() - old(self).pos()
            },
            final(self).pos() == old(self).pos() + r->Ok_0,
            final(out_keys)@.len() == old(out_keys)@.len() + r->Ok_0,
            final(out_values)@.len() == old(out_values)@.len() + r->Ok_0,
            forall|i: int| 0 <= i < old(out_keys)@.len() ==> #[trigger] final(out_keys)@[i] == old(out_keys)@[i],
            forall|i: int| 0 <= i < old(out_values)@.len() ==> #[trigger] final(out_values)@[i] == old(out_values)@[i],
            forall|i: int|
                0 <= i < r->Ok_0 ==> (#[trigger] final(out_keys)@[old(out_keys)@.len() + i])@ == old(self).nth(
                    old(self).pos() + i,
                ).0 && final(out_values)@[old(out_values)@.len() + i]@ == old(self).nth(old(self).pos() + i).1,
    {
        let ghost start = self.pos as int;
        let ghost k0 = out_keys@.len();
        let ghost v0 = out_values@.len();
        let mut got: usize = 0;
        while got < n && self.pos < self.pairs.len()
            invariant
                self.wf(),
                self.pos == start + got,
                got <= n,
                self.pairs() == old(self).pairs(),
                self.backward() == old(self).backward(),
                out_keys@.len() == k0 + got,
                out_values@.len() == v0 + got,
                forall|i: int| 0 <= i < k0 ==> #[trigger] out_keys@[i] == old(out_keys)@[i],
                forall|i: int| 0 <= i < v0 ==> #[trigger] out_values@[i] == old(out_values)@[i],
                forall|i: int|
                    0 <= i < got ==> (#[trigger] out_keys@[k0 + i])@ == old(self).nth(start + i).0
                        && out_values@[v0 + i]@ == old(self).nth(start + i).1,
            decreases n - got,
        {
            let len = self.pairs.len();
            let idx = if self.backward {
                len - 1 - self.pos
            } else {
                self.pos
            };
            let ghost pk = out_keys@;
            let ghost pv = out_values@;
            out_keys.push(copy_bytes(&self.pairs[idx].0));
            out_values.push(copy_bytes(&self.pairs[idx].1));
            proof {
                assert forall|t: int| 0 <= t < pk.len() implies out_keys@[t] == pk[t] by {}
                assert forall|t: int| 0 <= t < pv.len() implies out_values@[t] == pv[t] by {}
                assert(self.pairs@[idx as int].0@ == self.pairs()[idx as int].0);
                assert(self.pairs@[idx as int].1@ == self.pairs()[idx as int].1);
                assert(out_keys@[k0 + got]@ == old(self).nth(start + got).0);
                assert(out_values@[v0 + got]@ == old(self).nth(start + got).1);
            }
            self.pos = self.pos + 1;
            self.statistics.next = self.statistics.next.saturating_add(1);
            self.statistics.processed = self.statistics.processed.saturating_add(1);
            got += 1;
            proof {
                assert forall|i: int| 0 <= i < got implies (#[trigger] out_keys@[k0 + i])@ == old(self).nth(
                    start + i,
                ).0 && out_values@[v0 + i]@ == old(self).nth(start + i).1 by {
                    if i < got - 1 {
                        assert(out_keys@[k0 + i] == pk[k0 + i]);
                        assert(out_values@[v0 + i] == pv[v0 + i]);
                    }
                }
            }
        }
        proof {
            assert(k0 == old(out_keys)@.len() && v0 == old(out_values)@.len());
            assert(start == old(self).pos());
            assert forall|i: int| 0 <= i < got implies (#[trigger] out_keys@[old(out_keys)@.len() + i])@
                == old(self).nth(old(self).pos() + i).0 && out_values@[old(out_values)@.len() + i]@
                == old(self).nth(old(self).pos() + i).1 by {
                assert(out_keys@[k0 + i]@ == old(self).nth(start + i).0);
            }
        }
        Ok(got)
    }

    /// Hands out the counters and resets them.
    pub fn take_statistics(&mut self) -> (r: Statistics)
        ensures
            r == old(self).statistics(),
            final(self).statistics().is_zero(),
            final(self).pairs() == old(self).pairs(),
            final(self).pos() == old(self).pos(),
            final(self).backward() == old(self).backward(),
    {
        let r = self.statistics;
        self.statistics = Statistics::new();
        r
    }
}

} // verus!

//! The storage adapter that query operators read through: cursor scans,
//! batched forward scans with an eager lock check, point reads, and
//! statistics that are counted once per access.

use vstd::prelude::*;
use crate::errors::Error;
use crate::storage::{
    Statistics, SnapshotStore, Scanner, IntervalRange, visible_pairs, visible_value,
    first_conflicting_lock, lemma_add_zero_statistics,
};

verus! {

/// The counters of a cursor that may be absent.
pub open spec fn stats_of(s: Option<Scanner>) -> Statistics {
    match s {
        Some(sc) => sc.statistics(),
        None => Statistics { get: 0, seek: 0, next: 0, processed: 0 },
    }
}

/// The cursor `after` is the cursor `before`, at the same pairs and
/// position, with its counters drained; or both are absent.
pub open spec fn kept_drained(before: Option<Scanner>, after: Option<Scanner>) -> bool {
    &&& (after is Some <==> before is Some)
    &&& before matches Some(o) ==> (after matches Some(s) && s.pairs() == o.pairs() && s.pos()
        == o.pos() && s.backward() == o.backward() && s.wf() == o.wf() && s.statistics().is_zero())
}

/// An adapter over one snapshot, owned by one request.
pub struct TiKVStorage {
    store: SnapshotStore,
    scanner: Option<Scanner>,
    range_scanner: Option<Scanner>,
    cf_stats_backlog: Statistics,
}

impl TiKVStorage {
    pub closed spec fn store(&self) -> SnapshotStore {
        self.store
    }

    pub closed spec fn scanner(&self) -> Option<Scanner> {
        self.scanner
    }

    pub closed spec fn range_scanner(&self) -> Option<Scanner> {
        self.range_scanner
    }

    pub closed spec fn backlog(&self) -> Statistics {
        self.cf_stats_backlog
    }

    pub open spec fn wf(&self) -> bool {
        &&& self.store().wf()
        &&& (self.scanner() matches Some(s) ==> s.wf())
        &&& (self.range_scanner() matches Some(s) ==> s.wf())
    }

    /// Counters of accesses made since the last drain, as a drain adds them.
    pub open spec fn uncollected(&self) -> Statistics {
        self.backlog().spec_add(self.store().get_stats()).spec_add(stats_of(self.scanner())).spec_add(
            stats_of(self.range_scanner()),
        )
    }

    pub fn new(store: SnapshotStore) -> (r: TiKVStorage)
        requires
            store.wf(),
        ensures
            r.wf(),
            r.store() == store,
            r.scanner() is None,
            r.range_scanner() is None,
            r.backlog().is_zero(),
    {
        TiKVStorage { store, scanner: None, range_scanner: None, cf_stats_backlog: Statistics::new() }
    }

    /// Replaces the cursor by one over `range`, walked backwards when
    /// `is_backward_scan`; the counters of the cursor it replaces go to the
    /// backlog.
    pub fn begin_scan(&mut self, is_backward_scan: bool, is_key_only: bool, range: IntervalRange) -> (r: Result<(), Error>)
        requires
            old(self).wf(),
        ensures
            r is Ok,
            final(self).wf(),
            final(self).store() == old(self).store(),
            final(self).range_scanner() == old(self).range_scanner(),
            final(self).backlog() == old(self).backlog().spec_add(stats_of(old(self).scanner())),
            final(self).scanner() matches Some(s) && s.pairs() == visible_pairs(
                old(self).store().versions(),
                old(self).store().start_ts(),
                range.lower_inclusive@,
                range.upper_exclusive@,
                is_key_only,
            ) && s.pos() == 0 && s.backward() == is_backward_scan && s.statistics() == (Statistics {
                get: 0,
                seek: 1,
                next: 0,
                processed: 0,
            }),
    {
        if let Some(scanner) = &mut self.scanner {
            let st = scanner.take_statistics();
            self.cf_stats_backlog.add(&st);
        }
        let s = self.store.scanner(
            is_backward_scan,
            is_key_only,
            range.lower_inclusive.as_slice(),
            range.upper_exclusive.as_slice(),
        );
        self.scanner = Some(s);
        Ok(())
    }

    /// The next pair of the cursor, with its key in user form.
    pub fn scan_next(&mut self) -> (r: Result<Option<(Vec<u8>, Vec<u8>)>, Error>)
        requires
            old(self).wf(),
            old(self).scanner() is Some,
        ensures
            final(self).wf(),
            final(self).store() == old(self).store(),
            final(self).range_scanner() == old(self).range_scanner(),
            final(self).backlog() == old(self).backlog(),
            ({
                let s0 = old(self).scanner()->Some_0;
                let s1 = final(self).scanner()->Some_0;
                &&& final(self).scanner() is Some
                &&& s1.pairs() == s0.pairs()
                &&& s1.backward() == s0.backward()
                &&& s0.pos() < s0.pairs().len() ==> {
                    &&& r is Ok && r->Ok_0 is Some
                    &&& r->Ok_0->Some_0.0@ == s0.nth(s0.pos() as int).0
                    &&& r->Ok_0->Some_0.1@ == s0.nth(s0.pos() as int).1
                    &&& s1.pos() == s0.pos() + 1
                }
                &&& s0.pos() >= s0.pairs().len() ==> r == Ok::<Option<(Vec<u8>, Vec<u8>)>, Error>(None)
                    && s1.pos() == s0.pos()
            }),
    {
        let mut s = self.scanner.take().unwrap();
        let r = s.next();
        self.scanner = Some(s);
        r
    }

    /// Replaces the batch cursor by a forward one over `range`, after
    /// checking the range's locks once: the first lock that a read at the
    /// snapshot's timestamp must wait for fails the call.
    pub fn begin_range_scan(&mut self, is_key_only: bool, range: IntervalRange) -> (r: Result<(), Error>)
        requires
            old(self).wf(),
        ensures
            final(self).wf(),
            final(self).store() == old(self).store(),
            final(self).scanner() == old(self).scanner(),
            final(self).backlog() == old(self).backlog().spec_add(stats_of(old(self).range_scanner())),
            match first_conflicting_lock(
                old(self).store().locks(),
                old(self).store().start_ts(),
                range.lower_inclusive@,
                range.upper_exclusive@,
            ) {
                Some(i) => r is Err && r->Err_0 is KeyIsLocked && r->Err_0->KeyIsLocked_0@
                    == old(self).store().locks()[i].key@ && kept_drained(
                    old(self).range_scanner(),
                    final(self).range_scanner(),
                ),
                None => r is Ok && (final(self).range_scanner() matches Some(s) && s.pairs()
                    == visible_pairs(
                    old(self).store().versions(),
                    old(self).store().start_ts(),
                    range.lower_inclusive@,
                    range.upper_exclusive@,
                    is_key_only,
                ) && s.pos() == 0 && !s.backward()),
            },
    {
        if let Some(range_scanner) = &mut self.range_scanner {
            let st = range_scanner.take_statistics();
            self.cf_stats_backlog.add(&st);
        }
        let s = self.store.build_range_scanner_forward(
            is_key_only,
            range.lower_inclusive.as_slice(),
            range.upper_exclusive.as_slice(),
        );
        match s {
            Ok(s) => {
                self.range_scanner = Some(s);
                Ok(())
            },
            Err(e) => Err(e),
        }
    }

    /// Appends up to `n` pairs of the batch cursor to `out_keys` and
    /// `out_values` and returns how many; fewer than `n` means the end of
    /// the range.
    pub fn range_scan_next_batch(&mut self, n: usize, out_keys: &mut Vec<Vec<u8>>, out_values: &mut Vec<Vec<u8>>) -> (r: Result<usize, Error>)
        requires
            old(self).wf(),
            old(self).range_scanner() is Some,
        ensures
            final(self).wf(),
            final(self).store() == old(self).store(),
            final(self).scanner() == old(self).scanner(),
            final(self).backlog() == old(self).backlog(),
            ({
                let s0 = old(self).range_scanner()->Some_0;
                let s1 = final(self).range_scanner()->Some_0;
                &&& final(self).range_scanner() is Some
                &&& s1.pairs() == s0.pairs()
                &&& r is Ok
                &&& r->Ok_0 == if s0.pos() + n <= s0.pairs().len() {
                    n as int
                } else {
                    s0.pairs().len() - s0.pos()
                }
                &&& s1.pos() == s0.pos() + r->Ok_0
                &&& final(out_keys)@.len() == old(out_keys)@.len() + r->Ok_0
                &&& final(out_values)@.len() == old(out_values)@.len() + r->Ok_0
                &&& forall|i: int|
                    0 <= i < old(out_keys)@.len() ==> #[trigger] final(out_keys)@[i] == old(out_keys)@[i]
                &&& forall|i: int|
                    0 <= i < old(out_values)@.len() ==> #[trigger] final(out_values)@[i] == old(
                        out_values,
                    )@[i]
                &&& forall|i: int|
                    0 <= i < r->Ok_0 ==> (#[trigger] final(out_keys)@[old(out_keys)@.len() + i])@
                        == s0.nth(s0.pos() + i).0 && final(out_values)@[old(out_values)@.len() + i]@
                        == s0.nth(s0.pos() + i).1
            }),
    {
        let mut s = self.range_scanner.take().unwrap();
        let r = s.next_batch(n, out_keys, out_values);
        self.range_scanner = Some(s);
        r
    }

    /// Reads one key: the pair, when the snapshot holds a value for it.
    pub fn get(&mut self, _is_key_only: bool, point: Vec<u8>) -> (r: Result<Option<(Vec<u8>, Vec<u8>)>, Error>)
        requires
            old(self).wf(),
        ensures
            final(self).wf(),
            final(self).scanner() == old(self).scanner(),
            final(self).range_scanner() == old(self).range_scanner(),
            final(self).backlog() == old(self).backlog(),
            final(self).store().versions() == old(self).store().versions(),
            final(self).store().locks() == old(self).store().locks(),
            final(self).store().start_ts() == old(self).store().start_ts(),
            final(self).store().get_stats() == old(self).store().get_stats().spec_add(
                Statistics { get: 1, seek: 0, next: 0, processed: 0 },
            ),
            match visible_value(old(self).store().versions(), old(self).store().start_ts(), point@) {
                Some(v) => r is Ok && r->Ok_0 is Some && r->Ok_0->Some_0.0@ == point@
                    && r->Ok_0->Some_0.1@ == v,
                None => r is Ok && r->Ok_0 is None,
            },
    {
        let value = self.store.incremental_get(point.as_slice());
        match value {
            Ok(Some(v)) => Ok(Some((point, v))),
            Ok(None) => Ok(None),
            Err(e) => Err(e),
        }
    }

    /// Adds every count not yet reported (the backlog, the point reads and
    /// the live cursors) into `dest`, and resets them all.
    pub fn collect_statistics(&mut self, dest: &mut Statistics)
        requires
            old(self).wf(),
        ensures
            final(self).wf(),
            *final(dest) == old(dest).spec_add(old(self).uncollected()),
            final(self).uncollected().is_zero(),
            final(self).store().versions() == old(self).store().versions(),
            final(self).store().locks() == old(self).store().locks(),
            final(self).store().start_ts() == old(self).store().start_ts(),
            kept_drained(old(self).scanner(), final(self).scanner()),
            kept_drained(old(self).range_scanner(), final(self).range_scanner()),
    {
        let st = self.store.incremental_get_take_statistics();
        self.cf_stats_backlog.add(&st);
        if let Some(scanner) = &mut self.scanner {
            let st = scanner.take_statistics();
            self.cf_stats_backlog.add(&st);
        }
        if let Some(range_scanner) = &mut self.range_scanner {
            let st = range_scanner.take_statistics();
            self.cf_stats_backlog.add(&st);
        }
        dest.add(&self.cf_stats_backlog);
        self.cf_stats_backlog = Statistics::new();
    }
}

/// Draining an adapter that has not been used since its last drain adds
/// nothing: a second `collect_statistics` leaves the destination as it was.
pub proof fn lemma_collect_statistics_idempotent(s: TiKVStorage, dest: Statistics)
    requires
        s.uncollected().is_zero(),
    ensures
        dest.spec_add(s.uncollected()) == dest,
{
    lemma_add_zero_statistics(dest, s.uncollected());
}

} // verus!

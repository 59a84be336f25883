//! Lifecycle coordinator: orchestrates sweeps of the expiring-record store,
//! keeps an append-only audit log of cleanup runs, reports statistics
//! counted against a single shared instant, and suggests the next sweep
//! time. Every call is a complete, independent unit of work.
use vstd::prelude::*;

use crate::flush_memo::FlushMemoStore;
use crate::flush_memo::active_records;
use crate::flush_memo::expired_count;

verus! {

/// One audit entry: how many rows a cleanup run deleted, and when it ran.
/// Entries are appended by cleanup runs and never mutated or deleted.
#[derive(Clone, Copy, Debug, PartialEq, Eq, Structural)]
pub struct CleanupLogEntry {
    pub cleaned_count: u64,
    pub run_time: i64,
}

/// Statistics over the expiring-record store, every number counted against
/// one shared instant so they are mutually consistent.
#[derive(Clone, Copy, Debug)]
pub struct CleanupStatistics {
    pub total_count: i64,
    pub expired_count: i64,
    pub active_count: i64,
    pub last_cleanup: Option<i64>,
}

/// The audit log is ordered by run time, oldest first; runs logged at the
/// same instant keep their insertion order.
pub open spec fn logs_sorted(s: Seq<CleanupLogEntry>) -> bool {
    forall|i: int, j: int| 0 <= i < j < s.len() ==> s[i].run_time <= s[j].run_time
}

/// The most recent `limit` audit entries, newest first.
pub open spec fn spec_history(s: Seq<CleanupLogEntry>, limit: int) -> Seq<CleanupLogEntry>
    decreases s.len(),
{
    if s.len() == 0 || limit <= 0 {
        Seq::empty()
    } else {
        seq![s.last()] + spec_history(s.drop_last(), limit - 1)
    }
}

/// Inserting an entry at the run-time boundary keeps the log ordered.
proof fn lemma_insert_log_sorted(s: Seq<CleanupLogEntry>, p: int, e: CleanupLogEntry)
    requires
        0 <= p <= s.len(),
        logs_sorted(s),
        forall|q: int| 0 <= q < p ==> (#[trigger] s[q]).run_time <= e.run_time,
        forall|q: int| p <= q < s.len() ==> (#[trigger] s[q]).run_time > e.run_time,
    ensures
        logs_sorted(s.insert(p, e)),
{
    s.insert_ensures(p, e);
    let r = s.insert(p, e);
    assert forall|a: int, b: int| 0 <= a < b < r.len() implies r[a].run_time <= r[b].run_time by {
        if a < p {
            assert(r[a] == s[a]);
        } else if a == p {
            assert(r[a] == e);
        } else {
            assert(r[a] == s[a - 1]);
        }
        if b < p {
            assert(r[b] == s[b]);
        } else if b == p {
            assert(r[b] == e);
        } else {
            assert(r[b] == s[b - 1]);
        }
    }
}

/// The coordinator: holds the sweep-interval configuration and the audit
/// log. The store it sweeps is handed to each call, and each call is an
/// atomic unit: a run that cannot complete appends no audit entry.
pub struct CleanupService {
    cleanup_interval: i64,
    logs: Vec<CleanupLogEntry>,
}

impl CleanupService {
    /// The configured interval between suggested cleanup runs, in
    /// milliseconds.
    pub closed spec fn interval(self) -> i64 {
        self.cleanup_interval
    }

    /// The audit log as a sequence, oldest run first.
    pub closed spec fn logs_view(self) -> Seq<CleanupLogEntry> {
        self.logs@
    }

    /// Coordinator invariant: a positive interval and an ordered log.
    pub open spec fn wf(self) -> bool {
        &&& self.interval() > 0
        &&& logs_sorted(self.logs_view())
    }

    pub fn new(cleanup_interval: i64) -> (svc: CleanupService)
        requires
            cleanup_interval > 0,
        ensures
            svc.wf(),
            svc.interval() == cleanup_interval,
            svc.logs_view() == Seq::<CleanupLogEntry>::empty(),
    {
        CleanupService { cleanup_interval, logs: Vec::new() }
    }

    /// Append one audit entry, keeping the log ordered by run time; an
    /// entry logged at an already-seen instant goes after its equals.
    pub fn log_cleanup_run(&mut self, cleaned_count: u64, run_time: i64)
        requires
            old(self).wf(),
        ensures
            final(self).wf(),
            final(self).interval() == old(self).interval(),
            exists|p: int|
                {
                    &&& 0 <= p <= old(self).logs_view().len()
                    &&& final(self).logs_view() == #[trigger] old(self).logs_view().insert(
                        p,
                        (CleanupLogEntry { cleaned_count, run_time }),
                    )
                    &&& forall|q: int|
                        0 <= q < p ==> (#[trigger] old(self).logs_view()[q]).run_time <= run_time
                    &&& forall|q: int|
                        p <= q < old(self).logs_view().len() ==> (#[trigger] old(
                            self,
                        ).logs_view()[q]).run_time > run_time
                },
    {
        let n = self.logs.len();
        let mut p: usize = 0;
        while p < n && self.logs[p].run_time <= run_time
            invariant
                self.logs@ == old(self).logs@,
                self.cleanup_interval == old(self).cleanup_interval,
                old(self).wf(),
                n == self.logs@.len(),
                0 <= p <= n,
                forall|q: int| 0 <= q < p ==> (#[trigger] self.logs@[q]).run_time <= run_time,
            decreases n - p,
        {
            p += 1;
        }
        proof {
            assert forall|q: int| p <= q < n implies (#[trigger] self.logs@[q]).run_time
                > run_time by {
                if p < n {
                    assert(self.logs@[p as int].run_time > run_time);
                    if q > p {
                        assert(self.logs@[p as int].run_time <= self.logs@[q].run_time);
                    }
                }
            }
        }
        let e = CleanupLogEntry { cleaned_count, run_time };
        self.logs.insert(p, e);
        proof {
            lemma_insert_log_sorted(old(self).logs_view(), p as int, e);
        }
    }

    /// Run a sweep of the store against the single snapshot `now`, then
    /// append one audit entry for the run. Returns how many rows the sweep
    /// deleted. The in-memory store cannot fail partway, so exactly one
    /// entry is appended per completed run.
    pub fn cleanup_expired_flush_memos(&mut self, store: &mut FlushMemoStore, now: i64) -> (r: u64)
        requires
            old(self).wf(),
            old(store).wf(),
        ensures
            final(self).wf(),
            final(store).wf(),
            final(self).interval() == old(self).interval(),
            final(store).ttl() == old(store).ttl(),
            final(store).records_view() == active_records(old(store).records_view(), now),
            r == expired_count(old(store).records_view(), now),
            exists|p: int|
                {
                    &&& 0 <= p <= old(self).logs_view().len()
                    &&& final(self).logs_view() == #[trigger] old(self).logs_view().insert(
                        p,
                        (CleanupLogEntry { cleaned_count: r, run_time: now }),
                    )
                    &&& forall|q: int|
                        0 <= q < p ==> (#[trigger] old(self).logs_view()[q]).run_time <= now
                    &&& forall|q: int|
                        p <= q < old(self).logs_view().len() ==> (#[trigger] old(
                            self,
                        ).logs_view()[q]).run_time > now
                },
    {
        let count = store.cleanup_expired(now);
        self.log_cleanup_run(count, now);
        count
    }

    /// Count what a sweep at `now` would delete, deleting nothing. A real
    /// sweep run later may find a larger count if time has advanced.
    pub fn cleanup_expired_flush_memos_dry_run(&self, store: &FlushMemoStore, now: i64) -> (r: u64)
        requires
            store.wf(),
        ensures
            r == expired_count(store.records_view(), now),
    {
        store.count_expired(now) as u64
    }

    /// Statistics over the store, with total and expired both counted
    /// against the one `now`, so `active = total - expired` is consistent;
    /// and the run time of the most recent cleanup, if any ran.
    pub fn get_cleanup_statistics(&self, store: &FlushMemoStore, now: i64) -> (r: CleanupStatistics)
        requires
            self.wf(),
            store.wf(),
            store.records_view().len() <= i64::MAX,
        ensures
            r.total_count == store.records_view().len(),
            r.expired_count == expired_count(store.records_view(), now),
            r.active_count == r.total_count - r.expired_count,
            r.last_cleanup == (if self.logs_view().len() == 0 {
                Option::<i64>::None
            } else {
                Option::<i64>::Some(self.logs_view().last().run_time)
            }),
    {
        let total = store.count_all() as i64;
        let expired = store.count_expired(now) as i64;
        let last_cleanup = if self.logs.len() == 0 {
            None
        } else {
            Some(self.logs[self.logs.len() - 1].run_time)
        };
        CleanupStatistics {
            total_count: total,
            expired_count: expired,
            active_count: total - expired,
            last_cleanup,
        }
    }

    /// A scheduling hint only: one cleanup interval after `now`. No timer is
    /// run here; an external scheduler decides when to call the sweep.
    pub fn get_next_cleanup_time(&self, now: i64) -> (r: i64)
        requires
            self.wf(),
            now + self.interval() <= i64::MAX,
        ensures
            r == now + self.interval(),
    {
        now + self.cleanup_interval
    }

    /// The most recent `limit` audit entries, newest first.
    pub fn get_cleanup_history(&self, limit: i64) -> (r: Vec<CleanupLogEntry>)
        requires
            self.wf(),
        ensures
            r@ == spec_history(self.logs_view(), limit as int),
    {
        let s = &self.logs;
        let n = s.len();
        let mut out: Vec<CleanupLogEntry> = Vec::new();
        let mut remaining: i64 = limit;
        proof {
            assert(s@.take(n as int) =~= s@);
            assert(Seq::<CleanupLogEntry>::empty() + spec_history(s@.take(n as int), limit as int)
                =~= spec_history(s@, limit as int));
        }
        let mut i: usize = n;
        while i > 0 && remaining > 0
            invariant
                n == s@.len(),
                0 <= i <= n,
                remaining == limit - out@.len(),
                remaining >= 0 || out@.len() == 0,
                spec_history(s@, limit as int) == out@ + spec_history(
                    s@.take(i as int),
                    remaining as int,
                ),
            decreases i,
        {
            i -= 1;
            let ghost prefix = s@.take(i as int + 1);
            let ghost pre_out = out@;
            proof {
                assert(prefix.last() == s@[i as int]);
                assert(prefix.drop_last() =~= s@.take(i as int));
            }
            out.push(s[i]);
            remaining -= 1;
            proof {
                assert(spec_history(prefix, (remaining + 1) as int) == seq![s@[i as int]]
                    + spec_history(s@.take(i as int), remaining as int));
                assert(pre_out + (seq![s@[i as int]] + spec_history(
                    s@.take(i as int),
                    remaining as int,
                )) =~= out@ + spec_history(s@.take(i as int), remaining as int));
            }
        }
        proof {
            if i == 0 {
                assert(s@.take(0) =~= Seq::<CleanupLogEntry>::empty());
            }
            assert(spec_history(s@.take(i as int), remaining as int) =~= Seq::<
                CleanupLogEntry,
            >::empty());
            assert(out@ + Seq::<CleanupLogEntry>::empty() =~= out@);
        }
        out
    }

    /// Delete every row of the store, expired or not, then append one audit
    /// entry for the run. For operator use; returns how many rows went.
    pub fn force_cleanup_all_flush_memos(&mut self, store: &mut FlushMemoStore, now: i64) -> (r:
        u64)
        requires
            old(self).wf(),
            old(store).wf(),
        ensures
            final(self).wf(),
            final(store).wf(),
            final(self).interval() == old(self).interval(),
            final(store).ttl() == old(store).ttl(),
            final(store).records_view() == Seq::<crate::flush_memo::FlushMemo>::empty(),
            r == old(store).records_view().len(),
            exists|p: int|
                {
                    &&& 0 <= p <= old(self).logs_view().len()
                    &&& final(self).logs_view() == #[trigger] old(self).logs_view().insert(
                        p,
                        (CleanupLogEntry { cleaned_count: r, run_time: now }),
                    )
                    &&& forall|q: int|
                        0 <= q < p ==> (#[trigger] old(self).logs_view()[q]).run_time <= now
                    &&& forall|q: int|
                        p <= q < old(self).logs_view().len() ==> (#[trigger] old(
                            self,
                        ).logs_view()[q]).run_time > now
                },
    {
        let count = store.clear_all();
        self.log_cleanup_run(count, now);
        count
    }
}

} // verus!

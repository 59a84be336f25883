//! Durable-style store of expiring records: rows carry an owner, a payload
//! and a server-computed expiry; every read enforces expiry against the
//! caller's single `now`, and a sweep removes every lapsed row against one
//! snapshot instant.
use vstd::prelude::*;

use crate::MemoError;
use crate::ids::fresh_id;
use crate::text::trim_ends;
use crate::text::trimmed;

verus! {

/// One expiring record. `expires_at` is always `created_at` plus the store's
/// record lifetime, computed by the store and never accepted from a caller.
pub struct FlushMemo {
    pub id: String,
    pub user_id: String,
    pub content: String,
    pub created_at: i64,
    pub expires_at: i64,
}

impl FlushMemo {
    /// Visible exactly on the instants strictly before `expires_at`.
    pub open spec fn active_at(self, now: i64) -> bool {
        self.expires_at > now
    }

    /// Expired exactly once `now` has reached `expires_at`.
    pub fn is_expired(&self, now: i64) -> (r: bool)
        ensures
            r == !self.active_at(now),
    {
        now >= self.expires_at
    }

    /// Milliseconds left until expiry, or nothing once the record has
    /// lapsed.
    pub fn time_until_expiry(&self, now: i64) -> (r: Option<i64>)
        requires
            self.active_at(now) ==> self.expires_at - now <= i64::MAX,
        ensures
            self.active_at(now) ==> r == Some((self.expires_at - now) as i64),
            !self.active_at(now) ==> r is None,
    {
        if now >= self.expires_at {
            None
        } else {
            Some(self.expires_at - now)
        }
    }
}

impl Clone for FlushMemo {
    fn clone(&self) -> (r: FlushMemo)
        ensures
            r == *self,
    {
        FlushMemo {
            id: self.id.clone(),
            user_id: self.user_id.clone(),
            content: self.content.clone(),
            created_at: self.created_at,
            expires_at: self.expires_at,
        }
    }
}

/// Record ids are pairwise distinct.
pub open spec fn ids_unique(s: Seq<FlushMemo>) -> bool {
    forall|i: int, j: int| 0 <= i < j < s.len() ==> s[i].id@ != s[j].id@
}

/// The rows are ordered by creation instant, oldest first; rows created at
/// the same instant keep their insertion order.
pub open spec fn sorted_by_creation(s: Seq<FlushMemo>) -> bool {
    forall|i: int, j: int| 0 <= i < j < s.len() ==> s[i].created_at <= s[j].created_at
}

/// Every row's expiry is its creation instant plus the store's record
/// lifetime.
pub open spec fn memos_wf(s: Seq<FlushMemo>, record_ttl: i64) -> bool {
    forall|i: int|
        0 <= i < s.len() ==> (#[trigger] s[i]).expires_at == s[i].created_at + record_ttl
}

/// The predicate a sweep keeps: the record is still visible at the sweep's
/// single `now` snapshot.
pub open spec fn active_memo(now: i64) -> spec_fn(FlushMemo) -> bool {
    |m: FlushMemo| m.active_at(now)
}

/// The rows a sweep at `now` would keep.
pub open spec fn active_records(s: Seq<FlushMemo>, now: i64) -> Seq<FlushMemo> {
    s.filter(active_memo(now))
}

/// How many rows a sweep at `now` would delete.
pub open spec fn expired_count(s: Seq<FlushMemo>, now: i64) -> int {
    s.len() - active_records(s, now).len()
}

/// The row at index `i` carries id `id` and belongs to `u`.
pub open spec fn owned_at(s: Seq<FlushMemo>, i: int, id: Seq<char>, u: Seq<char>) -> bool {
    0 <= i < s.len() && s[i].id@ == id && s[i].user_id@ == u
}

/// Some row carries id `id` and belongs to `u`.
pub open spec fn has_owned(s: Seq<FlushMemo>, id: Seq<char>, u: Seq<char>) -> bool {
    exists|i: int| owned_at(s, i, id, u)
}

/// The index of the row carrying id `id` owned by `u`; meaningful when
/// `has_owned` holds, and then unique because ids are unique.
pub open spec fn owned_index(s: Seq<FlushMemo>, id: Seq<char>, u: Seq<char>) -> int {
    choose|i: int| owned_at(s, i, id, u)
}

/// What an owner's listing returns: the rows belonging to `u` and still
/// visible at `now`, newest creation first; rows created at the same instant
/// come most recently inserted first.
pub open spec fn active_for(m: FlushMemo, u: Seq<char>, now: i64) -> bool {
    m.user_id@ == u && m.active_at(now)
}

/// The listing of `s` for owner `u` at `now`, newest first.
pub open spec fn spec_list_active(s: Seq<FlushMemo>, u: Seq<char>, now: i64) -> Seq<FlushMemo>
    decreases s.len(),
{
    if s.len() == 0 {
        Seq::empty()
    } else if active_for(s.last(), u, now) {
        seq![s.last()] + spec_list_active(s.drop_last(), u, now)
    } else {
        spec_list_active(s.drop_last(), u, now)
    }
}

/// With unique ids, any index carrying `(id, u)` is the index `owned_index`
/// picks.
pub proof fn lemma_owned_index_unique(s: Seq<FlushMemo>, i: int, id: Seq<char>, u: Seq<char>)
    requires
        ids_unique(s),
        owned_at(s, i, id, u),
    ensures
        has_owned(s, id, u),
        owned_index(s, id, u) == i,
{
    assert(has_owned(s, id, u));
    let j = owned_index(s, id, u);
    assert(owned_at(s, j, id, u));
    if i < j {
        assert(s[i].id@ != s[j].id@);
    } else if j < i {
        assert(s[j].id@ != s[i].id@);
    }
}

/// Removing one row keeps the store invariant.
proof fn lemma_remove_memo_wf(s: Seq<FlushMemo>, i: int, record_ttl: i64)
    requires
        0 <= i < s.len(),
        ids_unique(s),
        sorted_by_creation(s),
        memos_wf(s, record_ttl),
    ensures
        ids_unique(s.remove(i)),
        sorted_by_creation(s.remove(i)),
        memos_wf(s.remove(i), record_ttl),
{
    s.remove_ensures(i);
    let r = s.remove(i);
    assert forall|a: int, b: int| 0 <= a < b < r.len() implies r[a].id@ != r[b].id@
        && r[a].created_at <= r[b].created_at by {
        let a0 = if a < i { a } else { a + 1 };
        let b0 = if b < i { b } else { b + 1 };
        assert(r[a] == s[a0]);
        assert(r[b] == s[b0]);
    }
    assert forall|a: int| 0 <= a < r.len() implies (#[trigger] r[a]).expires_at == r[a].created_at
        + record_ttl by {
        let a0 = if a < i { a } else { a + 1 };
        assert(r[a] == s[a0]);
    }
}

/// Inserting a fresh row at the creation-order boundary keeps the store
/// invariant.
proof fn lemma_insert_memo_wf(s: Seq<FlushMemo>, p: int, m: FlushMemo, record_ttl: i64)
    requires
        0 <= p <= s.len(),
        ids_unique(s),
        sorted_by_creation(s),
        memos_wf(s, record_ttl),
        forall|q: int| 0 <= q < s.len() ==> (#[trigger] s[q]).id@ != m.id@,
        m.expires_at == m.created_at + record_ttl,
        forall|q: int| 0 <= q < p ==> (#[trigger] s[q]).created_at <= m.created_at,
        forall|q: int| p <= q < s.len() ==> (#[trigger] s[q]).created_at > m.created_at,
    ensures
        ids_unique(s.insert(p, m)),
        sorted_by_creation(s.insert(p, m)),
        memos_wf(s.insert(p, m), record_ttl),
{
    s.insert_ensures(p, m);
    let r = s.insert(p, m);
    assert forall|a: int, b: int| 0 <= a < b < r.len() implies r[a].id@ != r[b].id@
        && r[a].created_at <= r[b].created_at by {
        if a < p {
            assert(r[a] == s[a]);
        } else if a == p {
            assert(r[a] == m);
        } else {
            assert(r[a] == s[a - 1]);
        }
        if b < p {
            assert(r[b] == s[b]);
        } else if b == p {
            assert(r[b] == m);
        } else {
            assert(r[b] == s[b - 1]);
        }
    }
    assert forall|a: int| 0 <= a < r.len() implies (#[trigger] r[a]).expires_at == r[a].created_at
        + record_ttl by {
        if a < p {
            assert(r[a] == s[a]);
        } else if a == p {
            assert(r[a] == m);
        } else {
            assert(r[a] == s[a - 1]);
        }
    }
}

/// Keeping a subset of the rows keeps the store invariant.
proof fn lemma_filter_memos_wf(s: Seq<FlushMemo>, p: spec_fn(FlushMemo) -> bool, record_ttl: i64)
    requires
        ids_unique(s),
        sorted_by_creation(s),
        memos_wf(s, record_ttl),
    ensures
        ids_unique(s.filter(p)),
        sorted_by_creation(s.filter(p)),
        memos_wf(s.filter(p), record_ttl),
    decreases s.len(),
{
    reveal(Seq::filter);
    if s.len() > 0 {
        let rest = s.drop_last();
        assert forall|i: int, j: int| 0 <= i < j < rest.len() implies rest[i].id@ != rest[j].id@
            && rest[i].created_at <= rest[j].created_at by {
            assert(rest[i] == s[i]);
            assert(rest[j] == s[j]);
        }
        assert forall|i: int| 0 <= i < rest.len() implies (#[trigger] rest[i]).expires_at
            == rest[i].created_at + record_ttl by {
            assert(rest[i] == s[i]);
        }
        lemma_filter_memos_wf(rest, p, record_ttl);
        let f = s.filter(p);
        let rf = rest.filter(p);
        if p(s.last()) {
            assert(f == rf.push(s.last()));
            assert forall|a: int, b: int| 0 <= a < b < f.len() implies f[a].id@ != f[b].id@
                && f[a].created_at <= f[b].created_at by {
                if b < f.len() - 1 {
                    assert(f[a] == rf[a]);
                    assert(f[b] == rf[b]);
                } else {
                    assert(f[b] == s.last());
                    assert(f[a] == rf[a]);
                    assert(rf.contains(f[a]));
                    rest.lemma_filter_contains_rev(p, f[a]);
                    let k = choose|k: int| 0 <= k < rest.len() && rest[k] == f[a];
                    assert(s[k] == f[a]);
                    assert(s[k].id@ != s[s.len() - 1].id@);
                    assert(s[k].created_at <= s[s.len() - 1].created_at);
                }
            }
            assert forall|a: int| 0 <= a < f.len() implies (#[trigger] f[a]).expires_at
                == f[a].created_at + record_ttl by {
                if a < f.len() - 1 {
                    assert(f[a] == rf[a]);
                } else {
                    assert(f[a] == s.last());
                    assert(s.last() == s[s.len() - 1]);
                }
            }
        }
    }
}

/// A sequence whose rows all satisfy the kept predicate is untouched by the
/// filter.
proof fn lemma_filter_all_kept(s: Seq<FlushMemo>, p: spec_fn(FlushMemo) -> bool)
    requires
        forall|i: int| 0 <= i < s.len() ==> p(#[trigger] s[i]),
    ensures
        s.filter(p) == s,
    decreases s.len(),
{
    reveal(Seq::filter);
    if s.len() > 0 {
        let rest = s.drop_last();
        assert forall|i: int| 0 <= i < rest.len() implies p(#[trigger] rest[i]) by {
            assert(rest[i] == s[i]);
        }
        lemma_filter_all_kept(rest, p);
        assert(p(s.last()));
        assert(s.filter(p) =~= s);
    }
}

/// Law: a sweep is idempotent. Once the rows lapsed at `now` are removed, a
/// second sweep against the same snapshot keeps everything and deletes
/// nothing.
pub proof fn lemma_sweep_idempotent(s: Seq<FlushMemo>, now: i64)
    ensures
        active_records(active_records(s, now), now) == active_records(s, now),
        expired_count(active_records(s, now), now) == 0,
{
    broadcast use vstd::prelude::Seq::lemma_filter_pred;

    let f = active_records(s, now);
    assert forall|i: int| 0 <= i < f.len() implies active_memo(now)(#[trigger] f[i]) by {
        s.lemma_filter_pred(active_memo(now), i);
    }
    lemma_filter_all_kept(f, active_memo(now));
}

/// Law: cross-owner isolation. A row of one owner is never a match for any
/// other owner's id-and-owner lookup, whatever its expiry state, so a lookup
/// or a delete by the other owner reports not-found.
pub proof fn lemma_cross_owner_isolation(s: Seq<FlushMemo>, i: int, other: Seq<char>)
    requires
        ids_unique(s),
        0 <= i < s.len(),
        s[i].user_id@ != other,
    ensures
        !has_owned(s, s[i].id@, other),
{
    if has_owned(s, s[i].id@, other) {
        let j = choose|j: int| owned_at(s, j, s[i].id@, other);
        if i < j {
            assert(s[i].id@ != s[j].id@);
        } else if j < i {
            assert(s[j].id@ != s[i].id@);
        }
    }
}

/// Law: an expired row is invisible to an id-and-owner lookup even if no
/// sweep has ever run: the condition under which the lookup reports a row is
/// false for it.
pub proof fn lemma_find_expired_none(s: Seq<FlushMemo>, i: int, now: i64)
    requires
        ids_unique(s),
        0 <= i < s.len(),
        !s[i].active_at(now),
    ensures
        !(has_owned(s, s[i].id@, s[i].user_id@) && s[owned_index(
            s,
            s[i].id@,
            s[i].user_id@,
        )].active_at(now)),
{
    lemma_owned_index_unique(s, i, s[i].id@, s[i].user_id@);
}

/// Every entry of a listing is one of the store's rows.
pub proof fn lemma_list_active_member(s: Seq<FlushMemo>, u: Seq<char>, now: i64, j: int)
    requires
        0 <= j < spec_list_active(s, u, now).len(),
    ensures
        exists|i: int| 0 <= i < s.len() && s[i] == spec_list_active(s, u, now)[j],
    decreases s.len(),
{
    let r = spec_list_active(s, u, now);
    let rest = spec_list_active(s.drop_last(), u, now);
    if active_for(s.last(), u, now) && j == 0 {
        assert(r[0] == s.last());
        assert(s[s.len() - 1] == r[0]);
    } else {
        let j0 = if active_for(s.last(), u, now) {
            j - 1
        } else {
            j
        };
        lemma_list_active_member(s.drop_last(), u, now, j0);
        let i = choose|i: int| 0 <= i < s.drop_last().len() && s.drop_last()[i] == rest[j0];
        assert(s[i] == rest[j0]);
        assert(r[j] == rest[j0]);
    }
}

/// The ordering guarantee: a listing of a creation-ordered store is a
/// deterministic total order, newest creation instant first.
pub proof fn lemma_list_active_sorted(s: Seq<FlushMemo>, u: Seq<char>, now: i64)
    requires
        sorted_by_creation(s),
    ensures
        forall|a: int, b: int|
            0 <= a < b < spec_list_active(s, u, now).len() ==> spec_list_active(
                s,
                u,
                now,
            )[a].created_at >= spec_list_active(s, u, now)[b].created_at,
    decreases s.len(),
{
    if s.len() > 0 {
        let rest_rows = s.drop_last();
        assert forall|i: int, j: int| 0 <= i < j < rest_rows.len() implies rest_rows[i].created_at
            <= rest_rows[j].created_at by {
            assert(rest_rows[i] == s[i]);
            assert(rest_rows[j] == s[j]);
        }
        lemma_list_active_sorted(rest_rows, u, now);
        let r = spec_list_active(s, u, now);
        let rest = spec_list_active(rest_rows, u, now);
        if active_for(s.last(), u, now) {
            assert forall|a: int, b: int| 0 <= a < b < r.len() implies r[a].created_at
                >= r[b].created_at by {
                if a >= 1 {
                    assert(r[a] == rest[a - 1]);
                    assert(r[b] == rest[b - 1]);
                } else {
                    assert(r[0] == s.last());
                    assert(r[b] == rest[b - 1]);
                    lemma_list_active_member(rest_rows, u, now, b - 1);
                    let i = choose|i: int|
                        0 <= i < rest_rows.len() && rest_rows[i] == rest[b - 1];
                    assert(rest_rows[i] == s[i]);
                    assert(s[i].created_at <= s[s.len() - 1].created_at);
                }
            }
        }
    }
}

/// Law: a row of an owner, still visible at `now`, appears unmodified in
/// that owner's listing at `now`.
pub proof fn lemma_list_active_includes(s: Seq<FlushMemo>, u: Seq<char>, now: i64, i: int)
    requires
        0 <= i < s.len(),
        s[i].user_id@ == u,
        s[i].created_at <= now < s[i].expires_at,
    ensures
        spec_list_active(s, u, now).contains(s[i]),
    decreases s.len(),
{
    if i == s.len() - 1 {
        assert(active_for(s.last(), u, now));
        assert(spec_list_active(s, u, now)[0] == s.last());
    } else {
        let rest = s.drop_last();
        assert(rest[i] == s[i]);
        lemma_list_active_includes(rest, u, now, i);
        let tail = spec_list_active(rest, u, now);
        let j = choose|j: int| 0 <= j < tail.len() && tail[j] == s[i];
        if active_for(s.last(), u, now) {
            assert(spec_list_active(s, u, now)[j + 1] == tail[j]);
        } else {
            assert(spec_list_active(s, u, now) == tail);
        }
    }
}

/// The expiring-record table. Rows are held oldest creation first; all
/// reads and sweeps take the current instant from the caller, so each
/// logical operation decides expiry against a single `now`.
pub struct FlushMemoStore {
    record_ttl: i64,
    records: Vec<FlushMemo>,
}

impl FlushMemoStore {
    /// The configured record lifetime in milliseconds.
    pub closed spec fn ttl(self) -> i64 {
        self.record_ttl
    }

    /// The table as a sequence of rows, oldest creation first.
    pub closed spec fn records_view(self) -> Seq<FlushMemo> {
        self.records@
    }

    /// Some row carries id `id`.
    pub open spec fn has_id(self, id: Seq<char>) -> bool {
        exists|i: int| 0 <= i < self.records_view().len() && (#[trigger] self.records_view()[i]).id@
            == id
    }

    /// Store invariant: a positive lifetime, unique ids, creation order, and
    /// every expiry computed from its creation instant.
    pub open spec fn wf(self) -> bool {
        &&& self.ttl() > 0
        &&& ids_unique(self.records_view())
        &&& sorted_by_creation(self.records_view())
        &&& memos_wf(self.records_view(), self.ttl())
    }

    pub fn new(record_ttl: i64) -> (store: FlushMemoStore)
        requires
            record_ttl > 0,
        ensures
            store.wf(),
            store.ttl() == record_ttl,
            store.records_view() == Seq::<FlushMemo>::empty(),
    {
        FlushMemoStore { record_ttl, records: Vec::new() }
    }

    /// How many rows the table holds, expired rows included.
    pub fn count_all(&self) -> (r: usize)
        ensures
            r == self.records_view().len(),
    {
        self.records.len()
    }

    /// How many rows a sweep at `now` would delete.
    pub fn count_expired(&self, now: i64) -> (r: usize)
        requires
            self.wf(),
        ensures
            r == expired_count(self.records_view(), now),
    {
        let s = &self.records;
        let n = s.len();
        let mut cnt: usize = 0;
        let mut j: usize = 0;
        while j < n
            invariant
                n == s@.len(),
                0 <= j <= n,
                cnt == j - active_records(s@.take(j as int), now).len(),
                active_records(s@.take(j as int), now).len() <= j,
            decreases n - j,
        {
            proof {
                assert(s@.take(j as int + 1) =~= s@.take(j as int).push(s@[j as int]));
                s@.take(j as int).lemma_filter_push(s@[j as int], active_memo(now));
            }
            if s[j].expires_at <= now {
                cnt += 1;
            }
            j += 1;
        }
        proof {
            assert(s@.take(n as int) =~= s@);
        }
        cnt
    }

    /// Store a record with the given id for `user_id`, expiring one record
    /// lifetime after `now`. An empty-after-trimming payload is rejected
    /// before storage is touched; a colliding id is rejected without change.
    /// The row is placed at the creation-order boundary: after every row
    /// created at or before `now`, before every row created later.
    pub fn create_with_id(
        &mut self,
        memo_id: String,
        user_id: &String,
        content: &String,
        now: i64,
    ) -> (r: Result<FlushMemo, MemoError>)
        requires
            old(self).wf(),
            now + old(self).ttl() <= i64::MAX,
        ensures
            final(self).wf(),
            final(self).ttl() == old(self).ttl(),
            trimmed(content@).len() == 0 ==> r == Err::<FlushMemo, MemoError>(MemoError::Validation)
                && final(self).records_view() == old(self).records_view(),
            trimmed(content@).len() > 0 && old(self).has_id(memo_id@) ==> r == Err::<
                FlushMemo,
                MemoError,
            >(MemoError::Conflict) && final(self).records_view() == old(self).records_view(),
            trimmed(content@).len() > 0 && !old(self).has_id(memo_id@) ==> ({
                let m = (FlushMemo {
                    id: memo_id,
                    user_id: *user_id,
                    content: *content,
                    created_at: now,
                    expires_at: (now + old(self).ttl()) as i64,
                });
                r == Ok::<FlushMemo, MemoError>(m) && exists|p: int|
                    {
                        &&& 0 <= p <= old(self).records_view().len()
                        &&& final(self).records_view() == #[trigger] old(
                            self,
                        ).records_view().insert(p, m)
                        &&& forall|q: int|
                            0 <= q < p ==> (#[trigger] old(self).records_view()[q]).created_at
                                <= now
                        &&& forall|q: int|
                            p <= q < old(self).records_view().len() ==> (#[trigger] old(
                                self,
                            ).records_view()[q]).created_at > now
                    }
            }),
    {
        if trim_ends(content.as_str()).is_empty() {
            return Err(MemoError::Validation);
        }
        let n = self.records.len();
        let mut j: usize = 0;
        while j < n
            invariant
                self.records@ == old(self).records@,
                self.record_ttl == old(self).record_ttl,
                old(self).wf(),
                trimmed(content@).len() > 0,
                n == self.records@.len(),
                0 <= j <= n,
                forall|q: int| 0 <= q < j ==> (#[trigger] self.records@[q]).id@ != memo_id@,
            decreases n - j,
        {
            if self.records[j].id == memo_id {
                return Err(MemoError::Conflict);
            }
            j += 1;
        }
        proof {
            if old(self).has_id(memo_id@) {
                let i = choose|i: int|
                    0 <= i < old(self).records_view().len() && (#[trigger] old(
                        self,
                    ).records_view()[i]).id@ == memo_id@;
                assert(old(self).records@[i].id@ == memo_id@);
            }
        }
        let mut p: usize = 0;
        while p < n && self.records[p].created_at <= now
            invariant
                self.records@ == old(self).records@,
                self.record_ttl == old(self).record_ttl,
                old(self).wf(),
                trimmed(content@).len() > 0,
                now + old(self).ttl() <= i64::MAX,
                forall|q: int|
                    0 <= q < n ==> (#[trigger] self.records@[q]).id@ != memo_id@,
                n == self.records@.len(),
                0 <= p <= n,
                forall|q: int| 0 <= q < p ==> (#[trigger] self.records@[q]).created_at <= now,
            decreases n - p,
        {
            p += 1;
        }
        proof {
            assert forall|q: int| p <= q < n implies (#[trigger] self.records@[q]).created_at
                > now by {
                if p < n {
                    assert(self.records@[p as int].created_at > now);
                    if q > p {
                        assert(self.records@[p as int].created_at
                            <= self.records@[q].created_at);
                    }
                }
            }
        }
        let m = FlushMemo {
            id: memo_id,
            user_id: user_id.clone(),
            content: content.clone(),
            created_at: now,
            expires_at: now + self.record_ttl,
        };
        let stored = m.clone();
        self.records.insert(p, stored);
        proof {
            lemma_insert_memo_wf(old(self).records_view(), p as int, m, old(self).ttl());
        }
        Ok(m)
    }

    /// Create a record for `user_id`: validates the payload, generates a
    /// fresh opaque id, and stores a row expiring one record lifetime after
    /// `now`. The id is random, so success also reports that the id was not
    /// yet in use; on the (negligible) collision the store is unchanged.
    pub fn create(&mut self, user_id: &String, content: &String, now: i64) -> (r: Result<
        FlushMemo,
        MemoError,
    >)
        requires
            old(self).wf(),
            now + old(self).ttl() <= i64::MAX,
        ensures
            final(self).wf(),
            final(self).ttl() == old(self).ttl(),
            trimmed(content@).len() == 0 ==> r == Err::<FlushMemo, MemoError>(MemoError::Validation)
                && final(self).records_view() == old(self).records_view(),
            trimmed(content@).len() > 0 ==> match r {
                Ok(m) => {
                    &&& m.id@.len() == 36
                    &&& !old(self).has_id(m.id@)
                    &&& m.user_id == *user_id
                    &&& m.content == *content
                    &&& m.created_at == now
                    &&& m.expires_at == now + old(self).ttl()
                    &&& exists|p: int|
                        {
                            &&& 0 <= p <= old(self).records_view().len()
                            &&& final(self).records_view() == #[trigger] old(
                                self,
                            ).records_view().insert(p, m)
                            &&& forall|q: int|
                                0 <= q < p ==> (#[trigger] old(
                                    self,
                                ).records_view()[q]).created_at <= now
                            &&& forall|q: int|
                                p <= q < old(self).records_view().len() ==> (#[trigger] old(
                                    self,
                                ).records_view()[q]).created_at > now
                        }
                },
                Err(e) => e == MemoError::Conflict && final(self).records_view() == old(
                    self,
                ).records_view(),
            },
    {
        if trim_ends(content.as_str()).is_empty() {
            return Err(MemoError::Validation);
        }
        let memo_id = fresh_id();
        self.create_with_id(memo_id, user_id, content, now)
    }

    /// All rows of `user_id` still visible at `now`, newest creation first;
    /// rows created at the same instant come most recently inserted first.
    pub fn list_by_user(&self, user_id: &String, now: i64) -> (r: Vec<FlushMemo>)
        requires
            self.wf(),
        ensures
            r@ == spec_list_active(self.records_view(), user_id@, now),
    {
        let s = &self.records;
        let n = s.len();
        let mut out: Vec<FlushMemo> = Vec::new();
        proof {
            assert(s@.take(n as int) =~= s@);
            assert(Seq::<FlushMemo>::empty() + spec_list_active(s@.take(n as int), user_id@, now)
                =~= spec_list_active(s@, user_id@, now));
        }
        let mut i: usize = n;
        while i > 0
            invariant
                n == s@.len(),
                0 <= i <= n,
                spec_list_active(s@, user_id@, now) == out@ + spec_list_active(
                    s@.take(i as int),
                    user_id@,
                    now,
                ),
            decreases i,
        {
            i -= 1;
            let ghost prefix = s@.take(i as int + 1);
            let ghost pre_out = out@;
            proof {
                assert(prefix.last() == s@[i as int]);
                assert(prefix.drop_last() =~= s@.take(i as int));
            }
            if s[i].user_id == *user_id && now < s[i].expires_at {
                out.push(s[i].clone());
                proof {
                    assert(active_for(s@[i as int], user_id@, now));
                    assert(spec_list_active(prefix, user_id@, now) == seq![s@[i as int]]
                        + spec_list_active(s@.take(i as int), user_id@, now));
                    assert(pre_out + (seq![s@[i as int]] + spec_list_active(
                        s@.take(i as int),
                        user_id@,
                        now,
                    )) =~= out@ + spec_list_active(s@.take(i as int), user_id@, now));
                }
            } else {
                proof {
                    assert(!active_for(s@[i as int], user_id@, now));
                    assert(spec_list_active(prefix, user_id@, now) == spec_list_active(
                        s@.take(i as int),
                        user_id@,
                        now,
                    ));
                }
            }
        }
        proof {
            assert(s@.take(0) =~= Seq::<FlushMemo>::empty());
            assert(out@ + spec_list_active(s@.take(0), user_id@, now) =~= out@);
        }
        out
    }

    /// The row carrying `memo_id`, provided it belongs to `user_id` and is
    /// still visible at `now`. An id that is unknown, expired, or owned by
    /// someone else reports nothing, indistinguishably.
    pub fn find_by_id_and_user(&self, memo_id: &String, user_id: &String, now: i64) -> (r: Option<
        FlushMemo,
    >)
        requires
            self.wf(),
        ensures
            r is Some <==> has_owned(self.records_view(), memo_id@, user_id@)
                && self.records_view()[owned_index(
                self.records_view(),
                memo_id@,
                user_id@,
            )].active_at(now),
            r is Some ==> r.unwrap() == self.records_view()[owned_index(
                self.records_view(),
                memo_id@,
                user_id@,
            )],
    {
        let s = &self.records;
        let n = s.len();
        let mut i: usize = 0;
        while i < n
            invariant
                n == s@.len(),
                self.wf(),
                s@ == self.records_view(),
                0 <= i <= n,
                forall|j: int| 0 <= j < i ==> (#[trigger] s@[j]).id@ != memo_id@,
            decreases n - i,
        {
            if s[i].id == *memo_id {
                if s[i].user_id == *user_id && now < s[i].expires_at {
                    proof {
                        lemma_owned_index_unique(s@, i as int, memo_id@, user_id@);
                    }
                    return Some(s[i].clone());
                } else {
                    proof {
                        if has_owned(s@, memo_id@, user_id@) {
                            let j = choose|j: int| owned_at(s@, j, memo_id@, user_id@);
                            if (i as int) < j {
                                assert(s@[i as int].id@ != s@[j].id@);
                            } else if j < i as int {
                                assert(s@[j].id@ != s@[i as int].id@);
                            }
                            lemma_owned_index_unique(s@, j, memo_id@, user_id@);
                        }
                    }
                    return None;
                }
            }
            i += 1;
        }
        proof {
            if has_owned(s@, memo_id@, user_id@) {
                let j = choose|j: int| owned_at(s@, j, memo_id@, user_id@);
                assert(s@[j].id@ == memo_id@);
            }
        }
        None
    }

    /// Remove the row carrying `memo_id` if it belongs to `user_id`, and
    /// report whether a row was removed. A wrong owner and an unknown id
    /// fail identically, so existence never leaks across owners.
    pub fn delete(&mut self, memo_id: &String, user_id: &String) -> (r: bool)
        requires
            old(self).wf(),
        ensures
            final(self).wf(),
            final(self).ttl() == old(self).ttl(),
            r == has_owned(old(self).records_view(), memo_id@, user_id@),
            r ==> final(self).records_view() == old(self).records_view().remove(
                owned_index(old(self).records_view(), memo_id@, user_id@),
            ),
            !r ==> final(self).records_view() == old(self).records_view(),
    {
        let n = self.records.len();
        let mut i: usize = 0;
        while i < n
            invariant
                self.records@ == old(self).records@,
                self.record_ttl == old(self).record_ttl,
                old(self).wf(),
                n == self.records@.len(),
                0 <= i <= n,
                forall|j: int| 0 <= j < i ==> (#[trigger] self.records@[j]).id@ != memo_id@,
            decreases n - i,
        {
            if self.records[i].id == *memo_id {
                if self.records[i].user_id == *user_id {
                    proof {
                        lemma_owned_index_unique(
                            old(self).records_view(),
                            i as int,
                            memo_id@,
                            user_id@,
                        );
                    }
                    self.records.remove(i);
                    proof {
                        lemma_remove_memo_wf(old(self).records_view(), i as int, old(self).ttl());
                    }
                    return true;
                } else {
                    proof {
                        let ov = old(self).records_view();
                        if has_owned(ov, memo_id@, user_id@) {
                            let j = choose|j: int| owned_at(ov, j, memo_id@, user_id@);
                            if (i as int) < j {
                                assert(ov[i as int].id@ != ov[j].id@);
                            } else if j < i as int {
                                assert(ov[j].id@ != ov[i as int].id@);
                            }
                        }
                    }
                    return false;
                }
            }
            i += 1;
        }
        proof {
            let ov = old(self).records_view();
            if has_owned(ov, memo_id@, user_id@) {
                let j = choose|j: int| owned_at(ov, j, memo_id@, user_id@);
                assert(ov[j].id@ == memo_id@);
            }
        }
        false
    }

    /// Bulk sweep: irreversibly delete every row that has lapsed at `now`,
    /// the single snapshot bound, and report how many were deleted. Rows
    /// created after the snapshot are never swept.
    pub fn cleanup_expired(&mut self, now: i64) -> (removed: u64)
        requires
            old(self).wf(),
        ensures
            final(self).wf(),
            final(self).ttl() == old(self).ttl(),
            final(self).records_view() == active_records(old(self).records_view(), now),
            removed == expired_count(old(self).records_view(), now),
    {
        let ghost orig = old(self).records_view();
        let mut work: Vec<FlushMemo> = Vec::new();
        core::mem::swap(&mut self.records, &mut work);
        let n = work.len();
        let mut k: usize = 0;
        while k < n
            invariant
                self.record_ttl == old(self).record_ttl,
                old(self).wf(),
                n == orig.len(),
                0 <= k <= n,
                work@ == orig.skip(k as int),
                self.records@ == orig.take(k as int).filter(active_memo(now)),
            decreases n - k,
        {
            proof {
                assert(orig.skip(k as int)[0] == orig[k as int]);
                assert(orig.skip(k as int).remove(0) =~= orig.skip(k as int + 1));
                assert(orig.take(k as int + 1) =~= orig.take(k as int).push(orig[k as int]));
                orig.take(k as int).lemma_filter_push(orig[k as int], active_memo(now));
            }
            let ghost pre = self.records@;
            let e = work.remove(0);
            if now < e.expires_at {
                self.records.push(e);
                proof {
                    assert(active_memo(now)(orig[k as int]));
                    assert(self.records@ == pre.push(orig[k as int]));
                }
            } else {
                proof {
                    assert(!active_memo(now)(orig[k as int]));
                }
            }
            k += 1;
        }
        proof {
            assert(orig.take(n as int) =~= orig);
            lemma_filter_memos_wf(orig, active_memo(now), old(self).ttl());
            orig.lemma_filter_len(active_memo(now));
        }
        let kept = self.records.len();
        (n - kept) as u64
    }

    /// Delete every row, expired or not, and report how many were deleted.
    pub fn clear_all(&mut self) -> (removed: u64)
        requires
            old(self).wf(),
        ensures
            final(self).wf(),
            final(self).ttl() == old(self).ttl(),
            final(self).records_view() == Seq::<FlushMemo>::empty(),
            removed == old(self).records_view().len(),
    {
        let n = self.records.len();
        self.records.clear();
        n as u64
    }
}

} // verus!

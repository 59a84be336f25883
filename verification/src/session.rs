//! Volatile in-memory session registry: an exclusively owned table from
//! opaque token to session, with lazy eviction on read, explicit destroy and
//! bulk sweep.
use vstd::prelude::*;
use vstd::pervasive::VecAdditionalExecFns;

use crate::ids::fresh_id;

verus! {

/// One authenticated session: the owning account and the instants bounding
/// its life. `expires_at` is computed from `created_at` plus the registry's
/// session lifetime, never accepted from the caller.
pub struct Session {
    pub user_id: String,
    pub created_at: i64,
    pub expires_at: i64,
}

impl Session {
    /// A session lapses strictly after it is created.
    pub open spec fn wf(self) -> bool {
        self.created_at < self.expires_at
    }

    /// Live exactly on the instants strictly before `expires_at`.
    pub open spec fn live_at(self, now: i64) -> bool {
        now < self.expires_at
    }

    pub fn new(user_id: String, now: i64, session_ttl: i64) -> (s: Session)
        requires
            session_ttl > 0,
            now + session_ttl <= i64::MAX,
        ensures
            s == (Session { user_id, created_at: now, expires_at: (now + session_ttl) as i64 }),
            s.wf(),
    {
        Session { user_id, created_at: now, expires_at: now + session_ttl }
    }

    /// Expired exactly once `now` has reached `expires_at`.
    pub fn is_expired(&self, now: i64) -> (r: bool)
        ensures
            r == !self.live_at(now),
    {
        now >= self.expires_at
    }
}

impl Clone for Session {
    fn clone(&self) -> (r: Session)
        ensures
            r == *self,
    {
        Session {
            user_id: self.user_id.clone(),
            created_at: self.created_at,
            expires_at: self.expires_at,
        }
    }
}

/// Tokens are pairwise distinct across the entries.
pub open spec fn tokens_unique(s: Seq<(String, Session)>) -> bool {
    forall|i: int, j: int| 0 <= i < j < s.len() ==> s[i].0@ != s[j].0@
}

/// Every stored session is well formed.
pub open spec fn sessions_wf(s: Seq<(String, Session)>) -> bool {
    forall|i: int| 0 <= i < s.len() ==> (#[trigger] s[i]).1.wf()
}

/// The predicate a sweep keeps: the session is still live at the sweep's
/// single `now` snapshot.
pub open spec fn live_entry(now: i64) -> spec_fn((String, Session)) -> bool {
    |e: (String, Session)| e.1.live_at(now)
}

/// Removing one entry keeps tokens unique and sessions well formed.
proof fn lemma_remove_entry_wf(s: Seq<(String, Session)>, i: int)
    requires
        0 <= i < s.len(),
        tokens_unique(s),
        sessions_wf(s),
    ensures
        tokens_unique(s.remove(i)),
        sessions_wf(s.remove(i)),
{
    s.remove_ensures(i);
    let r = s.remove(i);
    assert forall|a: int, b: int| 0 <= a < b < r.len() implies r[a].0@ != r[b].0@ by {
        let a0 = if a < i { a } else { a + 1 };
        let b0 = if b < i { b } else { b + 1 };
        assert(r[a] == s[a0]);
        assert(r[b] == s[b0]);
    }
    assert forall|a: int| 0 <= a < r.len() implies (#[trigger] r[a]).1.wf() by {
        let a0 = if a < i { a } else { a + 1 };
        assert(r[a] == s[a0]);
    }
}

/// Keeping a subset of the entries keeps tokens unique and sessions well
/// formed.
proof fn lemma_filter_entries_wf(s: Seq<(String, Session)>, p: spec_fn((String, Session)) -> bool)
    requires
        tokens_unique(s),
        sessions_wf(s),
    ensures
        tokens_unique(s.filter(p)),
        sessions_wf(s.filter(p)),
    decreases s.len(),
{
    reveal(Seq::filter);
    if s.len() > 0 {
        let rest = s.drop_last();
        assert(tokens_unique(rest)) by {
            assert forall|i: int, j: int| 0 <= i < j < rest.len() implies rest[i].0@ != rest[j].0@ by {
                assert(rest[i] == s[i]);
                assert(rest[j] == s[j]);
            }
        }
        assert(sessions_wf(rest)) by {
            assert forall|i: int| 0 <= i < rest.len() implies (#[trigger] rest[i]).1.wf() by {
                assert(rest[i] == s[i]);
            }
        }
        lemma_filter_entries_wf(rest, p);
        let f = s.filter(p);
        let rf = rest.filter(p);
        if p(s.last()) {
            assert(f == rf.push(s.last()));
            assert forall|a: int, b: int| 0 <= a < b < f.len() implies f[a].0@ != f[b].0@ by {
                if b < f.len() - 1 {
                    assert(f[a] == rf[a]);
                    assert(f[b] == rf[b]);
                } else {
                    assert(f[b] == s.last());
                    assert(f[a] == rf[a]);
                    assert(rf.contains(f[a]));
                    rest.lemma_filter_contains_rev(p, f[a]);
                    let k = choose|k: int| 0 <= k < rest.len() && rest[k] == f[a];
                    assert(s[k] == f[a]);
                    assert(s[k].0@ != s[s.len() - 1].0@);
                }
            }
            assert forall|a: int| 0 <= a < f.len() implies (#[trigger] f[a]).1.wf() by {
                if a < f.len() - 1 {
                    assert(f[a] == rf[a]);
                } else {
                    assert(f[a] == s.last());
                    assert(s.last() == s[s.len() - 1]);
                }
            }
        }
    }
}

/// A sequence of entries that all satisfy the kept predicate is untouched
/// by the filter.
proof fn lemma_filter_entries_all_kept(
    s: Seq<(String, Session)>,
    p: spec_fn((String, Session)) -> bool,
)
    requires
        forall|i: int| 0 <= i < s.len() ==> p(#[trigger] s[i]),
    ensures
        s.filter(p) == s,
    decreases s.len(),
{
    reveal(Seq::filter);
    if s.len() > 0 {
        let rest = s.drop_last();
        assert forall|i: int| 0 <= i < rest.len() implies p(#[trigger] rest[i]) by {
            assert(rest[i] == s[i]);
        }
        lemma_filter_entries_all_kept(rest, p);
        assert(p(s.last()));
        assert(s.filter(p) =~= s);
    }
}

/// Law: the registry sweep is idempotent. Once the sessions lapsed at `now`
/// are removed, a second sweep against the same snapshot removes nothing.
pub proof fn lemma_session_sweep_idempotent(s: Seq<(String, Session)>, now: i64)
    ensures
        s.filter(live_entry(now)).filter(live_entry(now)) == s.filter(live_entry(now)),
{
    broadcast use vstd::prelude::Seq::lemma_filter_pred;

    let f = s.filter(live_entry(now));
    assert forall|i: int| 0 <= i < f.len() implies live_entry(now)(#[trigger] f[i]) by {
        s.lemma_filter_pred(live_entry(now), i);
    }
    lemma_filter_entries_all_kept(f, live_entry(now));
}

/// The session table. It exclusively owns the token-to-session mapping;
/// callers hold only opaque tokens. Every operation takes the current instant
/// from the caller, so expiry decisions are made against a single `now` per
/// logical operation.
pub struct SessionStore {
    session_ttl: i64,
    entries: Vec<(String, Session)>,
}

impl SessionStore {
    /// The configured session lifetime in milliseconds.
    pub closed spec fn ttl(self) -> i64 {
        self.session_ttl
    }

    /// The live table as a sequence of token/session pairs.
    pub closed spec fn entries_view(self) -> Seq<(String, Session)> {
        self.entries@
    }

    /// The entry at index `i` carries token `t`.
    pub open spec fn token_at(self, i: int, t: Seq<char>) -> bool {
        0 <= i < self.entries_view().len() && self.entries_view()[i].0@ == t
    }

    /// Some entry carries token `t`.
    pub open spec fn has_token(self, t: Seq<char>) -> bool {
        exists|i: int| self.token_at(i, t)
    }

    /// The index of the entry carrying token `t`; meaningful when
    /// `has_token(t)` holds, and then unique because tokens are unique.
    pub open spec fn token_index(self, t: Seq<char>) -> int {
        choose|i: int| self.token_at(i, t)
    }

    /// The session stored under token `t`.
    pub open spec fn session_for(self, t: Seq<char>) -> Session {
        self.entries_view()[self.token_index(t)].1
    }

    /// Registry invariant: a positive lifetime, tokens unique across the live
    /// set, and every stored session well formed.
    pub open spec fn wf(self) -> bool {
        &&& self.ttl() > 0
        &&& tokens_unique(self.entries_view())
        &&& sessions_wf(self.entries_view())
    }

    /// What a token resolves to at `now`: the owner while the session is
    /// live, nothing otherwise.
    pub open spec fn spec_get_user_id(self, t: Seq<char>, now: i64) -> Option<String> {
        if self.has_token(t) && self.session_for(t).live_at(now) {
            Some(self.session_for(t).user_id)
        } else {
            None
        }
    }

    /// With unique tokens, any index carrying `t` is the index `token_index`
    /// picks.
    pub proof fn lemma_token_index_unique(self, i: int, t: Seq<char>)
        requires
            self.wf(),
            self.token_at(i, t),
        ensures
            self.has_token(t),
            self.token_index(t) == i,
    {
        assert(self.has_token(t));
        let j = self.token_index(t);
        assert(self.token_at(j, t));
        if i < j {
            assert(self.entries_view()[i].0@ != self.entries_view()[j].0@);
        } else if j < i {
            assert(self.entries_view()[j].0@ != self.entries_view()[i].0@);
        }
    }

    /// Law: a lookup of a stored session sees the owner on every instant
    /// strictly before `expires_at`, and nothing from `expires_at` on.
    pub proof fn lemma_session_expiry_boundary(self, t: Seq<char>, now: i64)
        requires
            self.wf(),
            self.has_token(t),
        ensures
            now < self.session_for(t).expires_at ==> self.spec_get_user_id(t, now) == Some(
                self.session_for(t).user_id,
            ),
            now >= self.session_for(t).expires_at ==> self.spec_get_user_id(t, now) is None,
    {
    }

    pub fn new(session_ttl: i64) -> (store: SessionStore)
        requires
            session_ttl > 0,
        ensures
            store.wf(),
            store.ttl() == session_ttl,
            store.entries_view() == Seq::<(String, Session)>::empty(),
    {
        SessionStore { session_ttl, entries: Vec::new() }
    }

    /// Raw lookup by token, with no expiry check and no mutation.
    pub fn get_session(&self, session_id: &String) -> (r: Option<Session>)
        requires
            self.wf(),
        ensures
            match r {
                Some(s) => self.has_token(session_id@) && s == self.session_for(session_id@),
                None => !self.has_token(session_id@),
            },
    {
        let n = self.entries.len();
        let mut i: usize = 0;
        while i < n
            invariant
                n == self.entries@.len(),
                0 <= i <= n,
                self.wf(),
                forall|j: int| 0 <= j < i ==> self.entries@[j].0@ != session_id@,
            decreases n - i,
        {
            if self.entries[i].0 == *session_id {
                proof {
                    self.lemma_token_index_unique(i as int, session_id@);
                }
                return Some(self.entries[i].1.clone());
            }
            i += 1;
        }
        proof {
            if self.has_token(session_id@) {
                let i = choose|i: int| self.token_at(i, session_id@);
                assert(self.entries@[i].0@ == session_id@);
            }
        }
        None
    }

    /// Unconditional, idempotent removal; reports whether a session was
    /// removed.
    pub fn remove_session(&mut self, session_id: &String) -> (r: bool)
        requires
            old(self).wf(),
        ensures
            final(self).wf(),
            final(self).ttl() == old(self).ttl(),
            r == old(self).has_token(session_id@),
            r ==> final(self).entries_view() == old(self).entries_view().remove(
                old(self).token_index(session_id@),
            ),
            !r ==> final(self).entries_view() == old(self).entries_view(),
    {
        let n = self.entries.len();
        let mut i: usize = 0;
        while i < n
            invariant
                self.entries@ == old(self).entries@,
                self.session_ttl == old(self).session_ttl,
                old(self).wf(),
                n == self.entries@.len(),
                0 <= i <= n,
                forall|j: int| 0 <= j < i ==> self.entries@[j].0@ != session_id@,
            decreases n - i,
        {
            if self.entries[i].0 == *session_id {
                proof {
                    old(self).lemma_token_index_unique(i as int, session_id@);
                }
                self.entries.remove(i);
                proof {
                    lemma_remove_entry_wf(old(self).entries_view(), i as int);
                }
                return true;
            }
            i += 1;
        }
        proof {
            if old(self).has_token(session_id@) {
                let i = choose|i: int| old(self).token_at(i, session_id@);
                assert(old(self).entries_view()[i].0@ == session_id@);
            }
        }
        false
    }

    /// Resolve a token to its owner at `now`. A lookup that finds the session
    /// expired removes it as part of the same logical read and reports
    /// nothing, so an expired session behaves exactly like an absent one.
    pub fn get_user_id(&mut self, session_id: &String, now: i64) -> (r: Option<String>)
        requires
            old(self).wf(),
        ensures
            final(self).wf(),
            final(self).ttl() == old(self).ttl(),
            r == old(self).spec_get_user_id(session_id@, now),
            old(self).has_token(session_id@) && !old(self).session_for(session_id@).live_at(now)
                ==> final(self).entries_view() == old(self).entries_view().remove(
                old(self).token_index(session_id@),
            ),
            old(self).has_token(session_id@) && old(self).session_for(session_id@).live_at(now)
                ==> final(self).entries_view() == old(self).entries_view(),
            !old(self).has_token(session_id@) ==> final(self).entries_view() == old(self).entries_view(),
    {
        let n = self.entries.len();
        let mut i: usize = 0;
        while i < n
            invariant
                self.entries@ == old(self).entries@,
                self.session_ttl == old(self).session_ttl,
                old(self).wf(),
                n == self.entries@.len(),
                0 <= i <= n,
                forall|j: int| 0 <= j < i ==> self.entries@[j].0@ != session_id@,
            decreases n - i,
        {
            if self.entries[i].0 == *session_id {
                proof {
                    old(self).lemma_token_index_unique(i as int, session_id@);
                }
                if now < self.entries[i].1.expires_at {
                    return Some(self.entries[i].1.user_id.clone());
                } else {
                    self.entries.remove(i);
                    proof {
                        lemma_remove_entry_wf(old(self).entries_view(), i as int);
                    }
                    return None;
                }
            }
            i += 1;
        }
        proof {
            if old(self).has_token(session_id@) {
                let i = choose|i: int| old(self).token_at(i, session_id@);
                assert(old(self).entries_view()[i].0@ == session_id@);
            }
        }
        None
    }

    /// Store a session for `user_id` under the given token, expiring one
    /// session lifetime after `now`. A colliding token has its entry
    /// replaced; any other entry is untouched.
    pub fn create_session_with_token(&mut self, token: String, user_id: String, now: i64)
        requires
            old(self).wf(),
            now + old(self).ttl() <= i64::MAX,
        ensures
            final(self).wf(),
            final(self).ttl() == old(self).ttl(),
            old(self).has_token(token@) ==> final(self).entries_view() == old(self).entries_view().update(
                old(self).token_index(token@),
                (
                    token,
                    (Session {
                        user_id,
                        created_at: now,
                        expires_at: (now + old(self).ttl()) as i64,
                    }),
                ),
            ),
            !old(self).has_token(token@) ==> final(self).entries_view() == old(self).entries_view().push(
                (
                    token,
                    (Session {
                        user_id,
                        created_at: now,
                        expires_at: (now + old(self).ttl()) as i64,
                    }),
                ),
            ),
    {
        let sess = Session::new(user_id, now, self.session_ttl);
        let n = self.entries.len();
        let mut i: usize = 0;
        while i < n
            invariant
                self.entries@ == old(self).entries@,
                self.session_ttl == old(self).session_ttl,
                old(self).wf(),
                now + old(self).ttl() <= i64::MAX,
                sess == (Session {
                    user_id,
                    created_at: now,
                    expires_at: (now + old(self).ttl()) as i64,
                }),
                n == self.entries@.len(),
                0 <= i <= n,
                forall|j: int| 0 <= j < i ==> self.entries@[j].0@ != token@,
            decreases n - i,
        {
            if self.entries[i].0 == token {
                proof {
                    old(self).lemma_token_index_unique(i as int, token@);
                }
                self.entries.set(i, (token, sess));
                proof {
                    let oe = old(self).entries_view();
                    let ne = self.entries@;
                    assert forall|a: int, b: int| 0 <= a < b < ne.len() implies ne[a].0@
                        != ne[b].0@ by {
                        assert(oe[a].0@ != oe[b].0@);
                    }
                    assert forall|a: int| 0 <= a < ne.len() implies (#[trigger] ne[a]).1.wf() by {
                        if a != i {
                            assert(ne[a] == oe[a]);
                        }
                    }
                }
                return ;
            }
            i += 1;
        }
        proof {
            if old(self).has_token(token@) {
                let i = choose|i: int| old(self).token_at(i, token@);
                assert(old(self).entries_view()[i].0@ == token@);
            }
        }
        self.entries.push((token, sess));
        proof {
            let oe = old(self).entries_view();
            let ne = self.entries@;
            assert forall|a: int, b: int| 0 <= a < b < ne.len() implies ne[a].0@ != ne[b].0@ by {
                if b < ne.len() - 1 {
                    assert(ne[a] == oe[a]);
                    assert(ne[b] == oe[b]);
                } else {
                    assert(ne[a] == oe[a]);
                }
            }
            assert forall|a: int| 0 <= a < ne.len() implies (#[trigger] ne[a]).1.wf() by {
                if a < ne.len() - 1 {
                    assert(ne[a] == oe[a]);
                }
            }
        }
    }

    /// Create a session for `user_id`: generates a fresh opaque token, stores
    /// a session expiring one session lifetime after `now`, and returns the
    /// token. Every other token resolves as it did before the call.
    pub fn create_session(&mut self, user_id: String, now: i64) -> (token: String)
        requires
            old(self).wf(),
            now + old(self).ttl() <= i64::MAX,
        ensures
            final(self).wf(),
            final(self).ttl() == old(self).ttl(),
            token@.len() == 36,
            final(self).has_token(token@),
            final(self).session_for(token@) == (Session {
                user_id,
                created_at: now,
                expires_at: (now + old(self).ttl()) as i64,
            }),
            forall|t: Seq<char>|
                t != token@ ==> (#[trigger] final(self).has_token(t)) == old(self).has_token(t),
            forall|t: Seq<char>|
                t != token@ && old(self).has_token(t) ==> (#[trigger] final(self).session_for(t)) == old(
                    self,
                ).session_for(t),
    {
        let token = fresh_id();
        let token_out = token.clone();
        let ghost oe = old(self).entries_view();
        let ghost tv = token@;
        self.create_session_with_token(token, user_id, now);
        proof {
            let ne = self.entries_view();
            let ghost sess = (Session {
                user_id,
                created_at: now,
                expires_at: (now + old(self).ttl()) as i64,
            });
            if old(self).has_token(tv) {
                let idx = old(self).token_index(tv);
                assert(old(self).token_at(idx, tv));
                assert(ne[idx] == (token_out, sess));
                assert(self.token_at(idx, tv));
                self.lemma_token_index_unique(idx, tv);
                assert forall|t: Seq<char>| t != tv implies (#[trigger] self.has_token(t)) == old(
                    self,
                ).has_token(t) by {
                    if old(self).has_token(t) {
                        let i = choose|i: int| old(self).token_at(i, t);
                        assert(i != idx);
                        assert(ne[i] == oe[i]);
                        assert(self.token_at(i, t));
                    }
                    if self.has_token(t) {
                        let i = choose|i: int| self.token_at(i, t);
                        assert(i != idx);
                        assert(ne[i] == oe[i]);
                        assert(old(self).token_at(i, t));
                    }
                }
                assert forall|t: Seq<char>| t != tv && old(self).has_token(t) implies (
                #[trigger] self.session_for(t)) == old(self).session_for(t) by {
                    let i = choose|i: int| old(self).token_at(i, t);
                    assert(i != idx);
                    assert(ne[i] == oe[i]);
                    old(self).lemma_token_index_unique(i, t);
                    self.lemma_token_index_unique(i, t);
                }
            } else {
                let idx = oe.len() as int;
                assert(ne[idx] == (token_out, sess));
                assert(self.token_at(idx, tv));
                self.lemma_token_index_unique(idx, tv);
                assert forall|t: Seq<char>| t != tv implies (#[trigger] self.has_token(t)) == old(
                    self,
                ).has_token(t) by {
                    if old(self).has_token(t) {
                        let i = choose|i: int| old(self).token_at(i, t);
                        assert(ne[i] == oe[i]);
                        assert(self.token_at(i, t));
                    }
                    if self.has_token(t) {
                        let i = choose|i: int| self.token_at(i, t);
                        assert(i != idx);
                        assert(ne[i] == oe[i]);
                        assert(old(self).token_at(i, t));
                    }
                }
                assert forall|t: Seq<char>| t != tv && old(self).has_token(t) implies (
                #[trigger] self.session_for(t)) == old(self).session_for(t) by {
                    let i = choose|i: int| old(self).token_at(i, t);
                    assert(ne[i] == oe[i]);
                    old(self).lemma_token_index_unique(i, t);
                    self.lemma_token_index_unique(i, t);
                }
            }
        }
        token_out
    }

    /// Bulk sweep: remove every session that is no longer live at `now`, and
    /// report how many were removed.
    pub fn cleanup_expired(&mut self, now: i64) -> (removed: usize)
        requires
            old(self).wf(),
        ensures
            final(self).wf(),
            final(self).ttl() == old(self).ttl(),
            final(self).entries_view() == old(self).entries_view().filter(live_entry(now)),
            removed == old(self).entries_view().len() - final(self).entries_view().len(),
    {
        broadcast use vstd::prelude::Seq::lemma_filter_push;

        let ghost orig = old(self).entries_view();
        let mut work: Vec<(String, Session)> = Vec::new();
        core::mem::swap(&mut self.entries, &mut work);
        let n = work.len();
        let mut k: usize = 0;
        while k < n
            invariant
                self.session_ttl == old(self).session_ttl,
                old(self).wf(),
                n == orig.len(),
                0 <= k <= n,
                work@ == orig.skip(k as int),
                self.entries@ == orig.take(k as int).filter(live_entry(now)),
            decreases n - k,
        {
            proof {
                assert(orig.skip(k as int)[0] == orig[k as int]);
                assert(orig.skip(k as int).remove(0) =~= orig.skip(k as int + 1));
                assert(orig.take(k as int + 1) =~= orig.take(k as int).push(orig[k as int]));
                orig.take(k as int).lemma_filter_push(orig[k as int], live_entry(now));
            }
            let ghost pre = self.entries@;
            let e = work.remove(0);
            if now < e.1.expires_at {
                self.entries.push(e);
                proof {
                    assert(live_entry(now)(orig[k as int]));
                    assert(self.entries@ == pre.push(orig[k as int]));
                }
            } else {
                proof {
                    assert(!live_entry(now)(orig[k as int]));
                }
            }
            k += 1;
        }
        proof {
            assert(orig.take(n as int) =~= orig);
            lemma_filter_entries_wf(orig, live_entry(now));
            orig.lemma_filter_len(live_entry(now));
        }
        self.entries.len();
        let kept = self.entries.len();
        n - kept
    }
}

} // verus!

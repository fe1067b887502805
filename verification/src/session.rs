//! The ephemeral admin-login session table: opaque random tokens with a
//! fixed-window expiry, never extended by use, evaluated lazily at check
//! time.

use vstd::prelude::*;

verus! {

/// Session lifetime: 24 hours, counted from creation.
pub const SESSION_TTL_SECS: i64 = 86400;

/// The session table of string/instant pairs, seen as a table of character
/// sequences and instants.
pub open spec fn sessions_view(s: Seq<(String, i64)>) -> Seq<(Seq<char>, int)> {
    Seq::new(s.len(), |i: int| (s[i].0@, s[i].1 as int))
}

/// Session tokens are unique in the table.
pub open spec fn tokens_unique(s: Seq<(Seq<char>, int)>) -> bool {
    forall|i: int, j: int| 0 <= i < j < s.len() ==> s[i].0 != s[j].0
}

/// First index in the table at or after `lo` whose token is `t`.
pub open spec fn find_session_from(s: Seq<(Seq<char>, int)>, t: Seq<char>, lo: int) -> Option<int>
    decreases s.len() - lo,
{
    if lo < 0 || lo >= s.len() {
        None
    } else if s[lo].0 == t {
        Some(lo)
    } else {
        find_session_from(s, t, lo + 1)
    }
}

/// The creation instant of the session with token `t`, if present.
pub open spec fn session_created(s: Seq<(Seq<char>, int)>, t: Seq<char>) -> Option<int> {
    match find_session_from(s, t, 0) {
        Some(i) => Some(s[i].1),
        None => None,
    }
}

/// The table after recording token `t` as created at `now`: an existing
/// entry for `t` is rewritten, or a new entry is appended.
pub open spec fn session_upsert(s: Seq<(Seq<char>, int)>, t: Seq<char>, now: int) -> Seq<
    (Seq<char>, int),
> {
    match find_session_from(s, t, 0) {
        Some(i) => s.update(i, (t, now)),
        None => s.push((t, now)),
    }
}

/// The table after removing the session with token `t`, if present.
pub open spec fn session_removed(s: Seq<(Seq<char>, int)>, t: Seq<char>) -> Seq<(Seq<char>, int)> {
    match find_session_from(s, t, 0) {
        Some(i) => s.remove(i),
        None => s,
    }
}

/// A session created at `created` is live at `now`: its age is under the
/// fixed TTL. A session is never extended by use.
pub open spec fn live_at(created: int, now: int) -> bool {
    now - created < SESSION_TTL_SECS
}

/// The token `t` names a session that exists and is live at `now`.
pub open spec fn spec_session_valid(s: Seq<(Seq<char>, int)>, t: Seq<char>, now: int) -> bool {
    match session_created(s, t) {
        Some(created) => live_at(created, now),
        None => false,
    }
}

/// The table keeping only the sessions live at `now`, in order.
pub open spec fn live_sessions(s: Seq<(Seq<char>, int)>, now: int) -> Seq<(Seq<char>, int)>
    decreases s.len(),
{
    if s.len() == 0 {
        Seq::empty()
    } else {
        let rest = live_sessions(s.drop_last(), now);
        if live_at(s.last().1, now) {
            rest.push(s.last())
        } else {
            rest
        }
    }
}

/// What `find_session_from` returns: the first index at or after `lo` whose
/// token is `t`, or `None` when no such index exists.
pub proof fn lemma_find_session_from_props(s: Seq<(Seq<char>, int)>, t: Seq<char>, lo: int)
    requires
        0 <= lo <= s.len(),
    ensures
        match find_session_from(s, t, lo) {
            Some(i) => lo <= i < s.len() && s[i].0 == t && (forall|x: int|
                lo <= x < i ==> s[x].0 != t),
            None => forall|x: int| lo <= x < s.len() ==> s[x].0 != t,
        },
    decreases s.len() - lo,
{
    if lo < s.len() {
        if s[lo].0 == t {
        } else {
            lemma_find_session_from_props(s, t, lo + 1);
        }
    }
}

/// After recording token `t` at instant `now`, the table reports `t` as
/// created at `now`, and any other token is untouched.
pub proof fn lemma_session_upsert_created(s: Seq<(Seq<char>, int)>, t: Seq<char>, now: int)
    requires
        tokens_unique(s),
    ensures
        session_created(session_upsert(s, t, now), t) == Some(now),
        tokens_unique(session_upsert(s, t, now)),
{
    lemma_find_session_from_props(s, t, 0);
    let ns = session_upsert(s, t, now);
    lemma_find_session_from_props(ns, t, 0);
    match find_session_from(s, t, 0) {
        Some(i) => {
            assert(ns[i].0 == t);
            match find_session_from(ns, t, 0) {
                Some(x) => {
                    if x < i {
                        assert(ns[x].0 == s[x].0);
                    }
                },
                None => {
                    assert(ns[i].0 == t);
                },
            }
        },
        None => {
            assert(ns[s.len() as int].0 == t);
            match find_session_from(ns, t, 0) {
                Some(x) => {
                    if x < s.len() {
                        assert(ns[x].0 == s[x].0);
                    }
                },
                None => {},
            }
        },
    }
}

/// The fixed expiry window: a session recorded at `t` reports valid
/// strictly before `t + TTL` and invalid from `t + TTL` on, with no
/// transition back.
pub proof fn lemma_session_window(s: Seq<(Seq<char>, int)>, tok: Seq<char>, t: int, now: int)
    requires
        tokens_unique(s),
    ensures
        spec_session_valid(session_upsert(s, tok, t), tok, now) <==> now - t < SESSION_TTL_SECS,
{
    lemma_session_upsert_created(s, tok, t);
}

/// No transition reverses: a session already expired at one instant is
/// expired at every later instant — nothing but a fresh token makes a
/// check pass again, and use never extends a session.
pub proof fn lemma_expiry_is_final(s: Seq<(Seq<char>, int)>, t: Seq<char>, now1: int, now2: int)
    requires
        now1 <= now2,
        !spec_session_valid(s, t, now1),
    ensures
        !spec_session_valid(s, t, now2),
{
}

/// Purging expired sessions keeps tokens unique, and hands back only
/// entries of the original table.
pub proof fn lemma_live_sessions_unique(s: Seq<(Seq<char>, int)>, now: int)
    requires
        tokens_unique(s),
    ensures
        tokens_unique(live_sessions(s, now)),
        forall|p: int|
            0 <= p < live_sessions(s, now).len() ==> exists|q: int|
                0 <= q < s.len() && #[trigger] live_sessions(s, now)[p] == s[q],
    decreases s.len(),
{
    if s.len() > 0 {
        let rest = live_sessions(s.drop_last(), now);
        lemma_live_sessions_unique(s.drop_last(), now);
        if live_at(s.last().1, now) {
            let r = live_sessions(s, now);
            assert(r == rest.push(s.last()));
            assert forall|p: int| 0 <= p < r.len() implies exists|q: int|
                0 <= q < s.len() && #[trigger] r[p] == s[q] by {
                if p < rest.len() {
                    let q = choose|q: int| 0 <= q < s.drop_last().len() && rest[p] == s.drop_last()[q];
                    assert(r[p] == s[q]);
                } else {
                    assert(r[p] == s[s.len() - 1]);
                }
            }
            assert forall|i: int, j: int| 0 <= i < j < r.len() implies r[i].0 != r[j].0 by {
                if j < rest.len() {
                } else {
                    let q = choose|q: int| 0 <= q < s.drop_last().len() && rest[i] == s.drop_last()[q];
                    assert(s[q].0 != s[s.len() - 1].0);
                }
            }
        }
    }
}

/// Ephemeral, memory-only store of admin login sessions.
pub struct SessionStore {
    entries: Vec<(String, i64)>,
}

impl View for SessionStore {
    type V = Seq<(Seq<char>, int)>;

    closed spec fn view(&self) -> Seq<(Seq<char>, int)> {
        sessions_view(self.entries@)
    }
}

impl SessionStore {
    /// Well-formedness: tokens unique.
    pub open spec fn wf(&self) -> bool {
        tokens_unique(self@)
    }

    /// An empty session table.
    pub fn new() -> (r: SessionStore)
        ensures
            r.wf(),
            r@.len() == 0,
    {
        let r = SessionStore { entries: Vec::new() };
        proof {
            assert(r@ =~= Seq::<(Seq<char>, int)>::empty());
        }
        r
    }

    /// Number of sessions held, expired ones included.
    pub fn count(&self) -> (r: usize)
        ensures
            r == self@.len(),
    {
        self.entries.len()
    }

    /// Records a session with the given token, created at `now`.
    pub fn create_session(&mut self, token: &String, now: i64)
        requires
            old(self).wf(),
        ensures
            final(self).wf(),
            final(self)@ == session_upsert(old(self)@, token@, now as int),
            session_created(final(self)@, token@) == Some(now as int),
    {
        proof {
            lemma_find_session_from_props(self@, token@, 0);
            lemma_session_upsert_created(self@, token@, now as int);
        }
        let r = self.find(token);
        match r {
            Some(i) => {
                self.entries[i] = (token.clone(), now);
                proof {
                    assert(self@ =~= session_upsert(old(self)@, token@, now as int));
                }
            },
            None => {
                self.entries.push((token.clone(), now));
                proof {
                    assert(self@ =~= session_upsert(old(self)@, token@, now as int));
                }
            },
        }
    }

    /// Removes the session with the given token. An absent token is not an
    /// error: removal is idempotent.
    pub fn remove_session(&mut self, token: &String)
        requires
            old(self).wf(),
        ensures
            final(self).wf(),
            final(self)@ == session_removed(old(self)@, token@),
            session_created(final(self)@, token@) is None,
    {
        proof {
            lemma_find_session_from_props(self@, token@, 0);
        }
        let r = self.find(token);
        match r {
            Some(i) => {
                self.entries.remove(i);
                proof {
                    assert(self@ =~= session_removed(old(self)@, token@));
                    lemma_find_session_from_props(self@, token@, 0);
                }
            },
            None => {
                proof {
                    lemma_find_session_from_props(self@, token@, 0);
                }
            },
        }
    }

    /// True exactly when the token names a session younger than the TTL at
    /// instant `now`. Expiry is evaluated lazily here; nothing is mutated.
    pub fn is_valid_at(&self, token: &String, now: i64) -> (r: bool)
        ensures
            r == spec_session_valid(self@, token@, now as int),
    {
        let r = self.find(token);
        match r {
            Some(i) => {
                let created = self.entries[i].1;
                (now as i128) - (created as i128) < (SESSION_TTL_SECS as i128)
            },
            None => false,
        }
    }

    /// True exactly when the token names a session younger than the TTL at
    /// the present instant. A token the table does not hold is never valid,
    /// whatever the clock says.
    pub fn is_session_valid(&self, token: &String) -> (r: bool)
        ensures
            session_created(self@, token@) is None ==> !r,
            r ==> session_created(self@, token@) is Some,
    {
        let now = crate::clock::current_unix_time();
        self.is_valid_at(token, now)
    }

    /// Drops every session whose age is at or past the TTL, keeping the
    /// live ones in order.
    pub fn cleanup_expired(&mut self, now: i64)
        requires
            old(self).wf(),
        ensures
            final(self).wf(),
            final(self)@ == live_sessions(old(self)@, now as int),
    {
        let mut kept: Vec<(String, i64)> = Vec::new();
        let mut i: usize = 0;
        proof {
            assert(sessions_view(kept@) =~= live_sessions(self@.subrange(0, 0), now as int));
        }
        while i < self.entries.len()
            invariant
                i <= self.entries@.len(),
                self.entries@ == old(self).entries@,
                sessions_view(kept@) == live_sessions(
                    sessions_view(self.entries@).subrange(0, i as int),
                    now as int,
                ),
            decreases self.entries@.len() - i,
        {
            let ghost pre = sessions_view(self.entries@).subrange(0, i as int);
            proof {
                assert(sessions_view(self.entries@).subrange(0, i + 1).drop_last() =~= pre);
            }
            let entry = &self.entries[i];
            if (now as i128) - (entry.1 as i128) < (SESSION_TTL_SECS as i128) {
                let e = (entry.0.clone(), entry.1);
                kept.push(e);
                proof {
                    assert(sessions_view(kept@) =~= live_sessions(
                        sessions_view(self.entries@).subrange(0, i + 1),
                        now as int,
                    ));
                }
            } else {
                proof {
                    assert(sessions_view(kept@) =~= live_sessions(
                        sessions_view(self.entries@).subrange(0, i + 1),
                        now as int,
                    ));
                }
            }
            i += 1;
        }
        proof {
            assert(sessions_view(self.entries@).subrange(
                0,
                self.entries@.len() as int,
            ) =~= sessions_view(self.entries@));
            lemma_live_sessions_unique(old(self)@, now as int);
        }
        self.entries = kept;
    }

    /// Linear scan for the first entry with the given token; matches
    /// `find_session_from` at zero on the view.
    fn find(&self, token: &String) -> (r: Option<usize>)
        ensures
            match r {
                Some(i) => find_session_from(self@, token@, 0) == Some(i as int) && i
                    < self@.len() && self@[i as int].0 == token@ && self@[i as int].1
                    == self.spec_entry_instant(i as int),
                None => find_session_from(self@, token@, 0) is None,
            },
    {
        let mut j: usize = 0;
        while j < self.entries.len()
            invariant
                j <= self.entries@.len(),
                forall|x: int| 0 <= x < j ==> self@[x].0 != token@,
            decreases self.entries@.len() - j,
        {
            if self.entries[j].0.eq(token) {
                proof {
                    assert(self@[j as int].0 == self.entries@[j as int].0@);
                    lemma_find_session_from_props(self@, token@, 0);
                }
                return Some(j);
            }
            j += 1;
        }
        proof {
            lemma_find_session_from_props(self@, token@, 0);
        }
        None
    }

    /// The instant stored in entry `i` of the underlying table.
    closed spec fn spec_entry_instant(&self, i: int) -> int {
        self.entries@[i].1 as int
    }
}

} // verus!

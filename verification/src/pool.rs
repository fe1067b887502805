//! The credential pool: the authoritative in-memory account set, with
//! round-robin selection, session affinity and atomic reload.
//!
//! All mutating operations replace or rewrite whole fields of the pool in a
//! single step; a reload installs a fully new account set, so an observer
//! sees either the old set or the new one, never a mixture.

use vstd::prelude::*;

use crate::account::{spec_eligible, toggle_applied, Account, QuotaSnapshot};
use crate::errors::PoolError;

verus! {

/// Ghost state of the pool: the account sequence, the round-robin cursor and
/// the session-to-account binding table (session key to account id).
#[verifier::ext_equal]
pub ghost struct PoolView {
    pub accounts: Seq<Account>,
    pub cursor: int,
    pub bindings: Seq<(Seq<char>, Seq<char>)>,
}

/// Account ids are unique pool-wide.
pub open spec fn ids_unique(s: Seq<Account>) -> bool {
    forall|i: int, j: int| 0 <= i < j < s.len() ==> s[i].id@ != s[j].id@
}

/// Binding keys are unique in the binding table.
pub open spec fn keys_unique(b: Seq<(Seq<char>, Seq<char>)>) -> bool {
    forall|i: int, j: int| 0 <= i < j < b.len() ==> b[i].0 != b[j].0
}

impl PoolView {
    /// Well-formedness: unique ids, unique binding keys, cursor in range.
    pub open spec fn wf(self) -> bool {
        &&& ids_unique(self.accounts)
        &&& keys_unique(self.bindings)
        &&& if self.accounts.len() == 0 {
            self.cursor == 0
        } else {
            0 <= self.cursor < self.accounts.len()
        }
    }
}

/// First index in `[lo, hi)` holding an eligible account.
pub open spec fn find_eligible(s: Seq<Account>, lo: int, hi: int) -> Option<int>
    decreases hi - lo,
{
    if lo < 0 || lo >= hi || hi > s.len() {
        None
    } else if spec_eligible(s[lo]) {
        Some(lo)
    } else {
        find_eligible(s, lo + 1, hi)
    }
}

/// Round-robin successor: the first eligible index at or after the cursor,
/// wrapping around to the front if the tail holds none.
pub open spec fn next_eligible(s: Seq<Account>, cur: int) -> Option<int> {
    if find_eligible(s, cur, s.len() as int) is Some {
        find_eligible(s, cur, s.len() as int)
    } else {
        find_eligible(s, 0, cur)
    }
}

/// First index in the binding table at or after `lo` whose key is `k`.
pub open spec fn find_binding_from(
    b: Seq<(Seq<char>, Seq<char>)>,
    k: Seq<char>,
    lo: int,
) -> Option<int>
    decreases b.len() - lo,
{
    if lo < 0 || lo >= b.len() {
        None
    } else if b[lo].0 == k {
        Some(lo)
    } else {
        find_binding_from(b, k, lo + 1)
    }
}

/// The account id a session key is bound to, if any.
pub open spec fn binding_value(b: Seq<(Seq<char>, Seq<char>)>, k: Seq<char>) -> Option<Seq<char>> {
    match find_binding_from(b, k, 0) {
        Some(i) => Some(b[i].1),
        None => None,
    }
}

/// The binding table after binding `k` to `v`: the existing entry for `k` is
/// rewritten, or a new entry is appended.
pub open spec fn binding_upsert(
    b: Seq<(Seq<char>, Seq<char>)>,
    k: Seq<char>,
    v: Seq<char>,
) -> Seq<(Seq<char>, Seq<char>)> {
    match find_binding_from(b, k, 0) {
        Some(i) => b.update(i, (k, v)),
        None => b.push((k, v)),
    }
}

/// First index in the account sequence at or after `lo` whose id is `id`.
pub open spec fn find_id_from(s: Seq<Account>, id: Seq<char>, lo: int) -> Option<int>
    decreases s.len() - lo,
{
    if lo < 0 || lo >= s.len() {
        None
    } else if s[lo].id@ == id {
        Some(lo)
    } else {
        find_id_from(s, id, lo + 1)
    }
}

/// Index of the account with the given id, if present.
pub open spec fn idx_of_id(s: Seq<Account>, id: Seq<char>) -> Option<int> {
    find_id_from(s, id, 0)
}

/// The index of the eligible account a live binding for `k` points at, if
/// the binding exists, the account exists, and it is still eligible.
pub open spec fn bound_eligible_idx(v: PoolView, k: Seq<char>) -> Option<int> {
    match binding_value(v.bindings, k) {
        None => None,
        Some(id) => match idx_of_id(v.accounts, id) {
            None => None,
            Some(i) => if spec_eligible(v.accounts[i]) {
                Some(i)
            } else {
                None
            },
        },
    }
}

/// The cursor after serving index `i` in a pool of `len` accounts.
pub open spec fn cursor_after(i: int, len: int) -> int {
    if i + 1 == len {
        0
    } else {
        i + 1
    }
}

/// One whole `select` step on the ghost state: the new state and the index
/// of the account served (`None` when no account is eligible).
///
/// A live binding wins and leaves the state untouched; otherwise the next
/// eligible account from the cursor is served, the cursor advances past it,
/// and the session key (when given) is re-bound to the account served.
pub open spec fn select_transition(v: PoolView, key: Option<Seq<char>>) -> (PoolView, Option<
    int,
>) {
    let bound = match key {
        Some(k) => bound_eligible_idx(v, k),
        None => None,
    };
    if bound is Some {
        (v, bound)
    } else {
        match next_eligible(v.accounts, v.cursor) {
            None => (v, None),
            Some(i) => (
                PoolView {
                    accounts: v.accounts,
                    cursor: cursor_after(i, v.accounts.len() as int),
                    bindings: match key {
                        Some(k) => binding_upsert(v.bindings, k, v.accounts[i].id@),
                        None => v.bindings,
                    },
                },
                Some(i),
            ),
        }
    }
}

/// The account set after a reload from the given store records: malformed
/// records (`None`) are skipped, and a record whose id was already loaded is
/// skipped as well, keeping ids unique.
pub open spec fn loaded_accounts(records: Seq<Option<Account>>) -> Seq<Account>
    decreases records.len(),
{
    if records.len() == 0 {
        Seq::empty()
    } else {
        let rest = loaded_accounts(records.drop_last());
        match records.last() {
            Some(a) => if idx_of_id(rest, a.id@) is Some {
                rest
            } else {
                rest.push(a)
            },
            None => rest,
        }
    }
}

/// The id strings of a reorder request, seen as character sequences.
pub open spec fn ids_view(ids: Seq<String>) -> Seq<Seq<char>> {
    Seq::new(ids.len(), |i: int| ids[i]@)
}

/// The reorder request names each existing account id exactly once.
pub open spec fn is_permutation_of(ids: Seq<Seq<char>>, accounts: Seq<Account>) -> bool {
    &&& ids.len() == accounts.len()
    &&& (forall|i: int, j: int| 0 <= i < j < ids.len() ==> ids[i] != ids[j])
    &&& (forall|i: int| 0 <= i < ids.len() ==> idx_of_id(accounts, ids[i]) is Some)
}

/// The binding table of string pairs, seen as a table of character
/// sequences.
pub open spec fn bindings_view(b: Seq<(String, String)>) -> Seq<(Seq<char>, Seq<char>)> {
    Seq::new(b.len(), |i: int| (b[i].0@, b[i].1@))
}

/// What `find_eligible` returns: the first index in `[lo, hi)` holding an
/// eligible account, or `None` when the range holds none.
pub proof fn lemma_find_eligible_props(s: Seq<Account>, lo: int, hi: int)
    requires
        0 <= lo <= hi <= s.len(),
    ensures
        match find_eligible(s, lo, hi) {
            Some(i) => lo <= i < hi && spec_eligible(s[i]) && (forall|t: int|
                lo <= t < i ==> !spec_eligible(s[t])),
            None => forall|t: int| lo <= t < hi ==> !spec_eligible(s[t]),
        },
    decreases hi - lo,
{
    if lo < hi {
        if spec_eligible(s[lo]) {
        } else {
            lemma_find_eligible_props(s, lo + 1, hi);
        }
    }
}

/// What `find_binding_from` returns: the first index at or after `lo` whose
/// key is `k`, or `None` when no such index exists.
pub proof fn lemma_find_binding_from_props(b: Seq<(Seq<char>, Seq<char>)>, k: Seq<char>, lo: int)
    requires
        0 <= lo <= b.len(),
    ensures
        match find_binding_from(b, k, lo) {
            Some(i) => lo <= i < b.len() && b[i].0 == k && (forall|t: int|
                lo <= t < i ==> b[t].0 != k),
            None => forall|t: int| lo <= t < b.len() ==> b[t].0 != k,
        },
    decreases b.len() - lo,
{
    if lo < b.len() {
        if b[lo].0 == k {
        } else {
            lemma_find_binding_from_props(b, k, lo + 1);
        }
    }
}

/// In-memory manager of accounts and selection policy.
pub struct CredentialPool {
    accounts: Vec<Account>,
    cursor: usize,
    bindings: Vec<(String, String)>,
}

impl View for CredentialPool {
    type V = PoolView;

    closed spec fn view(&self) -> PoolView {
        PoolView {
            accounts: self.accounts@,
            cursor: self.cursor as int,
            bindings: bindings_view(self.bindings@),
        }
    }
}

impl CredentialPool {
    /// Well-formedness of the pool state.
    pub open spec fn wf(&self) -> bool {
        self@.wf()
    }

    /// An empty pool.
    pub fn new() -> (r: CredentialPool)
        ensures
            r.wf(),
            r@.accounts.len() == 0,
            r@.cursor == 0,
            r@.bindings.len() == 0,
    {
        let r = CredentialPool { accounts: Vec::new(), cursor: 0, bindings: Vec::new() };
        proof {
            assert(r@.bindings =~= Seq::<(Seq<char>, Seq<char>)>::empty());
        }
        r
    }

    /// Total loaded accounts, unfiltered.
    pub fn count(&self) -> (r: usize)
        ensures
            r == self@.accounts.len(),
    {
        self.accounts.len()
    }

    /// A field-wise copy of the account at position `i`.
    pub fn get(&self, i: usize) -> (r: Option<Account>)
        ensures
            match r {
                Some(a) => i < self@.accounts.len() && a == self@.accounts[i as int],
                None => i >= self@.accounts.len(),
            },
    {
        if i < self.accounts.len() {
            Some(self.accounts[i].duplicate())
        } else {
            None
        }
    }

    /// Drops the entire session binding table.
    pub fn clear_all_sessions(&mut self)
        ensures
            final(self)@.bindings.len() == 0,
            final(self)@.accounts == old(self)@.accounts,
            final(self)@.cursor == old(self)@.cursor,
            old(self).wf() ==> final(self).wf(),
    {
        self.bindings = Vec::new();
        proof {
            assert(self@.bindings =~= Seq::<(Seq<char>, Seq<char>)>::empty());
        }
    }

    /// Serves the next account.
    ///
    /// If the session key has a live binding to an eligible account, that
    /// account is returned and the pool is untouched. Otherwise the next
    /// eligible account is picked round-robin from the shared cursor, the
    /// cursor advances past it, and a new binding is recorded when a session
    /// key was given. Fails with `NoAccountAvailable` when no eligible
    /// account exists.
    pub fn select(&mut self, session_key: Option<&String>) -> (r: Result<Account, PoolError>)
        requires
            old(self).wf(),
        ensures
            final(self).wf(),
            ({
                let keyv = match session_key {
                    Some(k) => Some(k@),
                    None => None::<Seq<char>>,
                };
                let step = select_transition(old(self)@, keyv);
                &&& final(self)@ == step.0
                &&& match step.1 {
                    Some(i) => r matches Ok(a) && a == old(self)@.accounts[i] && spec_eligible(a),
                    None => r matches Err(e) && e == PoolError::NoAccountAvailable,
                }
            }),
    {
        let ghost keyv = match session_key {
            Some(k) => Some(k@),
            None => None::<Seq<char>>,
        };
        // Phase 1: a live binding to an eligible account wins.
        if let Some(k) = session_key {
            if let Some(bidx) = find_binding(&self.bindings, k) {
                let bound_id = self.bindings[bidx].1.clone();
                if let Some(aidx) = find_account(&self.accounts, &bound_id) {
                    if self.accounts[aidx].eligible() {
                        return Ok(self.accounts[aidx].duplicate());
                    }
                }
            }
        }
        proof {
            assert(match keyv {
                Some(k) => bound_eligible_idx(old(self)@, k) is None,
                None => true,
            });
        }
        // Phase 2: round robin from the cursor.
        let len = self.accounts.len();
        if len == 0 {
            return Err(PoolError::NoAccountAvailable);
        }
        let ghost accs = self@.accounts;
        let tail = scan_eligible(&self.accounts, self.cursor, len);
        let found = match tail {
            Some(i) => Some(i),
            None => scan_eligible(&self.accounts, 0, self.cursor),
        };
        match found {
            None => {
                proof {
                    assert(next_eligible(accs, old(self)@.cursor) is None);
                }
                Err(PoolError::NoAccountAvailable)
            },
            Some(idx) => {
                proof {
                    assert(next_eligible(accs, old(self)@.cursor) == Some(idx as int));
                }
                self.cursor = if idx + 1 == len {
                    0
                } else {
                    idx + 1
                };
                let account = self.accounts[idx].duplicate();
                if let Some(k) = session_key {
                    let id = account.id.clone();
                    upsert_binding(&mut self.bindings, k, id);
                }
                proof {
                    let step = select_transition(old(self)@, keyv);
                    assert(self@ =~= step.0);
                }
                Ok(account)
            },
        }
    }

    /// Replaces the entire in-memory set atomically from the given store
    /// records and returns the count loaded.
    ///
    /// A malformed record (`None`) is skipped rather than aborting the load,
    /// as is a record whose id was already loaded. The round-robin cursor
    /// keeps its position when it still points into the new set, so a
    /// reload that only flips a flag does not hand the next turn back to
    /// the front; a cursor past the new end starts over. Session bindings
    /// are kept and re-checked lazily on selection.
    pub fn load_accounts(&mut self, records: &Vec<Option<Account>>) -> (count: usize)
        ensures
            final(self)@.accounts == loaded_accounts(records@),
            final(self)@.cursor == if old(self)@.cursor < loaded_accounts(records@).len() {
                old(self)@.cursor
            } else {
                0
            },
            final(self)@.bindings == old(self)@.bindings,
            count == final(self)@.accounts.len(),
            old(self).wf() ==> final(self).wf(),
    {
        let mut loaded: Vec<Account> = Vec::new();
        let mut i: usize = 0;
        proof {
            assert(records@.subrange(0, 0) =~= Seq::<Option<Account>>::empty());
        }
        while i < records.len()
            invariant
                i <= records.len(),
                loaded@ == loaded_accounts(records@.subrange(0, i as int)),
                ids_unique(loaded@),
            decreases records.len() - i,
        {
            let ghost prefix = records@.subrange(0, i as int);
            proof {
                assert(records@.subrange(0, i + 1).drop_last() =~= prefix);
                assert(records@.subrange(0, i + 1).last() == records@[i as int]);
            }
            match &records[i] {
                Some(a) => {
                    let dup = a.duplicate();
                    if !has_id(&loaded, &dup.id) {
                        proof {
                            lemma_find_id_from_props(loaded@, dup.id@, 0);
                        }
                        loaded.push(dup);
                    }
                },
                None => {},
            }
            i += 1;
        }
        proof {
            assert(records@.subrange(0, records@.len() as int) =~= records@);
        }
        let count = loaded.len();
        if self.cursor >= count {
            self.cursor = 0;
        }
        self.accounts = loaded;
        count
    }

    /// Computes the toggled copy of the account with the given id, for the
    /// caller to persist durably. The in-memory pool is deliberately left
    /// untouched: writes go through storage first and a reload resyncs
    /// memory, so disk and memory cannot diverge.
    pub fn toggle(&self, id: &String, enable: bool, reason: Option<String>, now: i64) -> (r:
        Result<Account, PoolError>)
        ensures
            match idx_of_id(self@.accounts, id@) {
                Some(i) => r matches Ok(a) && toggle_applied(
                    self@.accounts[i],
                    a,
                    enable,
                    reason,
                    now,
                ),
                None => r matches Err(e) && e == PoolError::NotFound,
            },
    {
        match find_account(&self.accounts, id) {
            None => Err(PoolError::NotFound),
            Some(i) => {
                let mut a = self.accounts[i].duplicate();
                a.toggle_proxy(enable, reason, now);
                Ok(a)
            },
        }
    }

    /// Rewrites the stable ordering: account `ids[i]` moves to position `i`.
    ///
    /// Fails with `Validation`, leaving the pool untouched, unless `ids` is
    /// a permutation of the existing account ids. On success the cursor is
    /// reset; bindings are kept.
    #[verifier::loop_isolation(false)]
    pub fn reorder(&mut self, ids: &Vec<String>) -> (r: Result<(), PoolError>)
        requires
            old(self).wf(),
        ensures
            final(self).wf(),
            match r {
                Ok(()) => {
                    &&& is_permutation_of(ids_view(ids@), old(self)@.accounts)
                    &&& final(self)@.accounts.len() == old(self)@.accounts.len()
                    &&& (forall|i: int|
                        0 <= i < ids@.len() ==> (#[trigger] idx_of_id(old(self)@.accounts, ids@[i]@) matches
                            Some(x) && final(self)@.accounts[i] == old(self)@.accounts[x]))
                    &&& final(self)@.cursor == 0
                    &&& final(self)@.bindings == old(self)@.bindings
                },
                Err(e) => {
                    &&& e == PoolError::Validation
                    &&& !is_permutation_of(ids_view(ids@), old(self)@.accounts)
                    &&& final(self)@ == old(self)@
                },
            },
    {
        if ids.len() != self.accounts.len() {
            return Err(PoolError::Validation);
        }
        let mut reordered: Vec<Account> = Vec::new();
        let mut i: usize = 0;
        while i < ids.len()
            invariant
                i <= ids@.len(),
                ids@.len() == self@.accounts.len(),
                reordered@.len() == i,
                forall|p: int, q: int| 0 <= p < q < i ==> ids@[p]@ != ids@[q]@,
                forall|t: int|
                    0 <= t < i ==> (#[trigger] idx_of_id(self@.accounts, ids@[t]@) matches Some(x)
                        && reordered@[t] == self@.accounts[x]),
                forall|t: int| 0 <= t < i ==> reordered@[t].id@ == ids@[t]@,
            decreases ids@.len() - i,
        {
            if string_in_prefix(ids, i, &ids[i]) {
                proof {
                    let t = choose|t: int| 0 <= t < i && ids@[t]@ == ids@[i as int]@;
                    assert(ids_view(ids@)[t] == ids_view(ids@)[i as int]);
                }
                return Err(PoolError::Validation);
            }
            match find_account(&self.accounts, &ids[i]) {
                None => {
                    proof {
                        assert(ids_view(ids@)[i as int] == ids@[i as int]@);
                    }
                    return Err(PoolError::Validation);
                },
                Some(x) => {
                    reordered.push(self.accounts[x].duplicate());
                },
            }
            i += 1;
        }
        proof {
            let iv = ids_view(ids@);
            assert forall|p: int, q: int| 0 <= p < q < iv.len() implies iv[p] != iv[q] by {
                assert(iv[p] == ids@[p]@);
                assert(iv[q] == ids@[q]@);
            }
            assert forall|t: int| 0 <= t < iv.len() implies idx_of_id(self@.accounts, iv[t]) is Some by {
                assert(iv[t] == ids@[t]@);
            }
            assert forall|p: int, q: int|
                0 <= p < q < reordered@.len() implies reordered@[p].id@ != reordered@[q].id@ by {
                assert(reordered@[p].id@ == ids@[p]@);
                assert(reordered@[q].id@ == ids@[q]@);
            }
        }
        self.accounts = reordered;
        self.cursor = 0;
        Ok(())
    }

    /// Updates the quota snapshot of the account with the given id in place
    /// and returns whether the account was found. Quota is the only field
    /// allowed to mutate without a full reload, since it is peripheral, not
    /// identity or eligibility.
    pub fn update_quota(&mut self, id: &String, quota: QuotaSnapshot) -> (found: bool)
        requires
            old(self).wf(),
        ensures
            final(self).wf(),
            final(self)@.cursor == old(self)@.cursor,
            final(self)@.bindings == old(self)@.bindings,
            match idx_of_id(old(self)@.accounts, id@) {
                Some(i) => {
                    &&& found
                    &&& final(self)@.accounts.len() == old(self)@.accounts.len()
                    &&& final(self)@.accounts[i].quota == quota
                    &&& final(self)@.accounts[i].id == old(self)@.accounts[i].id
                    &&& final(self)@.accounts[i].email == old(self)@.accounts[i].email
                    &&& final(self)@.accounts[i].display_name == old(
                        self,
                    )@.accounts[i].display_name
                    &&& final(self)@.accounts[i].token == old(self)@.accounts[i].token
                    &&& final(self)@.accounts[i].proxy_disabled == old(
                        self,
                    )@.accounts[i].proxy_disabled
                    &&& final(self)@.accounts[i].proxy_disabled_reason == old(
                        self,
                    )@.accounts[i].proxy_disabled_reason
                    &&& final(self)@.accounts[i].proxy_disabled_at == old(
                        self,
                    )@.accounts[i].proxy_disabled_at
                    &&& final(self)@.accounts[i].position == old(self)@.accounts[i].position
                    &&& (forall|t: int|
                        0 <= t < old(self)@.accounts.len() && t != i ==> final(self)@.accounts[t]
                            == old(self)@.accounts[t])
                },
                None => !found && final(self)@ == old(self)@,
            },
    {
        match find_account(&self.accounts, id) {
            None => false,
            Some(i) => {
                self.accounts[i].quota = quota;
                true
            },
        }
    }
}

/// What `find_id_from` returns: the first index at or after `lo` whose id is
/// `id`, or `None` when no such index exists.
pub proof fn lemma_find_id_from_props(s: Seq<Account>, id: Seq<char>, lo: int)
    requires
        0 <= lo <= s.len(),
    ensures
        match find_id_from(s, id, lo) {
            Some(i) => lo <= i < s.len() && s[i].id@ == id && (forall|t: int|
                lo <= t < i ==> s[t].id@ != id),
            None => forall|t: int| lo <= t < s.len() ==> s[t].id@ != id,
        },
    decreases s.len() - lo,
{
    if lo < s.len() {
        if s[lo].id@ == id {
        } else {
            lemma_find_id_from_props(s, id, lo + 1);
        }
    }
}

/// No account of the pool takes part in selection: the pool is empty or
/// fully disabled.
pub open spec fn no_eligible(s: Seq<Account>) -> bool {
    forall|i: int| 0 <= i < s.len() ==> !spec_eligible(s[i])
}

/// Every account of the pool takes part in selection.
pub open spec fn all_eligible(s: Seq<Account>) -> bool {
    forall|i: int| 0 <= i < s.len() ==> spec_eligible(s[i])
}

/// A `select` step comes back empty exactly when the pool is empty or fully
/// disabled, whatever session key is offered.
pub proof fn lemma_select_none_iff_no_eligible(v: PoolView, key: Option<Seq<char>>)
    requires
        v.wf(),
    ensures
        (select_transition(v, key).1 is None) <==> no_eligible(v.accounts),
{
    lemma_find_eligible_props(v.accounts, v.cursor, v.accounts.len() as int);
    lemma_find_eligible_props(v.accounts, 0, v.cursor);
    match key {
        Some(k) => match binding_value(v.bindings, k) {
            Some(id) => {
                lemma_find_id_from_props(v.accounts, id, 0);
            },
            None => {},
        },
        None => {},
    }
}

/// Position `x` reduced into `[0, len)`, for `x` below `2 * len`.
pub open spec fn wrap_index(x: int, len: int) -> int {
    if x < len {
        x
    } else {
        x - len
    }
}

/// The indices served by `n` consecutive selects without a session key,
/// starting from pool state `v`.
pub open spec fn select_indices(v: PoolView, n: nat) -> Seq<int>
    decreases n,
{
    if n == 0 {
        Seq::empty()
    } else {
        let step = select_transition(v, None);
        match step.1 {
            Some(i) => seq![i] + select_indices(step.0, (n - 1) as nat),
            None => Seq::empty(),
        }
    }
}

/// On a fully eligible pool a no-session `select` serves exactly the account
/// under the cursor and advances the cursor by one, wrapping at the end.
pub proof fn lemma_select_step_all_eligible(v: PoolView)
    requires
        v.wf(),
        v.accounts.len() > 0,
        all_eligible(v.accounts),
    ensures
        select_transition(v, None) == (
            PoolView {
                accounts: v.accounts,
                cursor: cursor_after(v.cursor, v.accounts.len() as int),
                bindings: v.bindings,
            },
            Some(v.cursor),
        ),
{
    assert(spec_eligible(v.accounts[v.cursor]));
    assert(find_eligible(v.accounts, v.cursor, v.accounts.len() as int) == Some(v.cursor));
}

/// Closed form of `select_indices` on a fully eligible pool: the `j`-th
/// select serves position `cursor + j`, wrapped once past the end.
pub proof fn lemma_select_indices_all_eligible(v: PoolView, n: nat)
    requires
        v.wf(),
        v.accounts.len() > 0,
        all_eligible(v.accounts),
        n <= v.accounts.len(),
    ensures
        select_indices(v, n).len() == n,
        forall|j: int|
            0 <= j < n ==> #[trigger] select_indices(v, n)[j] == wrap_index(
                v.cursor + j,
                v.accounts.len() as int,
            ),
    decreases n,
{
    if n > 0 {
        let len = v.accounts.len() as int;
        lemma_select_step_all_eligible(v);
        let step = select_transition(v, None);
        lemma_select_indices_all_eligible(step.0, (n - 1) as nat);
        assert forall|j: int| 0 <= j < n implies #[trigger] select_indices(v, n)[j] == wrap_index(
            v.cursor + j,
            len,
        ) by {
            if j > 0 {
                assert(select_indices(v, n)[j] == select_indices(step.0, (n - 1) as nat)[j - 1]);
                assert(select_indices(step.0, (n - 1) as nat)[j - 1] == wrap_index(
                    step.0.cursor + (j - 1),
                    len,
                ));
            }
        }
    }
}

/// Round-robin fairness: for a pool of `M` eligible accounts, `M`
/// consecutive no-session selects serve every position exactly once — no
/// account repeats before each has had its turn — and, since ids are
/// unique, each account returned is distinct.
pub proof fn lemma_round_robin_fair(v: PoolView)
    requires
        v.wf(),
        v.accounts.len() > 0,
        all_eligible(v.accounts),
    ensures
        ({
            let ixs = select_indices(v, v.accounts.len() as nat);
            &&& ixs.len() == v.accounts.len()
            &&& (forall|j: int| 0 <= j < ixs.len() ==> 0 <= #[trigger] ixs[j] < v.accounts.len())
            &&& (forall|p: int, q: int|
                0 <= p < q < ixs.len() ==> #[trigger] ixs[p] != #[trigger] ixs[q])
            &&& (forall|p: int, q: int|
                0 <= p < q < ixs.len() ==> v.accounts[(#[trigger] ixs[p])].id@ != v.accounts[(#[trigger] ixs[q])].id@)
        }),
{
    let len = v.accounts.len() as int;
    lemma_select_indices_all_eligible(v, v.accounts.len() as nat);
    let ixs = select_indices(v, v.accounts.len() as nat);
    assert forall|p: int, q: int| 0 <= p < q < ixs.len() implies #[trigger] ixs[p]
        != #[trigger] ixs[q] by {
        assert(ixs[p] == wrap_index(v.cursor + p, len));
        assert(ixs[q] == wrap_index(v.cursor + q, len));
    }
    assert forall|p: int, q: int| 0 <= p < q < ixs.len() implies v.accounts[(#[trigger] ixs[p])].id@
        != v.accounts[(#[trigger] ixs[q])].id@ by {
        assert(ixs[p] == wrap_index(v.cursor + p, len));
        assert(ixs[q] == wrap_index(v.cursor + q, len));
        if ixs[p] < ixs[q] {
            assert(v.accounts[ixs[p]].id@ != v.accounts[ixs[q]].id@);
        } else {
            assert(v.accounts[ixs[q]].id@ != v.accounts[ixs[p]].id@);
        }
    }
}

/// A live binding wins and is stable: while the bound account stays
/// eligible, every `select` with that session key returns the same account
/// and leaves the pool unchanged.
pub proof fn lemma_binding_sticky(v: PoolView, k: Seq<char>)
    requires
        v.wf(),
        bound_eligible_idx(v, k) is Some,
    ensures
        select_transition(v, Some(k)) == (v, bound_eligible_idx(v, k)),
        select_transition(select_transition(v, Some(k)).0, Some(k)) == (v, bound_eligible_idx(
            v,
            k,
        )),
{
}

/// After binding `k` to `id`, the binding table maps `k` to `id`.
pub proof fn lemma_binding_upsert_value(b: Seq<(Seq<char>, Seq<char>)>, k: Seq<char>, id: Seq<char>)
    requires
        keys_unique(b),
    ensures
        binding_value(binding_upsert(b, k, id), k) == Some(id),
{
    lemma_find_binding_from_props(b, k, 0);
    let nb = binding_upsert(b, k, id);
    lemma_find_binding_from_props(nb, k, 0);
    match find_binding_from(b, k, 0) {
        Some(i) => {
            assert(nb[i].0 == k);
            match find_binding_from(nb, k, 0) {
                Some(x) => {
                    if x < i {
                        assert(nb[x].0 == b[x].0);
                    }
                },
                None => {
                    assert(nb[i].0 == k);
                },
            }
        },
        None => {
            assert(nb[b.len() as int].0 == k);
            match find_binding_from(nb, k, 0) {
                Some(x) => {
                    if x < b.len() {
                        assert(nb[x].0 == b[x].0);
                    }
                },
                None => {},
            }
        },
    }
}

/// Once the bound account is disabled, the next `select` for that session
/// key serves a different, eligible account and re-binds the key to it.
pub proof fn lemma_rebind_after_disable(v: PoolView, k: Seq<char>, i: int)
    requires
        v.wf(),
        0 <= i < v.accounts.len(),
        binding_value(v.bindings, k) == Some(v.accounts[i].id@),
        !spec_eligible(v.accounts[i]),
        !no_eligible(v.accounts),
    ensures
        ({
            let step = select_transition(v, Some(k));
            &&& step.1 matches Some(j) && 0 <= j < v.accounts.len() && spec_eligible(
                v.accounts[j],
            ) && v.accounts[j].id@ != v.accounts[i].id@ && binding_value(step.0.bindings, k)
                == Some(v.accounts[j].id@)
        }),
{
    let len = v.accounts.len() as int;
    lemma_find_id_from_props(v.accounts, v.accounts[i].id@, 0);
    match idx_of_id(v.accounts, v.accounts[i].id@) {
        Some(x) => {
            if x != i {
                assert(v.accounts[x].id@ == v.accounts[i].id@);
                assert(false);
            }
        },
        None => {
            assert(false);
        },
    }
    assert(bound_eligible_idx(v, k) is None);
    lemma_find_eligible_props(v.accounts, v.cursor, len);
    lemma_find_eligible_props(v.accounts, 0, v.cursor);
    let witness = choose|w: int| 0 <= w < len && spec_eligible(v.accounts[w]);
    assert(next_eligible(v.accounts, v.cursor) is Some);
    let j = next_eligible(v.accounts, v.cursor)->Some_0;
    assert(spec_eligible(v.accounts[j]));
    if v.accounts[j].id@ == v.accounts[i].id@ && j != i {
        assert(false);
    }
    lemma_binding_upsert_value(v.bindings, k, v.accounts[j].id@);
}

/// Linear scan for the first account with the given id; matches
/// `find_id_from` at zero on the view.
fn find_account(accounts: &Vec<Account>, id: &String) -> (r: Option<usize>)
    ensures
        match r {
            Some(i) => idx_of_id(accounts@, id@) == Some(i as int) && i < accounts@.len()
                && accounts@[i as int].id@ == id@,
            None => idx_of_id(accounts@, id@) is None,
        },
{
    let mut j: usize = 0;
    while j < accounts.len()
        invariant
            j <= accounts.len(),
            forall|t: int| 0 <= t < j ==> accounts@[t].id@ != id@,
        decreases accounts.len() - j,
    {
        if accounts[j].id.eq(id) {
            proof {
                lemma_find_id_from_props(accounts@, id@, 0);
            }
            return Some(j);
        }
        j += 1;
    }
    proof {
        lemma_find_id_from_props(accounts@, id@, 0);
    }
    None
}

/// Linear scan for the first binding with the given key; matches
/// `find_binding_from` at zero on the view.
fn find_binding(bindings: &Vec<(String, String)>, k: &String) -> (r: Option<usize>)
    ensures
        match r {
            Some(i) => find_binding_from(bindings_view(bindings@), k@, 0) == Some(i as int) && i
                < bindings@.len() && bindings@[i as int].0@ == k@,
            None => find_binding_from(bindings_view(bindings@), k@, 0) is None,
        },
{
    let mut j: usize = 0;
    while j < bindings.len()
        invariant
            j <= bindings.len(),
            forall|t: int| 0 <= t < j ==> bindings_view(bindings@)[t].0 != k@,
        decreases bindings.len() - j,
    {
        if bindings[j].0.eq(k) {
            proof {
                let bv = bindings_view(bindings@);
                assert(bv[j as int].0 == bindings@[j as int].0@);
                assert(bv[j as int].0 == k@);
                lemma_find_binding_from_props(bv, k@, 0);
            }
            return Some(j);
        }
        j += 1;
    }
    proof {
        lemma_find_binding_from_props(bindings_view(bindings@), k@, 0);
    }
    None
}

/// Linear scan for the first eligible account in `[lo, hi)`; matches
/// `find_eligible` on the view.
fn scan_eligible(accounts: &Vec<Account>, lo: usize, hi: usize) -> (r: Option<usize>)
    requires
        lo <= hi <= accounts@.len(),
    ensures
        match r {
            Some(i) => find_eligible(accounts@, lo as int, hi as int) == Some(i as int) && lo <= i
                < hi && spec_eligible(accounts@[i as int]),
            None => find_eligible(accounts@, lo as int, hi as int) is None,
        },
{
    let mut i: usize = lo;
    while i < hi
        invariant
            lo <= i <= hi <= accounts@.len(),
            forall|t: int| lo <= t < i ==> !spec_eligible(accounts@[t]),
        decreases hi - i,
    {
        if accounts[i].eligible() {
            proof {
                lemma_find_eligible_props(accounts@, lo as int, hi as int);
            }
            return Some(i);
        }
        i += 1;
    }
    proof {
        lemma_find_eligible_props(accounts@, lo as int, hi as int);
    }
    None
}

/// Rewrites the binding for `k` to `v`, or appends one; matches
/// `binding_upsert` on the view.
fn upsert_binding(bindings: &mut Vec<(String, String)>, k: &String, v: String)
    requires
        keys_unique(bindings_view(old(bindings)@)),
    ensures
        bindings_view(final(bindings)@) == binding_upsert(bindings_view(old(bindings)@), k@, v@),
        keys_unique(bindings_view(final(bindings)@)),
{
    let r = find_binding(bindings, k);
    proof {
        lemma_find_binding_from_props(bindings_view(bindings@), k@, 0);
    }
    match r {
        Some(j) => {
            bindings[j] = (k.clone(), v);
            proof {
                assert(bindings_view(bindings@) =~= binding_upsert(
                    bindings_view(old(bindings)@),
                    k@,
                    v@,
                ));
            }
        },
        None => {
            bindings.push((k.clone(), v));
            proof {
                assert(bindings_view(bindings@) =~= binding_upsert(
                    bindings_view(old(bindings)@),
                    k@,
                    v@,
                ));
            }
        },
    }
}

/// True when one of the first `upto` strings equals `s`.
fn string_in_prefix(ids: &Vec<String>, upto: usize, s: &String) -> (r: bool)
    requires
        upto <= ids@.len(),
    ensures
        r == exists|t: int| 0 <= t < upto && ids@[t]@ == s@,
{
    let mut j: usize = 0;
    while j < upto
        invariant
            j <= upto <= ids@.len(),
            forall|t: int| 0 <= t < j ==> ids@[t]@ != s@,
        decreases upto - j,
    {
        if ids[j].eq(s) {
            return true;
        }
        j += 1;
    }
    false
}

/// Linear scan for an account id; matches `idx_of_id` on the view.
fn has_id(accounts: &Vec<Account>, id: &String) -> (r: bool)
    ensures
        r == (idx_of_id(accounts@, id@) is Some),
{
    find_account(accounts, id).is_some()
}

} // verus!

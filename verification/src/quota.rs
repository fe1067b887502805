//! The quota-refresh engine: one composable retry/backoff policy, the
//! decision core of a single refresh with auth-retry and bounded transient
//! retries, and the strict single-pass batch aggregation.
//!
//! The outside quota and identity calls are performed by the caller; the
//! functions here decide, from state and event, what to do next, and are
//! verified for every outcome the calls could produce.

use vstd::prelude::*;

use crate::account::{spec_eligible, Account};
use crate::pool::CredentialPool;

verus! {

/// `factor` raised to `attempt`.
pub open spec fn spec_pow(factor: int, attempt: nat) -> int
    decreases attempt,
{
    if attempt == 0 {
        1
    } else {
        factor * spec_pow(factor, (attempt - 1) as nat)
    }
}

/// A power of a factor of at least one never shrinks as the exponent grows.
pub proof fn lemma_pow_monotone(factor: int, a: nat, b: nat)
    requires
        factor >= 1,
        a <= b,
    ensures
        1 <= spec_pow(factor, a) <= spec_pow(factor, b),
    decreases b,
{
    if b > 0 {
        if a == b {
            lemma_pow_monotone(factor, (a - 1) as nat, (b - 1) as nat);
            assert(spec_pow(factor, a) == factor * spec_pow(factor, (a - 1) as nat));
            assert(spec_pow(factor, (a - 1) as nat) >= 1);
            assert(factor * spec_pow(factor, (a - 1) as nat) >= 1 * spec_pow(
                factor,
                (a - 1) as nat,
            )) by (nonlinear_arith)
                requires
                    factor >= 1,
                    spec_pow(factor, (a - 1) as nat) >= 1,
            ;
        } else {
            lemma_pow_monotone(factor, a, (b - 1) as nat);
            assert(spec_pow(factor, b) == factor * spec_pow(factor, (b - 1) as nat));
            assert(factor * spec_pow(factor, (b - 1) as nat) >= 1 * spec_pow(
                factor,
                (b - 1) as nat,
            )) by (nonlinear_arith)
                requires
                    factor >= 1,
                    spec_pow(factor, (b - 1) as nat) >= 1,
            ;
        }
    }
}

/// One retry/backoff policy, reused by the quota call and the token
/// refresh: a bounded number of attempts, exponential delay with a base, a
/// multiplier and a cap.
pub struct RetryPolicy {
    /// How many quota attempts may be made in all.
    pub max_attempts: u32,
    /// Delay before the first retry, in milliseconds.
    pub base_delay_ms: u64,
    /// Multiplier applied to the delay per retry.
    pub factor: u64,
    /// Upper bound on any delay, in milliseconds.
    pub cap_ms: u64,
}

/// The delay before the retry following attempt number `attempt`:
/// exponential in the attempt, capped.
pub open spec fn spec_backoff(p: RetryPolicy, attempt: nat) -> int {
    let raw = p.base_delay_ms * spec_pow(p.factor as int, attempt);
    if raw < p.cap_ms {
        raw
    } else {
        p.cap_ms as int
    }
}

impl RetryPolicy {
    /// A policy is usable when its multiplier does not shrink delays.
    pub open spec fn wf(&self) -> bool {
        self.factor >= 1
    }

    /// The default policy: three attempts, half a second base delay,
    /// doubling, capped at thirty seconds.
    pub fn default_policy() -> (r: RetryPolicy)
        ensures
            r.wf(),
            r.max_attempts == 3,
            r.base_delay_ms == 500,
            r.factor == 2,
            r.cap_ms == 30000,
    {
        RetryPolicy { max_attempts: 3, base_delay_ms: 500, factor: 2, cap_ms: 30000 }
    }

    /// The delay, in milliseconds, before the retry that follows attempt
    /// number `attempt`.
    pub fn delay_for(&self, attempt: u32) -> (r: u64)
        requires
            self.wf(),
        ensures
            r == spec_backoff(*self, attempt as nat),
            r <= self.cap_ms,
    {
        let mut d: u64 = self.base_delay_ms;
        let mut i: u32 = 0;
        proof {
            assert(spec_pow(self.factor as int, 0) == 1);
        }
        while i < attempt
            invariant
                i <= attempt,
                self.wf(),
                d == self.base_delay_ms * spec_pow(self.factor as int, i as nat) || (d
                    == self.cap_ms && self.base_delay_ms * spec_pow(self.factor as int, i as nat)
                    >= self.cap_ms),
            decreases attempt - i,
        {
            proof {
                lemma_pow_monotone(self.factor as int, i as nat, (i + 1) as nat);
                assert(self.base_delay_ms * spec_pow(self.factor as int, (i + 1) as nat)
                    >= self.base_delay_ms * spec_pow(self.factor as int, i as nat))
                    by (nonlinear_arith)
                    requires
                        spec_pow(self.factor as int, (i + 1) as nat) >= spec_pow(
                            self.factor as int,
                            i as nat,
                        ),
                        self.base_delay_ms >= 0,
                ;
            }
            if d >= self.cap_ms {
                proof {
                    lemma_pow_monotone(self.factor as int, i as nat, attempt as nat);
                    assert(self.base_delay_ms * spec_pow(self.factor as int, attempt as nat)
                        >= self.base_delay_ms * spec_pow(self.factor as int, i as nat))
                        by (nonlinear_arith)
                        requires
                            spec_pow(self.factor as int, attempt as nat) >= spec_pow(
                                self.factor as int,
                                i as nat,
                            ),
                            self.base_delay_ms >= 0,
                    ;
                }
                return self.cap_ms;
            }
            proof {
                assert(self.base_delay_ms * spec_pow(self.factor as int, (i + 1) as nat) == (
                self.base_delay_ms * spec_pow(self.factor as int, i as nat)) * self.factor)
                    by (nonlinear_arith)
                    requires
                        spec_pow(self.factor as int, (i + 1) as nat) == self.factor as int
                            * spec_pow(self.factor as int, i as nat),
                ;
            }
            d = match d.checked_mul(self.factor) {
                Some(nd) => nd,
                None => {
                    proof {
                        lemma_pow_monotone(self.factor as int, (i + 1) as nat, attempt as nat);
                        assert(self.base_delay_ms * spec_pow(self.factor as int, attempt as nat)
                            >= self.base_delay_ms * spec_pow(self.factor as int, (i + 1) as nat))
                            by (nonlinear_arith)
                            requires
                                spec_pow(self.factor as int, attempt as nat) >= spec_pow(
                                    self.factor as int,
                                    (i + 1) as nat,
                                ),
                                self.base_delay_ms >= 0,
                        ;
                    }
                    return self.cap_ms;
                },
            };
            if d >= self.cap_ms {
                d = self.cap_ms;
                proof {
                    lemma_pow_monotone(self.factor as int, (i + 1) as nat, attempt as nat);
                }
            }
            i += 1;
        }
        if d >= self.cap_ms {
            self.cap_ms
        } else {
            d
        }
    }
}

/// How a failed outside call is classed for retry purposes.
#[derive(PartialEq, Eq, Structural, Debug, Clone, Copy)]
pub enum ErrorClass {
    /// An authentication failure: the access token is stale.
    Auth,
    /// A transient or network failure, a timeout included.
    Transient,
    /// A definitive, non-auth client failure: not retried.
    Definitive,
}

/// What the refresh of one account is waiting on, or how it ended.
#[derive(PartialEq, Eq, Structural, Debug, Clone, Copy)]
pub enum RefreshPhase {
    /// A quota call is owed; `attempt` quota attempts came before it.
    FetchQuota { attempt: u32, token_refreshed: bool },
    /// A token-refresh call is owed, after an auth failure at `attempt`.
    RefreshToken { attempt: u32 },
    /// The quota came back.
    Succeeded,
    /// The refresh is given up; the caller reports the last cause.
    Failed,
}

/// What the outside world answered.
#[derive(PartialEq, Eq, Structural, Debug, Clone, Copy)]
pub enum RefreshEvent {
    /// The quota call succeeded.
    QuotaOk,
    /// The quota call failed, classed for retry purposes.
    QuotaFailed(ErrorClass),
    /// The token refresh succeeded.
    TokenOk,
    /// The token refresh failed.
    TokenFailed,
}

/// The event answers the call the phase was waiting on.
pub open spec fn event_matches_phase(phase: RefreshPhase, event: RefreshEvent) -> bool {
    match phase {
        RefreshPhase::FetchQuota { .. } => event is QuotaOk || event is QuotaFailed,
        RefreshPhase::RefreshToken { .. } => event is TokenOk || event is TokenFailed,
        _ => false,
    }
}

/// The attempt counter stays under the policy's bound.
pub open spec fn phase_wf(p: RetryPolicy, phase: RefreshPhase) -> bool {
    match phase {
        RefreshPhase::FetchQuota { attempt, .. } => attempt < p.max_attempts,
        RefreshPhase::RefreshToken { attempt } => attempt < p.max_attempts,
        _ => true,
    }
}

/// The decision core of `refreshOne`, one step: given what the refresh was
/// waiting on and what came back, the next phase.
///
/// An auth-class failure earns one token refresh and then one more quota
/// try; a second auth failure gives up. A transient failure retries while
/// attempts remain, backed off by the policy. A definitive non-auth
/// failure gives up at once.
pub open spec fn spec_refresh_step(
    p: RetryPolicy,
    phase: RefreshPhase,
    event: RefreshEvent,
) -> RefreshPhase {
    match phase {
        RefreshPhase::FetchQuota { attempt, token_refreshed } => match event {
            RefreshEvent::QuotaOk => RefreshPhase::Succeeded,
            RefreshEvent::QuotaFailed(ErrorClass::Auth) => if !token_refreshed {
                RefreshPhase::RefreshToken { attempt }
            } else {
                RefreshPhase::Failed
            },
            RefreshEvent::QuotaFailed(ErrorClass::Transient) => if attempt + 1 < p.max_attempts {
                RefreshPhase::FetchQuota { attempt: (attempt + 1) as u32, token_refreshed }
            } else {
                RefreshPhase::Failed
            },
            RefreshEvent::QuotaFailed(ErrorClass::Definitive) => RefreshPhase::Failed,
            _ => phase,
        },
        RefreshPhase::RefreshToken { attempt } => match event {
            RefreshEvent::TokenOk => RefreshPhase::FetchQuota { attempt, token_refreshed: true },
            RefreshEvent::TokenFailed => RefreshPhase::Failed,
            _ => phase,
        },
        _ => phase,
    }
}

/// Executable mirror of `spec_refresh_step`.
pub fn refresh_step(p: &RetryPolicy, phase: RefreshPhase, event: RefreshEvent) -> (next:
    RefreshPhase)
    ensures
        next == spec_refresh_step(*p, phase, event),
{
    match phase {
        RefreshPhase::FetchQuota { attempt, token_refreshed } => match event {
            RefreshEvent::QuotaOk => RefreshPhase::Succeeded,
            RefreshEvent::QuotaFailed(ErrorClass::Auth) => {
                if !token_refreshed {
                    RefreshPhase::RefreshToken { attempt }
                } else {
                    RefreshPhase::Failed
                }
            },
            RefreshEvent::QuotaFailed(ErrorClass::Transient) => {
                if attempt < u32::MAX && attempt + 1 < p.max_attempts {
                    RefreshPhase::FetchQuota { attempt: attempt + 1, token_refreshed }
                } else {
                    RefreshPhase::Failed
                }
            },
            RefreshEvent::QuotaFailed(ErrorClass::Definitive) => RefreshPhase::Failed,
            _ => phase,
        },
        RefreshPhase::RefreshToken { attempt } => match event {
            RefreshEvent::TokenOk => RefreshPhase::FetchQuota { attempt, token_refreshed: true },
            RefreshEvent::TokenFailed => RefreshPhase::Failed,
            _ => phase,
        },
        _ => phase,
    }
}

/// A bound that shrinks on every step, so a refresh always ends.
pub open spec fn phase_measure(p: RetryPolicy, phase: RefreshPhase) -> int {
    match phase {
        RefreshPhase::FetchQuota { attempt, token_refreshed } => 3 * (p.max_attempts - attempt) + (
        if token_refreshed {
            0int
        } else {
            2int
        }),
        RefreshPhase::RefreshToken { attempt } => 3 * (p.max_attempts - attempt) + 1,
        _ => 0,
    }
}

/// Every refresh ends: each step either finishes or strictly shrinks a
/// nonnegative measure, the attempt counter stays bounded, and the token
/// is refreshed at most once — after a refresh, no step asks for another.
pub proof fn lemma_refresh_terminates(p: RetryPolicy, phase: RefreshPhase, event: RefreshEvent)
    requires
        phase_wf(p, phase),
        event_matches_phase(phase, event),
    ensures
        phase_wf(p, spec_refresh_step(p, phase, event)),
        spec_refresh_step(p, phase, event) is Succeeded || spec_refresh_step(p, phase, event)
            is Failed || phase_measure(p, spec_refresh_step(p, phase, event)) < phase_measure(
            p,
            phase,
        ),
        phase_measure(p, phase) >= 0,
        (phase matches RefreshPhase::FetchQuota { token_refreshed: true, .. }) ==> !(
        spec_refresh_step(p, phase, event) is RefreshToken),
{
}

/// Classes an HTTP answer of the quota source for retry purposes: success
/// finishes; 401 and 403 are auth-class; any other definitive client error
/// is not retried; everything else — server errors included — is
/// transient. A network failure or timeout never reaches this point and is
/// transient by itself.
pub fn classify_quota_status(status: u16) -> (r: RefreshEvent)
    ensures
        200 <= status < 300 ==> r == RefreshEvent::QuotaOk,
        status == 401 || status == 403 ==> r == RefreshEvent::QuotaFailed(ErrorClass::Auth),
        400 <= status < 500 && status != 401 && status != 403 ==> r == RefreshEvent::QuotaFailed(
            ErrorClass::Definitive,
        ),
        !(200 <= status < 300) && !(400 <= status < 500) ==> r == RefreshEvent::QuotaFailed(
            ErrorClass::Transient,
        ),
{
    if 200 <= status && status < 300 {
        RefreshEvent::QuotaOk
    } else if status == 401 || status == 403 {
        RefreshEvent::QuotaFailed(ErrorClass::Auth)
    } else if 400 <= status && status < 500 {
        RefreshEvent::QuotaFailed(ErrorClass::Definitive)
    } else {
        RefreshEvent::QuotaFailed(ErrorClass::Transient)
    }
}

/// How many of the outcomes are successes.
pub open spec fn count_true(s: Seq<bool>) -> int
    decreases s.len(),
{
    if s.len() == 0 {
        0
    } else {
        count_true(s.drop_last()) + if s.last() {
            1int
        } else {
            0int
        }
    }
}

/// The ids of the accounts a batch refresh visits: every account that is
/// not disabled, in pool order.
pub open spec fn eligible_ids(s: Seq<Account>) -> Seq<Seq<char>>
    decreases s.len(),
{
    if s.len() == 0 {
        Seq::empty()
    } else {
        let rest = eligible_ids(s.drop_last());
        if spec_eligible(s.last()) {
            rest.push(s.last().id@)
        } else {
            rest
        }
    }
}

/// The accounts a single batch pass visits: the non-disabled ones, in pool
/// order. Disabled accounts are skipped, not failed.
pub fn refresh_targets(pool: &CredentialPool) -> (r: Vec<String>)
    ensures
        crate::pool::ids_view(r@) == eligible_ids(pool@.accounts),
{
    let mut targets: Vec<String> = Vec::new();
    let n = pool.count();
    let mut i: usize = 0;
    proof {
        assert(crate::pool::ids_view(targets@) =~= eligible_ids(pool@.accounts.subrange(0, 0)));
    }
    while i < n
        invariant
            i <= n,
            n == pool@.accounts.len(),
            crate::pool::ids_view(targets@) == eligible_ids(pool@.accounts.subrange(0, i as int)),
        decreases n - i,
    {
        let ghost pre = pool@.accounts.subrange(0, i as int);
        proof {
            assert(pool@.accounts.subrange(0, i + 1).drop_last() =~= pre);
        }
        match pool.get(i) {
            Some(a) => {
                if a.eligible() {
                    targets.push(a.id);
                    proof {
                        assert(crate::pool::ids_view(targets@) =~= eligible_ids(
                            pool@.accounts.subrange(0, i + 1),
                        ));
                    }
                } else {
                    proof {
                        assert(crate::pool::ids_view(targets@) =~= eligible_ids(
                            pool@.accounts.subrange(0, i + 1),
                        ));
                    }
                }
            },
            None => {
                proof {
                    assert(false);
                }
            },
        }
        i += 1;
    }
    proof {
        assert(pool@.accounts.subrange(0, n as int) =~= pool@.accounts);
    }
    targets
}

/// Aggregates a strict single batch pass: per-account outcomes are
/// isolated and counted — successes and failures — and every outcome is
/// counted, so the batch never aborts early: the two counts always sum to
/// the number of accounts visited.
pub fn summarize_outcomes(outcomes: &Vec<bool>) -> (r: (usize, usize))
    ensures
        r.0 == count_true(outcomes@),
        r.1 == outcomes@.len() - count_true(outcomes@),
        r.0 + r.1 == outcomes@.len(),
{
    let mut success: usize = 0;
    let mut failed: usize = 0;
    let mut i: usize = 0;
    proof {
        assert(outcomes@.subrange(0, 0) =~= Seq::<bool>::empty());
    }
    while i < outcomes.len()
        invariant
            i <= outcomes@.len(),
            success == count_true(outcomes@.subrange(0, i as int)),
            success + failed == i,
        decreases outcomes@.len() - i,
    {
        proof {
            assert(outcomes@.subrange(0, i + 1).drop_last() =~= outcomes@.subrange(0, i as int));
        }
        if outcomes[i] {
            success += 1;
        } else {
            failed += 1;
        }
        i += 1;
    }
    proof {
        assert(outcomes@.subrange(0, outcomes@.len() as int) =~= outcomes@);
    }
    (success, failed)
}

} // verus!

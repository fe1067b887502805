use ag_gateway::account::{Account, QuotaSnapshot, TokenData};
use ag_gateway::pool::CredentialPool;
use ag_gateway::quota::{
    classify_quota_status, refresh_step, refresh_targets, summarize_outcomes, ErrorClass,
    RefreshEvent, RefreshPhase, RetryPolicy,
};

fn account(id: &str, disabled: bool) -> Account {
    Account {
        id: id.to_string(),
        email: format!("{}@example.com", id),
        display_name: id.to_string(),
        token: TokenData {
            access_token: format!("at-{}", id),
            refresh_token: format!("rt-{}", id),
            expires_at: 0,
        },
        quota: QuotaSnapshot {
            used: 0,
            tier: String::new(),
            last_refreshed: 0,
        },
        proxy_disabled: disabled,
        proxy_disabled_reason: None,
        proxy_disabled_at: None,
        position: 0,
    }
}

#[test]
fn backoff_grows_exponentially_and_caps() {
    let p = RetryPolicy::default_policy();
    assert_eq!(p.delay_for(0), 500);
    assert_eq!(p.delay_for(1), 1_000);
    assert_eq!(p.delay_for(2), 2_000);
    assert_eq!(p.delay_for(5), 16_000);
    assert_eq!(p.delay_for(6), 30_000, "the delay is capped");
    assert_eq!(p.delay_for(40), 30_000, "far past the cap it stays capped");
}

#[test]
fn auth_failure_earns_one_token_refresh_then_retry() {
    let p = RetryPolicy::default_policy();
    let start = RefreshPhase::FetchQuota { attempt: 0, token_refreshed: false };

    let after_auth = refresh_step(&p, start, RefreshEvent::QuotaFailed(ErrorClass::Auth));
    assert_eq!(after_auth, RefreshPhase::RefreshToken { attempt: 0 });

    let retrying = refresh_step(&p, after_auth, RefreshEvent::TokenOk);
    assert_eq!(retrying, RefreshPhase::FetchQuota { attempt: 0, token_refreshed: true });

    // A second auth failure gives up: the token refresh happens once only.
    let done = refresh_step(&p, retrying, RefreshEvent::QuotaFailed(ErrorClass::Auth));
    assert_eq!(done, RefreshPhase::Failed);
}

#[test]
fn token_refresh_failure_gives_up() {
    let p = RetryPolicy::default_policy();
    let waiting = RefreshPhase::RefreshToken { attempt: 1 };
    assert_eq!(refresh_step(&p, waiting, RefreshEvent::TokenFailed), RefreshPhase::Failed);
}

#[test]
fn transient_failures_retry_up_to_three_attempts() {
    let p = RetryPolicy::default_policy();
    let transient = RefreshEvent::QuotaFailed(ErrorClass::Transient);

    let s0 = RefreshPhase::FetchQuota { attempt: 0, token_refreshed: false };
    let s1 = refresh_step(&p, s0, transient);
    assert_eq!(s1, RefreshPhase::FetchQuota { attempt: 1, token_refreshed: false });
    let s2 = refresh_step(&p, s1, transient);
    assert_eq!(s2, RefreshPhase::FetchQuota { attempt: 2, token_refreshed: false });
    let s3 = refresh_step(&p, s2, transient);
    assert_eq!(s3, RefreshPhase::Failed, "the third failed attempt exhausts the budget");
}

#[test]
fn definitive_failure_is_not_retried() {
    let p = RetryPolicy::default_policy();
    let s0 = RefreshPhase::FetchQuota { attempt: 0, token_refreshed: false };
    let done = refresh_step(&p, s0, RefreshEvent::QuotaFailed(ErrorClass::Definitive));
    assert_eq!(done, RefreshPhase::Failed);
}

#[test]
fn quota_success_finishes() {
    let p = RetryPolicy::default_policy();
    let s0 = RefreshPhase::FetchQuota { attempt: 2, token_refreshed: true };
    assert_eq!(refresh_step(&p, s0, RefreshEvent::QuotaOk), RefreshPhase::Succeeded);
}

#[test]
fn batch_over_healthy_and_failing_account() {
    // Accounts: A answers its quota call; B always fails.
    let mut pool = CredentialPool::new();
    let records = vec![Some(account("a", false)), Some(account("b", false))];
    pool.load_accounts(&records);

    let p = RetryPolicy::default_policy();
    let targets = refresh_targets(&pool);
    assert_eq!(targets, vec!["a".to_string(), "b".to_string()]);

    let mut outcomes: Vec<bool> = Vec::new();
    for id in &targets {
        let mut phase = RefreshPhase::FetchQuota { attempt: 0, token_refreshed: false };
        loop {
            let event = if id == "a" {
                RefreshEvent::QuotaOk
            } else {
                RefreshEvent::QuotaFailed(ErrorClass::Transient)
            };
            phase = refresh_step(&p, phase, event);
            match phase {
                RefreshPhase::Succeeded => {
                    outcomes.push(true);
                    break;
                }
                RefreshPhase::Failed => {
                    outcomes.push(false);
                    break;
                }
                _ => {}
            }
        }
    }

    let (success, failed) = summarize_outcomes(&outcomes);
    assert_eq!(success, 1);
    assert_eq!(failed, 1);
    assert_eq!(success + failed, targets.len(), "the batch never aborts early");
}

#[test]
fn quota_status_classes() {
    assert_eq!(classify_quota_status(200), RefreshEvent::QuotaOk);
    assert_eq!(classify_quota_status(204), RefreshEvent::QuotaOk);
    assert_eq!(
        classify_quota_status(401),
        RefreshEvent::QuotaFailed(ErrorClass::Auth)
    );
    assert_eq!(
        classify_quota_status(403),
        RefreshEvent::QuotaFailed(ErrorClass::Auth)
    );
    assert_eq!(
        classify_quota_status(404),
        RefreshEvent::QuotaFailed(ErrorClass::Definitive)
    );
    assert_eq!(
        classify_quota_status(429),
        RefreshEvent::QuotaFailed(ErrorClass::Definitive)
    );
    assert_eq!(
        classify_quota_status(500),
        RefreshEvent::QuotaFailed(ErrorClass::Transient)
    );
    assert_eq!(
        classify_quota_status(302),
        RefreshEvent::QuotaFailed(ErrorClass::Transient)
    );
}

#[test]
fn summarize_counts_exactly() {
    assert_eq!(summarize_outcomes(&vec![]), (0, 0));
    assert_eq!(summarize_outcomes(&vec![true, true, true]), (3, 0));
    assert_eq!(summarize_outcomes(&vec![false, true, false, false]), (1, 3));
}

#[test]
fn refresh_targets_skip_disabled() {
    let mut pool = CredentialPool::new();
    let records = vec![
        Some(account("a", false)),
        Some(account("b", true)),
        Some(account("c", false)),
    ];
    pool.load_accounts(&records);
    let targets = refresh_targets(&pool);
    assert_eq!(targets, vec!["a".to_string(), "c".to_string()]);
}

use ag_gateway::account::{Account, QuotaSnapshot, TokenData};
use ag_gateway::errors::{pool_error_status, PoolError};
use ag_gateway::pool::CredentialPool;

fn account(id: &str, disabled: bool) -> Account {
    Account {
        id: id.to_string(),
        email: format!("{}@example.com", id),
        display_name: id.to_string(),
        token: TokenData {
            access_token: format!("at-{}", id),
            refresh_token: format!("rt-{}", id),
            expires_at: 9_999_999,
        },
        quota: QuotaSnapshot {
            used: 0,
            tier: "standard".to_string(),
            last_refreshed: 0,
        },
        proxy_disabled: disabled,
        proxy_disabled_reason: None,
        proxy_disabled_at: None,
        position: 0,
    }
}

fn pool_of(ids: &[(&str, bool)]) -> CredentialPool {
    let mut pool = CredentialPool::new();
    let records: Vec<Option<Account>> =
        ids.iter().map(|(id, disabled)| Some(account(id, *disabled))).collect();
    pool.load_accounts(&records);
    pool
}

#[test]
fn round_robin_serves_each_account_once() {
    let mut pool = pool_of(&[("a", false), ("b", false), ("c", false)]);
    let mut seen = Vec::new();
    for _ in 0..3 {
        seen.push(pool.select(None).unwrap().id);
    }
    let mut sorted = seen.clone();
    sorted.sort();
    sorted.dedup();
    assert_eq!(sorted.len(), 3, "three selects must serve three distinct accounts");
    // The next turn starts the cycle again.
    assert_eq!(pool.select(None).unwrap().id, seen[0]);
}

#[test]
fn select_on_empty_pool_fails() {
    let mut pool = CredentialPool::new();
    assert_eq!(pool.select(None).unwrap_err(), PoolError::NoAccountAvailable);
    assert_eq!(pool_error_status(PoolError::NoAccountAvailable), 500);
}

#[test]
fn select_on_fully_disabled_pool_fails() {
    let mut pool = pool_of(&[("a", true), ("b", true)]);
    assert_eq!(pool.select(None).unwrap_err(), PoolError::NoAccountAvailable);
    let key = "session-1".to_string();
    assert_eq!(
        pool.select(Some(&key)).unwrap_err(),
        PoolError::NoAccountAvailable
    );
}

#[test]
fn binding_sticks_while_eligible_and_rebinds_after_disable() {
    let mut pool = pool_of(&[("a", false), ("b", false), ("c", false)]);
    let key = "caller-7".to_string();
    let first = pool.select(Some(&key)).unwrap();
    let second = pool.select(Some(&key)).unwrap();
    let third = pool.select(Some(&key)).unwrap();
    assert_eq!(first.id, second.id, "binding must persist while eligible");
    assert_eq!(first.id, third.id);

    // Disable the bound account through storage, then resync memory.
    let toggled = pool.toggle(&first.id, false, None, 42).unwrap();
    let records: Vec<Option<Account>> = (0..pool.count())
        .map(|i| {
            let a = pool.get(i).unwrap();
            if a.id == toggled.id {
                Some(toggled.duplicate())
            } else {
                Some(a)
            }
        })
        .collect();
    pool.load_accounts(&records);

    let fourth = pool.select(Some(&key)).unwrap();
    assert_ne!(fourth.id, first.id, "a disabled account must be rebound away from");
    assert!(!fourth.proxy_disabled);
    // The new binding sticks in turn.
    let fifth = pool.select(Some(&key)).unwrap();
    assert_eq!(fourth.id, fifth.id);
}

#[test]
fn cursor_scenario_skips_disabled_and_wraps() {
    let mut pool = pool_of(&[("a", false), ("b", false), ("c", false)]);
    assert_eq!(pool.select(None).unwrap().id, "a");
    assert_eq!(pool.select(None).unwrap().id, "b");

    // The admin disables b: the write goes through storage, then a reload.
    let toggled = pool.toggle(&"b".to_string(), false, None, 7).unwrap();
    assert!(toggled.proxy_disabled);
    let records = vec![
        Some(account("a", false)),
        Some(toggled),
        Some(account("c", false)),
    ];
    pool.load_accounts(&records);

    assert_eq!(pool.select(None).unwrap().id, "c", "selection skips the disabled account");
    assert_eq!(pool.select(None).unwrap().id, "a", "selection wraps and still skips it");
}

#[test]
fn toggle_proxy_sets_and_clears_fields() {
    let pool = pool_of(&[("acc1", false)]);
    let now: i64 = 1_700_000_000;
    let disabled = pool
        .toggle(&"acc1".to_string(), false, Some("manual".to_string()), now)
        .unwrap();
    assert!(disabled.proxy_disabled);
    assert_eq!(disabled.proxy_disabled_reason.as_deref(), Some("manual"));
    assert_eq!(disabled.proxy_disabled_at, Some(now));

    // Re-enabling clears all three fields.
    let mut pool2 = CredentialPool::new();
    pool2.load_accounts(&vec![Some(disabled)]);
    let enabled = pool2.toggle(&"acc1".to_string(), true, None, now + 5).unwrap();
    assert!(!enabled.proxy_disabled);
    assert_eq!(enabled.proxy_disabled_reason, None);
    assert_eq!(enabled.proxy_disabled_at, None);
}

#[test]
fn toggle_default_reason_and_missing_account() {
    let pool = pool_of(&[("acc1", false)]);
    let disabled = pool.toggle(&"acc1".to_string(), false, None, 3).unwrap();
    assert_eq!(disabled.proxy_disabled_reason.as_deref(), Some("Manually disabled"));
    let missing = pool.toggle(&"ghost".to_string(), false, None, 3);
    assert_eq!(missing.unwrap_err(), PoolError::NotFound);
    assert_eq!(pool_error_status(PoolError::NotFound), 404);
}

#[test]
fn load_skips_malformed_and_duplicate_records() {
    let mut pool = CredentialPool::new();
    let records = vec![
        Some(account("a", false)),
        None,
        Some(account("b", false)),
        Some(account("a", true)),
    ];
    let count = pool.load_accounts(&records);
    assert_eq!(count, 2, "a malformed record and a duplicate id are skipped");
    assert_eq!(pool.count(), 2);
    assert_eq!(pool.get(0).unwrap().id, "a");
    assert!(!pool.get(0).unwrap().proxy_disabled, "the first record for an id wins");
    assert_eq!(pool.get(1).unwrap().id, "b");
}

#[test]
fn reorder_validates_permutation() {
    let mut pool = pool_of(&[("a", false), ("b", false), ("c", false)]);

    let bad_len = vec!["a".to_string(), "b".to_string()];
    assert_eq!(pool.reorder(&bad_len).unwrap_err(), PoolError::Validation);
    assert_eq!(pool_error_status(PoolError::Validation), 400);

    let dup = vec!["a".to_string(), "a".to_string(), "b".to_string()];
    assert_eq!(pool.reorder(&dup).unwrap_err(), PoolError::Validation);

    let unknown = vec!["a".to_string(), "b".to_string(), "x".to_string()];
    assert_eq!(pool.reorder(&unknown).unwrap_err(), PoolError::Validation);
    assert_eq!(pool.get(0).unwrap().id, "a", "a failed reorder leaves the pool untouched");

    let good = vec!["c".to_string(), "a".to_string(), "b".to_string()];
    assert!(pool.reorder(&good).is_ok());
    assert_eq!(pool.get(0).unwrap().id, "c");
    assert_eq!(pool.get(1).unwrap().id, "a");
    assert_eq!(pool.get(2).unwrap().id, "b");
}

#[test]
fn clear_all_sessions_drops_bindings() {
    let mut pool = pool_of(&[("a", false), ("b", false)]);
    let key = "k".to_string();
    let bound = pool.select(Some(&key)).unwrap();
    pool.clear_all_sessions();
    // With the binding gone the cursor decides anew.
    let next = pool.select(Some(&key)).unwrap();
    assert_ne!(bound.id, next.id, "after clearing, the key is bound afresh in cursor order");
}

#[test]
fn update_quota_touches_only_quota() {
    let mut pool = pool_of(&[("a", false), ("b", false)]);
    let new_quota = QuotaSnapshot {
        used: 77,
        tier: "pro".to_string(),
        last_refreshed: 123,
    };
    assert!(pool.update_quota(&"b".to_string(), new_quota));
    let b = pool.get(1).unwrap();
    assert_eq!(b.quota.used, 77);
    assert_eq!(b.quota.tier, "pro");
    assert_eq!(b.id, "b");
    assert_eq!(b.email, "b@example.com");

    let absent = QuotaSnapshot {
        used: 1,
        tier: "x".to_string(),
        last_refreshed: 1,
    };
    assert!(!pool.update_quota(&"nope".to_string(), absent));
}

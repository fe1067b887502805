//! The account data model: one upstream vendor identity, with its OAuth
//! token, quota snapshot, disabled flag and stable ordering position.

use vstd::prelude::*;

verus! {

/// OAuth token material of one account.
#[derive(Debug)]
pub struct TokenData {
    /// Bearer token for outbound calls.
    pub access_token: String,
    /// Long-lived token used to mint a new access token.
    pub refresh_token: String,
    /// Unix timestamp at which the access token expires.
    pub expires_at: i64,
}

/// Last-known usage/subscription state of one account.
#[derive(Debug)]
pub struct QuotaSnapshot {
    /// Usage units consumed.
    pub used: u64,
    /// Subscription tier name.
    pub tier: String,
    /// Unix timestamp of the last successful refresh.
    pub last_refreshed: i64,
}

/// One upstream vendor identity usable for one outbound call.
#[derive(Debug)]
pub struct Account {
    /// Unique, stable identifier (unique pool-wide).
    pub id: String,
    /// Account email.
    pub email: String,
    /// Human-readable display name.
    pub display_name: String,
    /// OAuth token material.
    pub token: TokenData,
    /// Last-known quota state.
    pub quota: QuotaSnapshot,
    /// When true, the account is excluded from selection.
    pub proxy_disabled: bool,
    /// Why the account was disabled, if it is.
    pub proxy_disabled_reason: Option<String>,
    /// Unix timestamp at which the account was disabled, if it is.
    pub proxy_disabled_at: Option<i64>,
    /// Stable ordering position.
    pub position: u64,
}

/// An account takes part in selection exactly when it is not disabled.
pub open spec fn spec_eligible(a: Account) -> bool {
    !a.proxy_disabled
}

/// `b` is `a` with its disabled state toggled: disabling sets the flag, the
/// instant and the reason (or a fixed default); enabling clears all three.
/// Every other field is unchanged.
pub open spec fn toggle_applied(
    a: Account,
    b: Account,
    enable: bool,
    reason: Option<String>,
    now: i64,
) -> bool {
    &&& b.proxy_disabled == !enable
    &&& (enable ==> b.proxy_disabled_reason is None && b.proxy_disabled_at is None)
    &&& (!enable ==> b.proxy_disabled_at == Some(now) && (match reason {
        Some(r) => b.proxy_disabled_reason == Some(r),
        None => b.proxy_disabled_reason matches Some(d) && d@ == "Manually disabled"@,
    }))
    &&& b.id == a.id
    &&& b.email == a.email
    &&& b.display_name == a.display_name
    &&& b.token == a.token
    &&& b.quota == a.quota
    &&& b.position == a.position
}

impl TokenData {
    /// Field-wise copy.
    pub fn duplicate(&self) -> (r: TokenData)
        ensures
            r == *self,
    {
        TokenData {
            access_token: self.access_token.clone(),
            refresh_token: self.refresh_token.clone(),
            expires_at: self.expires_at,
        }
    }
}

impl QuotaSnapshot {
    /// Field-wise copy.
    pub fn duplicate(&self) -> (r: QuotaSnapshot)
        ensures
            r == *self,
    {
        QuotaSnapshot {
            used: self.used,
            tier: self.tier.clone(),
            last_refreshed: self.last_refreshed,
        }
    }
}

/// Field-wise copy of an optional string.
pub fn clone_opt_string(s: &Option<String>) -> (r: Option<String>)
    ensures
        r == *s,
{
    match s {
        Some(v) => Some(v.clone()),
        None => None,
    }
}

impl Account {
    /// Field-wise copy.
    pub fn duplicate(&self) -> (r: Account)
        ensures
            r == *self,
    {
        Account {
            id: self.id.clone(),
            email: self.email.clone(),
            display_name: self.display_name.clone(),
            token: self.token.duplicate(),
            quota: self.quota.duplicate(),
            proxy_disabled: self.proxy_disabled,
            proxy_disabled_reason: clone_opt_string(&self.proxy_disabled_reason),
            proxy_disabled_at: self.proxy_disabled_at,
            position: self.position,
        }
    }

    /// True when the account takes part in selection.
    pub fn eligible(&self) -> (r: bool)
        ensures
            r == spec_eligible(*self),
    {
        !self.proxy_disabled
    }

    /// Enables or disables the account for proxy selection.
    ///
    /// Disabling records the reason (or a fixed default) and the instant;
    /// enabling clears all three fields. Nothing else changes.
    pub fn toggle_proxy(&mut self, enable: bool, reason: Option<String>, now: i64)
        ensures
            toggle_applied(*old(self), *final(self), enable, reason, now),
    {
        if enable {
            self.proxy_disabled = false;
            self.proxy_disabled_reason = None;
            self.proxy_disabled_at = None;
        } else {
            self.proxy_disabled = true;
            self.proxy_disabled_at = Some(now);
            self.proxy_disabled_reason = Some(match reason {
                Some(r) => r,
                None => String::from_str("Manually disabled"),
            });
        }
    }
}

} // verus!

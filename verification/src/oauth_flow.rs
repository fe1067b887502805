//! The decision core of the manual authorization-code exchange: code
//! validation, the demand for a refresh token, and the assembly of stored
//! token material. The token exchange and user-info calls themselves are
//! outside collaborators; the caller performs them and feeds the answers
//! back through these functions, which are verified for every answer.

use vstd::prelude::*;

use crate::account::TokenData;
use crate::zai::has_visible_spec;

verus! {

/// Why a code exchange was rejected.
#[derive(PartialEq, Eq, Structural, Debug, Clone, Copy)]
pub enum ExchangeError {
    /// The submitted authorization code is empty or all blank.
    EmptyCode,
    /// The token endpoint rejected the code.
    TokenExchangeFailed,
    /// The token endpoint answered without a refresh token, so the account
    /// could not be kept long-term.
    NoRefreshToken,
    /// The user-info endpoint rejected the access token.
    UserInfoFailed,
    /// The account could not be written to the store.
    PersistFailed,
}

/// What the token endpoint answered, as far as the flow reads it.
pub struct TokenResponse {
    /// Short-lived bearer token.
    pub access_token: String,
    /// Long-lived token, absent when the user had authorized before.
    pub refresh_token: Option<String>,
    /// Seconds until the access token expires.
    pub expires_in: i64,
}

/// Both tokens, once the refresh token is known to be present.
#[derive(Debug)]
pub struct TokenPair {
    /// Short-lived bearer token.
    pub access_token: String,
    /// Long-lived token.
    pub refresh_token: String,
    /// Seconds until the access token expires.
    pub expires_in: i64,
}

/// The sum clamped into the i64 range.
pub open spec fn spec_sat_add(a: int, b: int) -> int {
    if a + b > i64::MAX {
        i64::MAX as int
    } else if a + b < i64::MIN {
        i64::MIN as int
    } else {
        a + b
    }
}

/// Rejects an authorization code that holds no visible character.
pub fn validate_exchange_code(code: &str) -> (r: Result<(), ExchangeError>)
    ensures
        r is Ok <==> has_visible_spec(code@),
        r matches Err(e) ==> e == ExchangeError::EmptyCode,
{
    if crate::zai::has_visible(code) {
        Ok(())
    } else {
        Err(ExchangeError::EmptyCode)
    }
}

/// Demands the refresh token of a token response: without one the account
/// cannot be refreshed later and the exchange is rejected.
pub fn require_refresh_token(resp: TokenResponse) -> (r: Result<TokenPair, ExchangeError>)
    ensures
        match resp.refresh_token {
            Some(rt) => r matches Ok(p) && p.access_token == resp.access_token
                && p.refresh_token == rt && p.expires_in == resp.expires_in,
            None => r == Err::<TokenPair, ExchangeError>(ExchangeError::NoRefreshToken),
        },
{
    match resp.refresh_token {
        Some(rt) => Ok(
            TokenPair {
                access_token: resp.access_token,
                refresh_token: rt,
                expires_in: resp.expires_in,
            },
        ),
        None => Err(ExchangeError::NoRefreshToken),
    }
}

/// Assembles the token material stored with an account: the expiry instant
/// is the current instant plus the advertised lifetime, clamped.
pub fn build_token_data(pair: TokenPair, now: i64) -> (r: TokenData)
    ensures
        r.access_token == pair.access_token,
        r.refresh_token == pair.refresh_token,
        r.expires_at == spec_sat_add(now as int, pair.expires_in as int),
{
    let expires_at: i64 = if pair.expires_in >= 0 {
        if now > i64::MAX - pair.expires_in {
            i64::MAX
        } else {
            now + pair.expires_in
        }
    } else {
        if now < i64::MIN - pair.expires_in {
            i64::MIN
        } else {
            now + pair.expires_in
        }
    };
    TokenData {
        access_token: pair.access_token,
        refresh_token: pair.refresh_token,
        expires_at,
    }
}

} // verus!

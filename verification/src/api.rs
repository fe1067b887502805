//! Request and response bodies of the admin API, and small admin
//! utilities.

use vstd::prelude::*;

use crate::config::{ProxyConfig, UpstreamProxyConfig, ZaiConfig};
use crate::cookie::has_prefix;

verus! {

/// Body of an add-account request: a refresh token, and optionally the
/// email (otherwise it is fetched from the identity provider).
pub struct AddAccountRequest {
    pub refresh_token: String,
    pub email: Option<String>,
}

/// Body of a switch-account request.
pub struct SwitchAccountRequest {
    pub account_id: String,
}

/// Body of a reorder request, also reused for batch deletion.
pub struct ReorderAccountsRequest {
    pub account_ids: Vec<String>,
}

/// Body of a toggle-proxy request.
pub struct ToggleProxyRequest {
    pub enable: bool,
    pub reason: Option<String>,
}

/// Body of a model-mapping update.
pub struct UpdateMappingRequestProxy {
    pub config: ProxyConfig,
}

/// Body of a vendor model-list fetch.
pub struct FetchZaiModelsRequest {
    pub zai: ZaiConfig,
    pub upstream_proxy: UpstreamProxyConfig,
    pub request_timeout: u64,
}

/// Query of a log listing.
pub struct GetLogsQuery {
    pub limit: Option<usize>,
}

/// Body of a monitor toggle.
pub struct EnableMonitorRequest {
    pub enabled: bool,
}

/// The authorization URL handed to the operator.
pub struct OAuthUrlResponse {
    pub url: String,
}

/// Body of a code-exchange request.
pub struct ExchangeRequest {
    pub code: String,
}

/// Why a model-list fetch request was rejected before any call went out.
#[derive(PartialEq, Eq, Structural, Debug, Clone, Copy)]
pub enum FetchValidationError {
    /// The vendor base URL is empty or all blank.
    EmptyBaseUrl,
    /// The vendor API key is empty or all blank.
    EmptyApiKey,
}

/// Rejects a model-list fetch whose vendor settings are blank: first the
/// base URL, then the API key.
pub fn validate_zai_fetch(zai: &ZaiConfig) -> (r: Result<(), FetchValidationError>)
    ensures
        !crate::zai::has_visible_spec(zai.base_url@) ==> r == Err::<(), FetchValidationError>(
            FetchValidationError::EmptyBaseUrl,
        ),
        crate::zai::has_visible_spec(zai.base_url@) && !crate::zai::has_visible_spec(zai.api_key@)
            ==> r == Err::<(), FetchValidationError>(FetchValidationError::EmptyApiKey),
        r is Ok <==> crate::zai::has_visible_spec(zai.base_url@) && crate::zai::has_visible_spec(
            zai.api_key@,
        ),
{
    if !crate::zai::has_visible(zai.base_url.as_str()) {
        return Err(FetchValidationError::EmptyBaseUrl);
    }
    if !crate::zai::has_visible(zai.api_key.as_str()) {
        return Err(FetchValidationError::EmptyApiKey);
    }
    Ok(())
}

/// Relies on uuid::Uuid::new_v4 and Uuid::as_bytes: 16 bytes, most of them
/// from OS randomness, with the version and variant bits set. Nothing is
/// assumed of the values.
#[verifier::external_body]
fn new_uuid_bytes() -> (r: Vec<u8>)
    ensures
        r@.len() == 16,
{
    uuid::Uuid::new_v4().as_bytes().to_vec()
}

/// The lowercase hexadecimal digit of a value under sixteen.
pub open spec fn hex_digit(n: u8) -> char {
    if n == 0 {
        '0'
    } else if n == 1 {
        '1'
    } else if n == 2 {
        '2'
    } else if n == 3 {
        '3'
    } else if n == 4 {
        '4'
    } else if n == 5 {
        '5'
    } else if n == 6 {
        '6'
    } else if n == 7 {
        '7'
    } else if n == 8 {
        '8'
    } else if n == 9 {
        '9'
    } else if n == 10 {
        'a'
    } else if n == 11 {
        'b'
    } else if n == 12 {
        'c'
    } else if n == 13 {
        'd'
    } else if n == 14 {
        'e'
    } else {
        'f'
    }
}

/// The lowercase hexadecimal encoding of a byte sequence: two digits for
/// each byte, high nibble first.
pub open spec fn hex_of(bytes: Seq<u8>) -> Seq<char>
    decreases bytes.len(),
{
    if bytes.len() == 0 {
        Seq::empty()
    } else {
        hex_of(bytes.drop_last()) + seq![
            hex_digit(bytes.last() / 16),
            hex_digit(bytes.last() % 16),
        ]
    }
}

/// The one-character string holding the lowercase hexadecimal digit.
fn hex_digit_str(n: u8) -> (r: &'static str)
    requires
        n < 16,
    ensures
        r@ =~= seq![hex_digit(n)],
{
    proof {
        reveal_strlit("0");
        reveal_strlit("1");
        reveal_strlit("2");
        reveal_strlit("3");
        reveal_strlit("4");
        reveal_strlit("5");
        reveal_strlit("6");
        reveal_strlit("7");
        reveal_strlit("8");
        reveal_strlit("9");
        reveal_strlit("a");
        reveal_strlit("b");
        reveal_strlit("c");
        reveal_strlit("d");
        reveal_strlit("e");
        reveal_strlit("f");
    }
    if n == 0 {
        "0"
    } else if n == 1 {
        "1"
    } else if n == 2 {
        "2"
    } else if n == 3 {
        "3"
    } else if n == 4 {
        "4"
    } else if n == 5 {
        "5"
    } else if n == 6 {
        "6"
    } else if n == 7 {
        "7"
    } else if n == 8 {
        "8"
    } else if n == 9 {
        "9"
    } else if n == 10 {
        "a"
    } else if n == 11 {
        "b"
    } else if n == 12 {
        "c"
    } else if n == 13 {
        "d"
    } else if n == 14 {
        "e"
    } else {
        "f"
    }
}

/// Encodes bytes as lowercase hexadecimal, two digits a byte.
pub fn hex_encode(bytes: &Vec<u8>) -> (r: String)
    ensures
        r@ == hex_of(bytes@),
        r@.len() == 2 * bytes@.len(),
{
    let mut out = String::new();
    let mut i: usize = 0;
    while i < bytes.len()
        invariant
            i <= bytes@.len(),
            out@ == hex_of(bytes@.take(i as int)),
            out@.len() == 2 * i,
        decreases bytes@.len() - i,
    {
        let b = bytes[i];
        out.append(hex_digit_str(b / 16));
        out.append(hex_digit_str(b % 16));
        proof {
            assert(bytes@.take(i as int + 1).drop_last() =~= bytes@.take(i as int));
            assert(out@ =~= hex_of(bytes@.take(i as int + 1)));
        }
        i += 1;
    }
    proof {
        assert(bytes@.take(bytes@.len() as int) =~= bytes@);
    }
    out
}

/// A fresh proxy API key: `sk-` and the lowercase hexadecimal encoding of
/// the sixteen bytes of a fresh random identifier.
pub fn generate_api_key() -> (r: String)
    ensures
        r@.len() == 35,
        has_prefix(r@, "sk-"@),
        exists|b: Seq<u8>| b.len() == 16 && r@ == ("sk-"@ + #[trigger] hex_of(b)),
{
    let bytes = new_uuid_bytes();
    let hex = hex_encode(&bytes);
    let mut out = "sk-".to_owned();
    proof {
        reveal_strlit("sk-");
    }
    out.append(hex.as_str());
    proof {
        assert(out@.subrange(0, 3) =~= "sk-"@);
        assert(out@ =~= "sk-"@ + hex_of(bytes@));
    }
    out
}

} // verus!

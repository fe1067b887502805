//! The layered authentication chain: the admin-session gate over
//! admin-prefixed paths and the API-key gate over proxy-prefixed paths.
//!
//! Exemptions are an explicit allow-list evaluated first; only admin-prefixed
//! paths are gated by the session, and each gate evaluates its exemptions
//! against the original request path. Any gate failure is terminal.

use vstd::prelude::*;

use crate::cookie::{
    cookie_marker, has_prefix, semi_or_end, session_from_pieces, spec_extract_session,
    split_semis, trim_back, trim_front,
};
use crate::session::{spec_session_valid, SessionStore};

verus! {

/// Outcome of a gate: let the request through, or end it here.
#[derive(PartialEq, Eq, Structural, Debug, Clone, Copy)]
pub enum GateDecision {
    /// The request passes this gate.
    Allow,
    /// The request terminates with an authentication failure.
    Unauthorized,
}

/// The path bypasses the admin-session gate: the auth chain's own
/// endpoints, the health check, and anything outside the admin prefix.
pub open spec fn spec_admin_exempt(path: Seq<char>) -> bool {
    ||| has_prefix(path, "/api/auth/"@)
    ||| path == "/healthz"@
    ||| !has_prefix(path, "/api/admin/"@)
}

/// The admin-session gate: exempt paths pass; an admin-prefixed path passes
/// only with a currently valid session.
pub open spec fn spec_admin_gate(path: Seq<char>, session_valid: bool) -> GateDecision {
    if spec_admin_exempt(path) || session_valid {
        GateDecision::Allow
    } else {
        GateDecision::Unauthorized
    }
}

/// The path is subject to the API-key gate: proxy API paths.
pub open spec fn spec_proxy_path(path: Seq<char>) -> bool {
    has_prefix(path, "/v1/"@) || has_prefix(path, "/v1beta/"@)
}

/// The API-key gate: paths outside the proxy prefixes pass; proxy paths
/// pass only with a valid API key.
pub open spec fn spec_api_key_gate(path: Seq<char>, key_valid: bool) -> GateDecision {
    if !spec_proxy_path(path) || key_valid {
        GateDecision::Allow
    } else {
        GateDecision::Unauthorized
    }
}

/// `s` starts with `p`.
pub fn str_has_prefix(s: &str, p: &str) -> (r: bool)
    ensures
        r == has_prefix(s@, p@),
{
    let n = s.unicode_len();
    let m = p.unicode_len();
    if n < m {
        return false;
    }
    let mut k: usize = 0;
    while k < m
        invariant
            k <= m <= n,
            n == s@.len(),
            m == p@.len(),
            forall|t: int| 0 <= t < k ==> s@[t] == p@[t],
        decreases m - k,
    {
        if s.get_char(k) != p.get_char(k) {
            proof {
                assert(s@.subrange(0, m as int)[k as int] == s@[k as int]);
            }
            return false;
        }
        k += 1;
    }
    proof {
        assert(s@.subrange(0, m as int) =~= p@);
    }
    true
}

/// The two strings hold the same characters.
pub fn str_eq_str(s: &str, p: &str) -> (r: bool)
    ensures
        r == (s@ == p@),
{
    let n = s.unicode_len();
    let m = p.unicode_len();
    if n != m {
        proof {
            assert(s@.len() != p@.len());
        }
        return false;
    }
    let mut k: usize = 0;
    while k < m
        invariant
            k <= m == n == s@.len() == p@.len(),
            forall|t: int| 0 <= t < k ==> s@[t] == p@[t],
        decreases m - k,
    {
        if s.get_char(k) != p.get_char(k) {
            return false;
        }
        k += 1;
    }
    proof {
        assert(s@ =~= p@);
    }
    true
}

/// The admin-session gate on a path, given whether the caller's session is
/// currently valid.
pub fn admin_gate(path: &str, session_valid: bool) -> (r: GateDecision)
    ensures
        r == spec_admin_gate(path@, session_valid),
{
    if str_has_prefix(path, "/api/auth/") {
        return GateDecision::Allow;
    }
    if str_eq_str(path, "/healthz") {
        return GateDecision::Allow;
    }
    if !str_has_prefix(path, "/api/admin/") {
        return GateDecision::Allow;
    }
    if session_valid {
        GateDecision::Allow
    } else {
        GateDecision::Unauthorized
    }
}

/// The API-key gate on a path, given whether the offered key is valid.
pub fn api_key_gate(path: &str, key_valid: bool) -> (r: GateDecision)
    ensures
        r == spec_api_key_gate(path@, key_valid),
{
    if !str_has_prefix(path, "/v1/") && !str_has_prefix(path, "/v1beta/") {
        return GateDecision::Allow;
    }
    if key_valid {
        GateDecision::Allow
    } else {
        GateDecision::Unauthorized
    }
}

/// The whole admin-session gate as the middleware runs it: the session
/// token comes out of the Cookie header and is looked up in the session
/// table at instant `now`.
pub fn admin_auth_decision(
    path: &str,
    cookie_header: Option<&str>,
    sessions: &SessionStore,
    now: i64,
) -> (r: GateDecision)
    ensures
        r == spec_admin_gate(
            path@,
            match spec_extract_session(
                match cookie_header {
                    Some(h) => h@,
                    None => Seq::empty(),
                },
            ) {
                Some(tok) => spec_session_valid(sessions@, tok, now as int),
                None => false,
            },
        ),
        cookie_header is None ==> r == spec_admin_gate(path@, false),
{
    let token = crate::cookie::extract_session_from_cookie(cookie_header);
    let valid = match &token {
        Some(t) => sessions.is_valid_at(t, now),
        None => false,
    };
    proof {
        if cookie_header is None {
            reveal_strlit("ag_session=");
            let e = Seq::<char>::empty();
            assert(semi_or_end(e, 0) == 0);
            assert(split_semis(e) == seq![e]);
            assert(trim_front(e) == e);
            assert(trim_back(e) == e);
            assert(cookie_marker().len() == 11);
            assert(!has_prefix(e, cookie_marker()));
            assert(seq![e].drop_first() =~= Seq::<Seq<char>>::empty());
            assert(session_from_pieces(Seq::<Seq<char>>::empty()) is None);
            assert(session_from_pieces(seq![e]) == session_from_pieces(seq![e].drop_first()));
            assert(spec_extract_session(e) is None);
        }
    }
    admin_gate(path, valid)
}

/// Gate failures are terminal and independent: the chain lets a request
/// through exactly when every gate, each judged on the original path,
/// allows it; one failing gate ends the request whatever the other says.
pub proof fn lemma_gates_terminal(path: Seq<char>, session_valid: bool, key_valid: bool)
    ensures
        (spec_admin_gate(path, session_valid) == GateDecision::Allow && spec_api_key_gate(
            path,
            key_valid,
        ) == GateDecision::Allow) <==> ((spec_admin_exempt(path) || session_valid) && (
        !spec_proxy_path(path) || key_valid)),
{
}

} // verus!

//! Admin web authentication: one-time password setup, login, logout and
//! status, over a salted one-way credential and the session table.
//!
//! The password hash and the session tokens come from outside crates; each
//! outside call stands behind a trusted item, and every decision around the
//! calls is verified for every value the calls could return.

use vstd::prelude::*;

use crate::errors::AuthError;
use crate::session::{
    live_sessions, session_created, session_removed, session_upsert, spec_session_valid,
    SessionStore,
};

verus! {

/// Passwords must be at least this long.
pub const MIN_PASSWORD_LEN: usize = 6;

/// What bcrypt's verifier says of a password against a stored hash:
/// `Some(true)` for a match, `Some(false)` for a mismatch, `None` for a
/// malformed hash. The outcome is a function of the two strings alone: the
/// salt is parsed back out of the hash.
pub uninterp spec fn bcrypt_check(password: Seq<char>, hash: Seq<char>) -> Option<bool>;

#[verifier::external_type_specification]
#[verifier::external_body]
pub struct ExBcryptError(bcrypt::BcryptError);

/// Relies on bcrypt::hash at the default cost of 12: on success the result
/// is a 60-character hash of the password, salted from OS randomness, that
/// bcrypt::verify parses and matches against the same password.
#[verifier::external_body]
fn hash_password(password: &str) -> (r: Result<String, bcrypt::BcryptError>)
    ensures
        r matches Ok(h) ==> bcrypt_check(password@, h@) == Some(true) && h@.len() == 60,
{
    bcrypt::hash(password, 12)
}

/// Relies on bcrypt::verify: the outcome depends on the password and the
/// hash alone; an unparseable hash is an error.
#[verifier::external_body]
fn verify_password(password: &str, hash: &str) -> (r: Result<bool, bcrypt::BcryptError>)
    ensures
        match r {
            Ok(b) => bcrypt_check(password@, hash@) == Some(b),
            Err(_) => bcrypt_check(password@, hash@) is None,
        },
{
    bcrypt::verify(password, hash)
}

/// Relies on rand::Rng::gen over rand::thread_rng: 32 bytes of randomness.
/// Nothing is assumed of the values.
#[verifier::external_body]
fn random_bytes_32() -> (r: Vec<u8>)
    ensures
        r@.len() == 32,
{
    let mut rng = rand::thread_rng();
    let bytes: [u8; 32] = rand::Rng::gen(&mut rng);
    bytes.to_vec()
}

/// What base64's URL-safe, no-padding engine returns for a byte sequence.
/// The encoding is a function of the bytes alone.
pub uninterp spec fn b64_url_nopad_of(bytes: Seq<u8>) -> Seq<char>;

/// A character of base64's URL-safe alphabet: a letter, a digit, `-` or
/// `_`.
pub open spec fn is_b64_url_char(c: char) -> bool {
    let u = c as u32;
    (0x41 <= u <= 0x5A) || (0x61 <= u <= 0x7A) || (0x30 <= u <= 0x39) || u == 0x2D || u == 0x5F
}

/// Relies on base64's URL-safe, no-padding engine: the encoding of the
/// bytes, four output characters for every three input bytes, rounded up,
/// all drawn from the URL-safe alphabet.
#[verifier::external_body]
fn b64_url_nopad(bytes: &Vec<u8>) -> (r: String)
    requires
        bytes@.len() < 0x10000000,
    ensures
        r@ == b64_url_nopad_of(bytes@),
        r@.len() == (bytes@.len() * 4 + 2) / 3,
        forall|i: int| 0 <= i < r@.len() ==> is_b64_url_char(#[trigger] r@[i]),
{
    base64::Engine::encode(&base64::engine::general_purpose::URL_SAFE_NO_PAD, bytes.as_slice())
}

/// The sequence is the URL-safe, no-padding encoding of some 32 bytes: the
/// shape of every session token, carrying the full 256 bits drawn for it.
pub open spec fn is_session_token(t: Seq<char>) -> bool {
    exists|b: Seq<u8>| b.len() == 32 && t == #[trigger] b64_url_nopad_of(b)
}

/// A fresh opaque session token: 256 bits of randomness, URL-safe encoded
/// as 43 characters.
pub fn generate_session_token() -> (r: String)
    ensures
        r@.len() == 43,
        is_session_token(r@),
        forall|i: int| 0 <= i < r@.len() ==> is_b64_url_char(#[trigger] r@[i]),
{
    let bytes = random_bytes_32();
    let token = b64_url_nopad(&bytes);
    proof {
        assert(token@ == b64_url_nopad_of(bytes@));
    }
    token
}

/// The file under the store's data directory that holds the password
/// hash.
pub fn get_password_path(data_dir: &str) -> (r: String)
    ensures
        r@ == data_dir@ + "/web_password.hash"@,
{
    let mut out = data_dir.to_owned();
    out.append("/web_password.hash");
    out
}

/// Body of a password-setup request.
pub struct SetupRequest {
    pub password: String,
}

/// Body of a login request.
pub struct LoginRequest {
    pub password: String,
}

/// Whether a credential exists, and whether the caller's session is live.
pub struct AuthStatusResponse {
    pub password_set: bool,
    pub logged_in: bool,
}

/// Ghost state of the web-auth service: the stored credential, if any, and
/// the session table.
#[verifier::ext_equal]
pub ghost struct AuthView {
    pub credential: Option<Seq<char>>,
    pub sessions: Seq<(Seq<char>, int)>,
}

/// The admin authentication service: the one-time credential and its
/// session store.
pub struct AuthService {
    credential: Option<String>,
    sessions: SessionStore,
}

impl View for AuthService {
    type V = AuthView;

    closed spec fn view(&self) -> AuthView {
        AuthView {
            credential: match self.credential {
                Some(h) => Some(h@),
                None => None,
            },
            sessions: self.sessions@,
        }
    }
}

/// A login against state `v` with this password is owed success: a
/// credential exists and bcrypt matches the password against it.
pub open spec fn login_ok(v: AuthView, password: Seq<char>) -> bool {
    v.credential matches Some(h) && bcrypt_check(password, h) == Some(true)
}

impl AuthService {
    /// Well-formedness: session tokens unique.
    pub open spec fn wf(&self) -> bool {
        crate::session::tokens_unique(self@.sessions)
    }

    /// A service with no credential configured and no sessions.
    pub fn new() -> (r: AuthService)
        ensures
            r.wf(),
            r@.credential is None,
            r@.sessions.len() == 0,
    {
        AuthService { credential: None, sessions: SessionStore::new() }
    }

    /// A service resuming from a credential read back from durable storage.
    pub fn with_credential(hash: Option<String>) -> (r: AuthService)
        ensures
            r.wf(),
            match hash {
                Some(h) => r@.credential == Some(h@),
                None => r@.credential is None,
            },
            r@.sessions.len() == 0,
    {
        AuthService { credential: hash, sessions: SessionStore::new() }
    }

    /// The stored credential hash, for the caller to persist durably;
    /// never the plaintext.
    pub fn credential_hash(&self) -> (r: Option<String>)
        ensures
            match r {
                Some(h) => self@.credential == Some(h@),
                None => self@.credential is None,
            },
    {
        match &self.credential {
            Some(h) => Some(h.clone()),
            None => None,
        }
    }

    /// The session table, read-only, for the admin gate to consult.
    pub fn sessions(&self) -> (r: &SessionStore)
        ensures
            r@ == self@.sessions,
    {
        &self.sessions
    }

    /// True when a credential exists.
    pub fn is_password_set(&self) -> (r: bool)
        ensures
            r == (self@.credential is Some),
    {
        self.credential.is_some()
    }

    /// Sets the admin password, allowed exactly once.
    ///
    /// Fails `AlreadyConfigured` if a credential exists, and
    /// `PasswordTooShort` under the minimum length. On success the salted
    /// one-way hash is stored (never the plaintext), a session is
    /// auto-created at `now`, and its token is returned for the caller's
    /// cookie. `HashFailure` is only possible when the hashing call itself
    /// failed; the state is then untouched.
    pub fn setup_password(&mut self, password: &str, now: i64) -> (r: Result<String, AuthError>)
        requires
            old(self).wf(),
        ensures
            final(self).wf(),
            old(self)@.credential is Some ==> r == Err::<String, AuthError>(
                AuthError::AlreadyConfigured,
            ) && final(self)@ == old(self)@,
            old(self)@.credential is None && password@.len() < MIN_PASSWORD_LEN ==> r == Err::<
                String,
                AuthError,
            >(AuthError::PasswordTooShort) && final(self)@ == old(self)@,
            r matches Err(e) ==> final(self)@ == old(self)@ && (e == AuthError::AlreadyConfigured
                <==> old(self)@.credential is Some),
            r is Err && old(self)@.credential is None && password@.len() >= MIN_PASSWORD_LEN ==> r
                == Err::<String, AuthError>(AuthError::HashFailure),
            r matches Ok(token) ==> {
                &&& old(self)@.credential is None
                &&& password@.len() >= MIN_PASSWORD_LEN
                &&& token@.len() == 43
                &&& is_session_token(token@)
                &&& forall|i: int| 0 <= i < token@.len() ==> is_b64_url_char(#[trigger] token@[i])
                &&& login_ok(final(self)@, password@)
                &&& final(self)@.sessions == session_upsert(
                    old(self)@.sessions,
                    token@,
                    now as int,
                )
                &&& session_created(final(self)@.sessions, token@) == Some(now as int)
            },
    {
        if self.credential.is_some() {
            return Err(AuthError::AlreadyConfigured);
        }
        if password.unicode_len() < MIN_PASSWORD_LEN {
            return Err(AuthError::PasswordTooShort);
        }
        match hash_password(password) {
            Err(_) => Err(AuthError::HashFailure),
            Ok(hash) => {
                self.credential = Some(hash);
                let token = generate_session_token();
                self.sessions.create_session(&token, now);
                Ok(token)
            },
        }
    }

    /// Logs an operator in.
    ///
    /// Fails `NotConfigured` when no credential exists, and
    /// `InvalidCredential` on any mismatch, without disclosing the cause.
    /// On success the expired sessions are purged opportunistically, a new
    /// session is created at `now`, and its token is returned.
    pub fn login(&mut self, password: &str, now: i64) -> (r: Result<String, AuthError>)
        requires
            old(self).wf(),
        ensures
            final(self).wf(),
            final(self)@.credential == old(self)@.credential,
            old(self)@.credential is None ==> r == Err::<String, AuthError>(
                AuthError::NotConfigured,
            ) && final(self)@ == old(self)@,
            old(self)@.credential is Some && !login_ok(old(self)@, password@) ==> r == Err::<
                String,
                AuthError,
            >(AuthError::InvalidCredential) && final(self)@ == old(self)@,
            login_ok(old(self)@, password@) ==> r is Ok,
            r matches Ok(token) ==> {
                &&& login_ok(old(self)@, password@)
                &&& token@.len() == 43
                &&& is_session_token(token@)
                &&& forall|i: int| 0 <= i < token@.len() ==> is_b64_url_char(#[trigger] token@[i])
                &&& final(self)@.sessions == session_upsert(
                    live_sessions(old(self)@.sessions, now as int),
                    token@,
                    now as int,
                )
                &&& session_created(final(self)@.sessions, token@) == Some(now as int)
            },
    {
        let stored = match &self.credential {
            None => {
                return Err(AuthError::NotConfigured);
            },
            Some(h) => h.clone(),
        };
        let valid = match verify_password(password, stored.as_str()) {
            Ok(b) => b,
            Err(_) => false,
        };
        if !valid {
            return Err(AuthError::InvalidCredential);
        }
        self.sessions.cleanup_expired(now);
        let token = generate_session_token();
        self.sessions.create_session(&token, now);
        Ok(token)
    }

    /// Removes the session named by the token; an absent token is not an
    /// error.
    pub fn logout(&mut self, token: &String)
        requires
            old(self).wf(),
        ensures
            final(self).wf(),
            final(self)@.credential == old(self)@.credential,
            final(self)@.sessions == session_removed(old(self)@.sessions, token@),
            session_created(final(self)@.sessions, token@) is None,
    {
        self.sessions.remove_session(token);
    }

    /// Whether a credential exists and whether the offered token names a
    /// session live at `now`.
    pub fn auth_status(&self, token: Option<&String>, now: i64) -> (r: AuthStatusResponse)
        ensures
            r.password_set == (self@.credential is Some),
            r.logged_in == match token {
                Some(t) => spec_session_valid(self@.sessions, t@, now as int),
                None => false,
            },
    {
        let logged_in = match token {
            Some(t) => self.sessions.is_valid_at(t, now),
            None => false,
        };
        AuthStatusResponse { password_set: self.credential.is_some(), logged_in }
    }

    /// Whether the offered token names a session live at `now`.
    pub fn is_valid_at(&self, token: &String, now: i64) -> (r: bool)
        ensures
            r == spec_session_valid(self@.sessions, token@, now as int),
    {
        self.sessions.is_valid_at(token, now)
    }
}

/// Setting a password is allowed exactly once: a successful setup leaves a
/// matching credential behind, and the setup contract sends every attempt
/// on a state holding a credential to `AlreadyConfigured` — under any
/// order of attempts, since each attempt holds the service exclusively.
pub proof fn lemma_setup_only_once(after: AuthView, password: Seq<char>)
    requires
        login_ok(after, password),
    ensures
        after.credential is Some,
{
}

/// After a successful setup with a password, a login with that same
/// password is owed success: the stored hash matches it.
pub proof fn lemma_setup_then_login(v: AuthView, password: Seq<char>)
    requires
        v.credential matches Some(h) && bcrypt_check(password, h) == Some(true),
    ensures
        login_ok(v, password),
{
}

} // verus!

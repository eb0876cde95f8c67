//! Minting access and refresh tokens with their fixed lifetimes.
use crate::claims::{Claims, ClaimsView, TokenType};
use crate::codec::token_text;
use crate::error::AuthError;
use vstd::prelude::*;

verus! {

/// Lifetime of an access token, in minutes.
pub const ACCESS_TOKEN_MINUTES: u64 = 15;

/// Lifetime of a refresh token, in minutes (seven days).
pub const REFRESH_TOKEN_MINUTES: u64 = 10080;

pub open spec fn lifetime_minutes(t: TokenType) -> nat {
    match t {
        TokenType::Access => ACCESS_TOKEN_MINUTES as nat,
        TokenType::Refresh => REFRESH_TOKEN_MINUTES as nat,
    }
}

pub open spec fn lifetime_seconds(t: TokenType) -> nat {
    lifetime_minutes(t) * 60
}

/// Whether a token of kind `t` issued at `now` has an expiry that a `u64`
/// can hold.
pub open spec fn issuable_at(t: TokenType, now: u64) -> bool {
    now + lifetime_seconds(t) <= u64::MAX
}

/// The claims minted for `subject` at `now`.
pub open spec fn issued_claims(subject: Seq<char>, t: TokenType, now: u64) -> ClaimsView {
    ClaimsView {
        sub: subject,
        iat: now,
        exp: (now + lifetime_seconds(t)) as u64,
        token_type: t,
    }
}

/// The token minted for `subject` at `now` under `key`.
pub open spec fn issued_token(subject: Seq<char>, t: TokenType, key: Seq<u8>, now: u64) -> Seq<
    char,
> {
    token_text(issued_claims(subject, t, now), key)
}

/// What spec-level issuance fixes: a token issued at a time that allows it
/// expires exactly one lifetime after it was issued, and so after it.
pub proof fn lemma_issued_expiry(subject: Seq<char>, t: TokenType, now: u64)
    requires
        issuable_at(t, now),
    ensures
        issued_claims(subject, t, now).exp == now + lifetime_seconds(t),
        issued_claims(subject, t, now).iat < issued_claims(subject, t, now).exp,
        issued_claims(subject, t, now).sub == subject,
        issued_claims(subject, t, now).token_type == t,
{
}

/// The lifetime of a kind of token, in seconds.
pub fn lifetime_of(t: TokenType) -> (r: u64)
    ensures
        r == lifetime_seconds(t),
{
    match t {
        TokenType::Access => ACCESS_TOKEN_MINUTES * 60,
        TokenType::Refresh => REFRESH_TOKEN_MINUTES * 60,
    }
}

#[verifier::external_type_specification]
#[verifier::external_body]
pub struct ExSystemTime(std::time::SystemTime);

#[verifier::external_type_specification]
#[verifier::external_body]
pub struct ExSystemTimeError(std::time::SystemTimeError);

/// Relies on std's `SystemTime::now`: the time the system clock reads.
/// Nothing is known of the value it reads.
#[verifier::external_body]
fn system_now() -> std::time::SystemTime {
    std::time::SystemTime::now()
}

/// Relies on std's `SystemTime::duration_since` with the epoch: an error,
/// not a panic, when `t` is before the epoch.
#[verifier::external_body]
fn since_epoch(t: &std::time::SystemTime) -> Result<core::time::Duration, std::time::SystemTimeError> {
    t.duration_since(std::time::UNIX_EPOCH)
}

/// Relies on std's `Duration::as_secs`: the whole seconds of `d`.
#[verifier::external_body]
fn whole_seconds(d: &core::time::Duration) -> u64 {
    d.as_secs()
}

/// The time now in seconds since the epoch, or `None` when the clock reads
/// before the epoch.
pub fn current_time() -> Option<u64> {
    match since_epoch(&system_now()) {
        Ok(d) => Some(whole_seconds(&d)),
        Err(_) => None,
    }
}

impl Claims {
    /// Claims for `user_id` of kind `token_type`, issued at `now`; they
    /// expire one lifetime of that kind later.
    pub fn new(user_id: &str, token_type: TokenType, now: u64) -> (r: Claims)
        requires
            issuable_at(token_type, now),
        ensures
            r@ == issued_claims(user_id@, token_type, now),
            r.iat < r.exp,
    {
        Claims { sub: user_id.to_owned(), exp: now + lifetime_of(token_type), iat: now, token_type }
    }

    /// Mints a token of kind `token_type` for `user_id` at `now`. An empty
    /// secret, or a time so late that the expiry would not fit, is a
    /// configuration error; nothing else fails.
    pub fn issue(user_id: &str, token_type: TokenType, secret: &[u8], now: u64) -> (r: Result<
        String,
        AuthError,
    >)
        ensures
            secret@.len() == 0 || !issuable_at(token_type, now) ==> r == Err::<String, AuthError>(
                AuthError::ConfigurationError,
            ),
            secret@.len() > 0 && issuable_at(token_type, now) ==> r is Ok && r->Ok_0@
                == issued_token(user_id@, token_type, secret@, now),
    {
        if now > u64::MAX - lifetime_of(token_type) {
            return Err(AuthError::ConfigurationError);
        }
        let claims = Claims::new(user_id, token_type, now);
        claims.to_token(secret)
    }

    fn issue_now(user_id: &str, token_type: TokenType, secret: &[u8]) -> (r: Result<
        String,
        AuthError,
    >)
        ensures
            secret@.len() == 0 ==> r == Err::<String, AuthError>(AuthError::ConfigurationError),
            r is Err ==> r == Err::<String, AuthError>(AuthError::ConfigurationError),
            r is Ok ==> exists|now: u64|
                issuable_at(token_type, now) && r->Ok_0@ == issued_token(
                    user_id@,
                    token_type,
                    secret@,
                    now,
                ),
    {
        match current_time() {
            Some(now) => Claims::issue(user_id, token_type, secret, now),
            None => Err(AuthError::ConfigurationError),
        }
    }

    /// Mints an access token for `user_id`, valid for fifteen minutes from
    /// now.
    pub fn create_access_token(user_id: &str, secret: &[u8]) -> (r: Result<String, AuthError>)
        ensures
            secret@.len() == 0 ==> r == Err::<String, AuthError>(AuthError::ConfigurationError),
            r is Err ==> r == Err::<String, AuthError>(AuthError::ConfigurationError),
            r is Ok ==> exists|now: u64|
                issuable_at(TokenType::Access, now) && r->Ok_0@ == issued_token(
                    user_id@,
                    TokenType::Access,
                    secret@,
                    now,
                ),
    {
        Claims::issue_now(user_id, TokenType::Access, secret)
    }

    /// Mints a refresh token for `user_id`, valid for seven days from now.
    pub fn create_refresh_token(user_id: &str, secret: &[u8]) -> (r: Result<String, AuthError>)
        ensures
            secret@.len() == 0 ==> r == Err::<String, AuthError>(AuthError::ConfigurationError),
            r is Err ==> r == Err::<String, AuthError>(AuthError::ConfigurationError),
            r is Ok ==> exists|now: u64|
                issuable_at(TokenType::Refresh, now) && r->Ok_0@ == issued_token(
                    user_id@,
                    TokenType::Refresh,
                    secret@,
                    now,
                ),
    {
        Claims::issue_now(user_id, TokenType::Refresh, secret)
    }
}

} // verus!

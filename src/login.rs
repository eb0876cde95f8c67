//! Password login: checks the password against the stored hash and mints
//! the access and refresh tokens.
use crate::claims::{Claims, TokenType};
use crate::error::AuthError;
use crate::issuer::{current_time, issuable_at, issued_token};
use vstd::prelude::*;

verus! {

/// Whether `password` matches the bcrypt `hash`; a hash that bcrypt cannot
/// read matches nothing.
pub uninterp spec fn bcrypt_accepts(password: Seq<char>, hash: Seq<char>) -> bool;

#[verifier::external_type_specification]
#[verifier::external_body]
pub struct ExBcryptError(bcrypt::BcryptError);

/// Relies on bcrypt's `verify`: it hashes the password with the salt and
/// cost read from `hash` and compares; the verdict depends on the two
/// arguments alone.
#[verifier::external_body]
fn bcrypt_verify(password: &str, hash: &str) -> (r: Result<bool, bcrypt::BcryptError>)
    ensures
        (r matches Ok(true)) == bcrypt_accepts(password@, hash@),
{
    bcrypt::verify(password, hash)
}

/// The secrets that the two kinds of token are signed with, read once when
/// the process starts.
pub struct TokenSecrets {
    pub access: Vec<u8>,
    pub refresh: Vec<u8>,
}

/// A user as the store records it.
pub struct UserRecord {
    pub user_id: String,
    pub password_hash: String,
}

/// The two tokens handed out at login.
pub struct LoginResponse {
    pub access_token: String,
    pub refresh_token: String,
}

/// Why a login was refused.
#[derive(Clone, Copy, Debug, PartialEq, Eq, Structural)]
pub enum LoginError {
    /// No user has that id.
    UnknownUser,
    /// The password does not match the stored hash.
    WrongPassword,
    /// The tokens could not be minted.
    Token(AuthError),
}

/// Checks a login: `user` is what the store holds for the id given, if
/// anything. Returns the stored user id when the password matches.
pub fn check_password(user: Option<UserRecord>, password: &str) -> (r: Result<String, LoginError>)
    ensures
        match user {
            None => r == Err::<String, LoginError>(LoginError::UnknownUser),
            Some(u) => if bcrypt_accepts(password@, u.password_hash@) {
                r is Ok && r->Ok_0@ == u.user_id@
            } else {
                r == Err::<String, LoginError>(LoginError::WrongPassword)
            },
        },
{
    let u = match user {
        Some(u) => u,
        None => {
            return Err(LoginError::UnknownUser);
        },
    };
    let matches = match bcrypt_verify(password, u.password_hash.as_str()) {
        Ok(v) => v,
        Err(_) => false,
    };
    if !matches {
        return Err(LoginError::WrongPassword);
    }
    Ok(u.user_id)
}

/// Mints the access and refresh tokens for `user_id` at `now`. A secret that
/// is empty, or a time too late for an expiry, is a configuration error.
pub fn mint_tokens(user_id: &str, secrets: &TokenSecrets, now: u64) -> (r: Result<
    LoginResponse,
    LoginError,
>)
    ensures
        secrets.access@.len() == 0 || secrets.refresh@.len() == 0 || !issuable_at(
            TokenType::Refresh,
            now,
        ) ==> r == Err::<LoginResponse, LoginError>(
            LoginError::Token(AuthError::ConfigurationError),
        ),
        secrets.access@.len() > 0 && secrets.refresh@.len() > 0 && issuable_at(
            TokenType::Refresh,
            now,
        ) ==> {
            &&& r is Ok
            &&& r->Ok_0.access_token@ == issued_token(
                user_id@,
                TokenType::Access,
                secrets.access@,
                now,
            )
            &&& r->Ok_0.refresh_token@ == issued_token(
                user_id@,
                TokenType::Refresh,
                secrets.refresh@,
                now,
            )
        },
{
    if secrets.refresh.len() == 0 {
        return Err(LoginError::Token(AuthError::ConfigurationError));
    }
    let access_token = match Claims::issue(user_id, TokenType::Access, secrets.access.as_slice(), now) {
        Ok(t) => t,
        Err(e) => {
            return Err(LoginError::Token(e));
        },
    };
    let refresh_token = match Claims::issue(
        user_id,
        TokenType::Refresh,
        secrets.refresh.as_slice(),
        now,
    ) {
        Ok(t) => t,
        Err(e) => {
            return Err(LoginError::Token(e));
        },
    };
    Ok(LoginResponse { access_token, refresh_token })
}

/// Logs in: checks the password, then mints both tokens at the time the
/// clock reads. A clock before the epoch is a configuration error.
pub fn login(user: Option<UserRecord>, password: &str, secrets: &TokenSecrets) -> (r: Result<
    LoginResponse,
    LoginError,
>)
    ensures
        user is None ==> r == Err::<LoginResponse, LoginError>(LoginError::UnknownUser),
        user is Some && !bcrypt_accepts(password@, user->0.password_hash@) ==> r == Err::<
            LoginResponse,
            LoginError,
        >(LoginError::WrongPassword),
        user is Some && (secrets.access@.len() == 0 || secrets.refresh@.len() == 0)
            && bcrypt_accepts(password@, user->0.password_hash@) ==> r == Err::<
            LoginResponse,
            LoginError,
        >(LoginError::Token(AuthError::ConfigurationError)),
        user is Some && bcrypt_accepts(password@, user->0.password_hash@) && secrets.access@.len()
            > 0 && secrets.refresh@.len() > 0 ==> r is Ok || r == Err::<LoginResponse, LoginError>(
            LoginError::Token(AuthError::ConfigurationError),
        ),
        r is Ok ==> user is Some && exists|now: u64|
            issuable_at(TokenType::Refresh, now) && r->Ok_0.access_token@ == issued_token(
                user->0.user_id@,
                TokenType::Access,
                secrets.access@,
                now,
            ) && r->Ok_0.refresh_token@ == issued_token(
                user->0.user_id@,
                TokenType::Refresh,
                secrets.refresh@,
                now,
            ),
{
    let user_id = match check_password(user, password) {
        Ok(id) => id,
        Err(e) => {
            return Err(e);
        },
    };
    match current_time() {
        Some(now) => mint_tokens(user_id.as_str(), secrets, now),
        None => Err(LoginError::Token(AuthError::ConfigurationError)),
    }
}

} // verus!

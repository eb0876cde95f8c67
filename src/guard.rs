//! The request guard: admits a call only with a genuine, fresh token, and
//! hands the protected operation the subject the token speaks for.
use crate::claims::{Claims, ClaimsView};
use crate::codec::{decode_rejects, is_fresh, token_text};
use crate::error::AuthError;
use vstd::prelude::*;

verus! {

/// How the guard answers the credential `cred` under `key` at `now`: with the
/// subject of a genuine fresh token, or with an error.
pub open spec fn admits(cred: Option<Seq<char>>, key: Seq<u8>, now: u64, r: Result<
    Seq<char>,
    AuthError,
>) -> bool {
    match cred {
        None => r == Err::<Seq<char>, AuthError>(AuthError::MissingCredential),
        Some(t) => match r {
            Ok(sub) => exists|c: ClaimsView|
                key.len() > 0 && t == #[trigger] token_text(c, key) && now < c.exp && sub == c.sub,
            Err(AuthError::Expired) => exists|c: ClaimsView|
                key.len() > 0 && t == #[trigger] token_text(c, key) && now >= c.exp,
            Err(e) => decode_rejects(t, key, e),
        },
    }
}

/// The guard, holding the secret that access tokens are signed with.
pub struct Auth {
    secret: Vec<u8>,
}

/// A protected operation behind the guard.
pub struct AuthImpl<E> {
    ep: E,
    auth: Auth,
}

impl Auth {
    pub fn new(secret: Vec<u8>) -> (r: Auth)
        ensures
            r.secret_view() == secret@,
    {
        Auth { secret }
    }

    pub closed spec fn secret_view(&self) -> Seq<u8> {
        self.secret@
    }

    /// Checks a credential at `now`. Without one the answer is
    /// `MissingCredential`; a token that does not verify is turned down as
    /// `Claims::from_token` turns it down; a genuine token at or past its expiry is
    /// `Expired`; a genuine fresh token yields its subject.
    pub fn authenticate(&self, credential: Option<&str>, now: u64) -> (r: Result<String, AuthError>)
        ensures
            admits(
                match credential {
                    Some(t) => Some(t@),
                    None => None,
                },
                self.secret_view(),
                now,
                match r {
                    Ok(s) => Ok(s@),
                    Err(e) => Err(e),
                },
            ),
            forall|c: ClaimsView|
                credential is Some && self.secret_view().len() > 0 && credential->0@
                    == #[trigger] token_text(c, self.secret_view()) ==> if now < c.exp {
                    r is Ok && r->Ok_0@ == c.sub
                } else {
                    r == Err::<String, AuthError>(AuthError::Expired)
                },
    {
        let token = match credential {
            Some(t) => t,
            None => {
                return Err(AuthError::MissingCredential);
            },
        };
        let claims = match Claims::from_token(token, self.secret.as_slice()) {
            Ok(c) => c,
            Err(e) => {
                return Err(e);
            },
        };
        if !is_fresh(&claims, now) {
            return Err(AuthError::Expired);
        }
        Ok(claims.sub)
    }

    /// Puts `ep` behind this guard.
    pub fn transform<E>(&self, ep: E) -> (r: AuthImpl<E>)
        ensures
            r.secret_view() == self.secret_view(),
            r.ep_view() == ep,
    {
        let secret = self.secret.clone();
        proof {
            assert(secret@ =~= self.secret@);
        }
        AuthImpl { ep, auth: Auth { secret } }
    }
}

impl<E> AuthImpl<E> {
    pub closed spec fn secret_view(&self) -> Seq<u8> {
        self.auth.secret_view()
    }

    pub closed spec fn ep_view(&self) -> E {
        self.ep
    }

    /// The protected operation.
    pub fn endpoint(&self) -> (r: &E)
        ensures
            *r == self.ep_view(),
    {
        &self.ep
    }

    /// Decides whether a call with `credential` at `now` may reach the
    /// operation, and as whom (see `Auth::authenticate`).
    pub fn call(&self, credential: Option<&str>, now: u64) -> (r: Result<String, AuthError>)
        ensures
            admits(
                match credential {
                    Some(t) => Some(t@),
                    None => None,
                },
                self.secret_view(),
                now,
                match r {
                    Ok(s) => Ok(s@),
                    Err(e) => Err(e),
                },
            ),
    {
        self.auth.authenticate(credential, now)
    }
}

} // verus!

//! Signing claims into a token and verifying a token back into claims.
//!
//! A token is `header.payload.tag`: the header is the base64 of the fixed
//! JSON header `{"typ":"JWT","alg":"HS256"}`, the payload the base64 of the
//! claims' JSON text, and the tag the base64 of the HMAC-SHA256 of
//! `header.payload` under the secret.
use crate::base64url::{
    b64url, decode_b64url, encode_b64url, lemma_b64url_injective, lemma_b64url_segment,
    segment_char, segment_text,
};
use crate::claims::{lemma_payload_injective, payload_json, Claims, ClaimsView};
use crate::error::AuthError;
use vstd::prelude::*;
use vstd::string::*;
use vstd::utf8::*;

verus! {

/// The HMAC-SHA256 tag of `message` under `key`.
pub uninterp spec fn hmac_sha256(key: Seq<u8>, message: Seq<u8>) -> Seq<u8>;

#[verifier::external_type_specification]
#[verifier::external_body]
pub struct ExJwtError(jsonwebtoken::errors::Error);

/// Relies on jsonwebtoken's `crypto::sign` with HS256: it returns the
/// unpadded URL-safe base64 of the HMAC-SHA256 tag, and cannot fail for an
/// HMAC key.
#[verifier::external_body]
fn sign_hs256(message: &[u8], secret: &[u8]) -> (r: Result<String, jsonwebtoken::errors::Error>)
    ensures
        r is Ok && r->Ok_0@ == b64url(hmac_sha256(secret@, message@)),
{
    jsonwebtoken::crypto::sign(
        message,
        &jsonwebtoken::EncodingKey::from_secret(secret),
        jsonwebtoken::Algorithm::HS256,
    )
}

/// Relies on jsonwebtoken's `crypto::verify` with HS256: it signs the
/// message again and compares the two texts in constant time.
#[verifier::external_body]
fn verify_hs256(signature: &str, message: &[u8], secret: &[u8]) -> (r: Result<
    bool,
    jsonwebtoken::errors::Error,
>)
    ensures
        r is Ok && r->Ok_0 == (signature@ == b64url(hmac_sha256(secret@, message@))),
{
    jsonwebtoken::crypto::verify(
        signature,
        message,
        &jsonwebtoken::DecodingKey::from_secret(secret),
        jsonwebtoken::Algorithm::HS256,
    )
}

/// `{"typ":"JWT","alg":"HS256"}`
pub open spec fn header_json() -> Seq<u8> {
    seq![
        123u8, 34, 116, 121, 112, 34, 58, 34, 74, 87, 84, 34, 44, 34, 97, 108, 103, 34, 58, 34, 72,
        83, 50, 53, 54, 34, 125,
    ]
}

pub open spec fn header_segment() -> Seq<char> {
    b64url(header_json())
}

/// What the tag is computed over: the header and payload segments.
pub open spec fn signing_input(payload: Seq<char>) -> Seq<char> {
    header_segment() + seq!['.'] + payload
}

pub open spec fn tag_of(key: Seq<u8>, input: Seq<char>) -> Seq<char> {
    b64url(hmac_sha256(key, encode_utf8(input)))
}

/// The token that `to_token` writes for claims `c` under `key`.
pub open spec fn token_text(c: ClaimsView, key: Seq<u8>) -> Seq<char> {
    let input = signing_input(b64url(payload_json(c)));
    input + seq!['.'] + tag_of(key, input)
}

/// `t` is the header segment, a payload segment `p` and a tag segment `s`,
/// joined by dots.
pub open spec fn framed(t: Seq<char>, p: Seq<char>, s: Seq<char>) -> bool {
    &&& t == signing_input(p) + seq!['.'] + s
    &&& segment_text(p)
    &&& segment_text(s)
}

fn header_bytes() -> (r: Vec<u8>)
    ensures
        r@ == header_json(),
{
    let r: Vec<u8> = vec![
        123, 34, 116, 121, 112, 34, 58, 34, 74, 87, 84, 34, 44, 34, 97, 108, 103, 34, 58, 34, 72,
        83, 50, 53, 54, 34, 125,
    ];
    assert(r@ =~= header_json());
    r
}

fn signing_input_of(payload: &str) -> (r: String)
    ensures
        r@ == signing_input(payload@),
{
    let header = encode_b64url(header_bytes().as_slice());
    proof {
        reveal_strlit(".");
    }
    let with_dot = header.concat(".");
    let r = with_dot.concat(payload);
    assert(r@ =~= signing_input(payload@));
    r
}

/// Claims are fresh strictly before their expiry: at the expiry second they
/// are stale already.
pub open spec fn fresh_at(c: ClaimsView, now: int) -> bool {
    now < c.exp
}

/// Whether claims are still fresh at `now`.
pub fn is_fresh(claims: &Claims, now: u64) -> (r: bool)
    ensures
        r == fresh_at(claims@, now as int),
{
    now < claims.exp
}


proof fn lemma_ascii_dot(c: char)
    requires
        c <= '\u{7f}',
    ensures
        (c as u8 == 46) <==> c == '.',
{
}

/// The first dot at or after `from`, or the length when there is none.
fn find_dot(t: &str, from: usize) -> (r: usize)
    requires
        t.is_ascii(),
        from <= t@.len(),
    ensures
        from <= r <= t@.len(),
        forall|i: int| from <= i < r ==> t@[i] != '.',
        r < t@.len() ==> t@[r as int] == '.',
{
    let n = t.unicode_len();
    let mut i = from;
    while i < n
        invariant
            t.is_ascii(),
            n == t@.len(),
            from <= i <= n,
            forall|k: int| from <= k < i ==> t@[k] != '.',
        decreases n - i,
    {
        let b = t.get_ascii(i);
        proof {
            lemma_ascii_dot(t@[i as int]);
        }
        if b == 46 {
            return i;
        }
        i = i + 1;
    }
    i
}


proof fn lemma_header_segment()
    ensures
        segment_text(header_segment()),
        header_segment().len() > 0,
{
    lemma_b64url_segment(header_json());
    assert(header_json().len() == 27);
    assert(header_json().subrange(3, 27).len() == 24);
}

/// Where the dots of a framed token stand: just after the header and just
/// after the payload, and nowhere else.
proof fn lemma_framed_shape(t: Seq<char>, p: Seq<char>, s: Seq<char>)
    requires
        framed(t, p, s),
    ensures
        ({
            let a = header_segment().len() as int;
            let b = a + 1 + p.len();
            &&& is_ascii_chars(t)
            &&& t[a] == '.'
            &&& t[b] == '.'
            &&& forall|i: int| 0 <= i < t.len() && i != a && i != b ==> t[i] != '.'
            &&& t.subrange(0, a) == header_segment()
            &&& t.subrange(a + 1, b) == p
            &&& t.subrange(b + 1, t.len() as int) == s
            &&& t.subrange(0, b) == signing_input(p)
        }),
{
    lemma_header_segment();
    let h = header_segment();
    let a = h.len() as int;
    let b = a + 1 + p.len();
    assert forall|i: int| 0 <= i < t.len() implies '\0' <= #[trigger] t[i] <= '\u{7f}' by {
        if i < a {
            assert(t[i] == h[i]);
        } else if i == a || i == b {
        } else if i < b {
            assert(t[i] == p[i - a - 1]);
        } else {
            assert(t[i] == s[i - b - 1]);
        }
    }
    assert forall|i: int| 0 <= i < t.len() && i != a && i != b implies t[i] != '.' by {
        if i < a {
            assert(t[i] == h[i]);
        } else if i < b {
            assert(t[i] == p[i - a - 1]);
        } else {
            assert(t[i] == s[i - b - 1]);
        }
    }
    assert(t.subrange(0, a) =~= h);
    assert(t.subrange(a + 1, b) =~= p);
    assert(t.subrange(b + 1, t.len() as int) =~= s);
    assert(t.subrange(0, b) =~= signing_input(p));
}

pub proof fn lemma_framed_unique(t: Seq<char>, p1: Seq<char>, s1: Seq<char>, p2: Seq<char>, s2: Seq<char>)
    requires
        framed(t, p1, s1),
        framed(t, p2, s2),
    ensures
        p1 == p2,
        s1 == s2,
{
    lemma_framed_shape(t, p1, s1);
    lemma_framed_shape(t, p2, s2);
}

pub proof fn lemma_token_framed(c: ClaimsView, key: Seq<u8>)
    ensures
        framed(
            token_text(c, key),
            b64url(payload_json(c)),
            tag_of(key, signing_input(b64url(payload_json(c)))),
        ),
{
    lemma_b64url_segment(payload_json(c));
    lemma_b64url_segment(hmac_sha256(key, encode_utf8(signing_input(b64url(payload_json(c))))));
}


/// Why `from_token` turns `t` down under `key`: an empty secret is a
/// configuration error; a framed token whose tag is not the one the secret
/// gives has an invalid signature; and a token that is neither framed with the
/// right tag nor any token that `to_token` writes is malformed.
pub open spec fn decode_rejects(t: Seq<char>, key: Seq<u8>, e: AuthError) -> bool {
    match e {
        AuthError::ConfigurationError => key.len() == 0,
        AuthError::InvalidSignature => key.len() > 0 && exists|p: Seq<char>, s: Seq<char>|
            framed(t, p, s) && s != tag_of(key, signing_input(p)),
        AuthError::MalformedToken => {
            &&& key.len() > 0
            &&& forall|p: Seq<char>, s: Seq<char>|
                framed(t, p, s) ==> s == tag_of(key, signing_input(p))
            &&& forall|c: ClaimsView| t != token_text(c, key)
        },
        _ => false,
    }
}



/// Different claims make different tokens under one key.
pub proof fn lemma_token_injective(c1: ClaimsView, c2: ClaimsView, key: Seq<u8>)
    requires
        token_text(c1, key) == token_text(c2, key),
    ensures
        c1 == c2,
{
    let p1 = b64url(payload_json(c1));
    let p2 = b64url(payload_json(c2));
    lemma_token_framed(c1, key);
    lemma_token_framed(c2, key);
    lemma_framed_unique(
        token_text(c1, key),
        p1,
        tag_of(key, signing_input(p1)),
        p2,
        tag_of(key, signing_input(p2)),
    );
    lemma_b64url_injective(payload_json(c1), payload_json(c2));
    lemma_payload_injective(c1, c2);
}

impl Claims {
    /// Signs these claims into a token under `secret`. An empty secret is a
    /// configuration error.
    pub fn to_token(&self, secret: &[u8]) -> (r: Result<String, AuthError>)
        ensures
            secret@.len() == 0 ==> r == Err::<String, AuthError>(AuthError::ConfigurationError),
            secret@.len() > 0 ==> r is Ok && r->Ok_0@ == token_text(self@, secret@),
    {
        if secret.len() == 0 {
            return Err(AuthError::ConfigurationError);
        }
        let json = self.to_json();
        let payload = encode_b64url(json.as_slice());
        let input = signing_input_of(payload.as_str());
        let tag = match sign_hs256(input.as_str().as_bytes(), secret) {
            Ok(tag) => tag,
            Err(_) => {
                return Err(AuthError::ConfigurationError);
            },
        };
        proof {
            reveal_strlit(".");
        }
        let token = input.concat(".").concat(tag.as_str());
        assert(token@ =~= token_text(self@, secret@));
        Ok(token)
    }

    /// Verifies `token` under `secret` and reads back its claims. Expiry is not
    /// looked at here (see `is_fresh`).
    ///
    /// A token is accepted exactly when it is the one `to_token` writes for some
    /// claims under this secret; a token framed as three segments whose tag is
    /// wrong is `InvalidSignature`; anything else is `MalformedToken`.
    pub fn from_token(token: &str, secret: &[u8]) -> (r: Result<Claims, AuthError>)
        ensures
            match r {
                Ok(c) => secret@.len() > 0 && token@ == token_text(c@, secret@),
                Err(e) => decode_rejects(token@, secret@, e),
            },
            forall|c: ClaimsView|
                secret@.len() > 0 && token@ == #[trigger] token_text(c, secret@) ==> r is Ok
                    && r->Ok_0@ == c,
    {
        if secret.len() == 0 {
            return Err(AuthError::ConfigurationError);
        }
        let ghost t = token@;
        let ghost any_framed = exists|p: Seq<char>, s: Seq<char>| framed(t, p, s);
        let ghost found = choose|p: Seq<char>, s: Seq<char>| framed(t, p, s);
        proof {
            if any_framed {
                lemma_framed_shape(t, found.0, found.1);
            }
            assert forall|c: ClaimsView| t == token_text(c, secret@) implies any_framed by {
                lemma_token_framed(c, secret@);
            }
        }
        if !token.is_ascii() {
            return Err(AuthError::MalformedToken);
        }
        let n = token.unicode_len();
        let d1 = find_dot(token, 0);
        if d1 == n {
            return Err(AuthError::MalformedToken);
        }
        let d2 = find_dot(token, d1 + 1);
        if d2 == n {
            return Err(AuthError::MalformedToken);
        }
        let d3 = find_dot(token, d2 + 1);
        if d3 != n {
            return Err(AuthError::MalformedToken);
        }
        let head = token.substring_ascii(0, d1).to_owned();
        let header = encode_b64url(header_bytes().as_slice());
        if head != header {
            return Err(AuthError::MalformedToken);
        }
        let payload = token.substring_ascii(d1 + 1, d2);
        let tag = token.substring_ascii(d2 + 1, n);
        let input = token.substring_ascii(0, d2);
        proof {
            lemma_header_segment();
            assert(t =~= signing_input(payload@) + seq!['.'] + tag@);
            assert forall|i: int| 0 <= i < payload@.len() implies segment_char(#[trigger] payload@[i]) by {
                assert(payload@[i] == t[d1 + 1 + i]);
            }
            assert forall|i: int| 0 <= i < tag@.len() implies segment_char(#[trigger] tag@[i]) by {
                assert(tag@[i] == t[d2 + 1 + i]);
            }
            assert(framed(t, payload@, tag@));
            lemma_framed_shape(t, payload@, tag@);
            assert forall|p: Seq<char>, s: Seq<char>| framed(t, p, s) implies p == payload@ && s
                == tag@ by {
                lemma_framed_unique(t, p, s, payload@, tag@);
            }
            assert(input@ == signing_input(payload@));
            assert forall|c: ClaimsView| t == token_text(c, secret@) implies payload@ == b64url(
                payload_json(c),
            ) && tag@ == tag_of(secret@, signing_input(payload@)) by {
                lemma_token_framed(c, secret@);
                lemma_framed_unique(
                    t,
                    b64url(payload_json(c)),
                    tag_of(secret@, signing_input(b64url(payload_json(c)))),
                    payload@,
                    tag@,
                );
            }
        }
        let genuine = match verify_hs256(tag, input.as_bytes(), secret) {
            Ok(v) => v,
            Err(_) => false,
        };
        if !genuine {
            return Err(AuthError::InvalidSignature);
        }
        let bytes = match decode_b64url(payload) {
            Ok(b) => b,
            Err(_) => {
                return Err(AuthError::MalformedToken);
            },
        };
        match Claims::from_json(bytes.as_slice()) {
            Some(c) => Ok(c),
            None => Err(AuthError::MalformedToken),
        }
    }
    /// Whether `token` is genuine and still fresh at `now`; a token that does
    /// not verify is turned down as `from_token` turns it down.
    pub fn validate_token_at(token: &str, secret: &[u8], now: u64) -> (r: Result<bool, AuthError>)
        ensures
            match r {
                Ok(fresh) => exists|c: ClaimsView|
                    secret@.len() > 0 && token@ == #[trigger] token_text(c, secret@) && fresh
                        == fresh_at(c, now as int),
                Err(e) => decode_rejects(token@, secret@, e),
            },
            forall|c: ClaimsView|
                secret@.len() > 0 && token@ == #[trigger] token_text(c, secret@) ==> r == Ok::<
                    bool,
                    AuthError,
                >(fresh_at(c, now as int)),
    {
        match Claims::from_token(token, secret) {
            Ok(claims) => Ok(is_fresh(&claims, now)),
            Err(e) => Err(e),
        }
    }

    /// Whether `token` is genuine and still fresh at the time the clock reads
    /// now. A clock before the epoch is a configuration error.
    pub fn validate_token(token: &str, secret: &[u8]) -> (r: Result<bool, AuthError>)
        ensures
            match r {
                Ok(fresh) => exists|c: ClaimsView, now: u64|
                    #![trigger token_text(c, secret@), fresh_at(c, now as int)]
                    secret@.len() > 0 && token@ == token_text(c, secret@) && fresh == fresh_at(
                        c,
                        now as int,
                    ),
                Err(e) => e == AuthError::ConfigurationError || decode_rejects(token@, secret@, e),
            },
    {
        match crate::issuer::current_time() {
            Some(now) => Claims::validate_token_at(token, secret, now),
            None => Err(AuthError::ConfigurationError),
        }
    }

    /// Whether genuine `token` speaks for `user_id`. Expiry is not looked at.
    pub fn validate_user_id(user_id: &str, token: &str, secret: &[u8]) -> (r: Result<
        bool,
        AuthError,
    >)
        ensures
            match r {
                Ok(same) => exists|c: ClaimsView|
                    secret@.len() > 0 && token@ == #[trigger] token_text(c, secret@) && same == (
                    c.sub == user_id@),
                Err(e) => decode_rejects(token@, secret@, e),
            },
            forall|c: ClaimsView|
                secret@.len() > 0 && token@ == #[trigger] token_text(c, secret@) ==> r == Ok::<
                    bool,
                    AuthError,
                >(c.sub == user_id@),
    {
        match Claims::from_token(token, secret) {
            Ok(claims) => Ok(claims.sub == user_id.to_owned()),
            Err(e) => Err(e),
        }
    }
}

/// The subject of genuine `token`. Expiry is not looked at.
pub fn get_user_id_from_token(token: &str, secret: &[u8]) -> (r: Result<String, AuthError>)
    ensures
        match r {
            Ok(sub) => exists|c: ClaimsView|
                secret@.len() > 0 && token@ == #[trigger] token_text(c, secret@) && sub@ == c.sub,
            Err(e) => decode_rejects(token@, secret@, e),
        },
        forall|c: ClaimsView|
            secret@.len() > 0 && token@ == #[trigger] token_text(c, secret@) ==> r is Ok
                && r->Ok_0@ == c.sub,
{
    match Claims::from_token(token, secret) {
        Ok(claims) => Ok(claims.sub),
        Err(e) => Err(e),
    }
}

} // verus!

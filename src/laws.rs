//! Laws that tie issuance, verification and freshness together.
use crate::base64url::{b64url, lemma_b64url_injective, segment_text};
use crate::claims::{payload_json, ClaimsView, TokenType};
use crate::codec::{
    decode_rejects, framed, fresh_at, hmac_sha256, lemma_framed_unique, lemma_token_framed,
    lemma_token_injective, signing_input, tag_of, token_text,
};
use crate::issuer::{issuable_at, issued_claims, issued_token};
use vstd::prelude::*;
use vstd::utf8::*;

verus! {

/// Round trip: the token issued for `subject` decodes, under the same key, to
/// the claims it was issued with and to no others, so its subject is
/// `subject` and its kind is the kind asked for. (`Claims::from_token` returns `Ok(c)`
/// exactly for the claims `c` whose token is the one given.)
pub proof fn lemma_issue_round_trip(subject: Seq<char>, t: TokenType, key: Seq<u8>, now: u64)
    requires
        key.len() > 0,
        issuable_at(t, now),
    ensures
        token_text(issued_claims(subject, t, now), key) == issued_token(subject, t, key, now),
        forall|c: ClaimsView|
            #[trigger] token_text(c, key) == issued_token(subject, t, key, now) ==> c
                == issued_claims(subject, t, now) && c.sub == subject && c.token_type == t,
{
    assert forall|c: ClaimsView|
        #[trigger] token_text(c, key) == issued_token(subject, t, key, now) implies c
            == issued_claims(subject, t, now) by {
        lemma_token_injective(c, issued_claims(subject, t, now), key);
    }
}

/// Freshness at the edges of the expiry: one second before it a token is
/// fresh, at it and after it a token is stale, and a token fresh at some time
/// was fresh at every earlier time.
pub proof fn lemma_expiry_edges(c: ClaimsView, now: int)
    ensures
        c.exp == now + 1 ==> fresh_at(c, now),
        c.exp == now - 1 ==> !fresh_at(c, now),
        c.exp == now ==> !fresh_at(c, now),
        forall|earlier: int| earlier <= now && fresh_at(c, now) ==> #[trigger] fresh_at(c, earlier),
{
}

/// A genuine token whose tag segment is replaced by any other segment is not
/// a token that any claims give under the key, and verification turns it
/// down as an invalid signature.
pub proof fn lemma_tag_tampering(c: ClaimsView, key: Seq<u8>, forged: Seq<char>)
    requires
        key.len() > 0,
        segment_text(forged),
        forged != tag_of(key, signing_input(b64url(payload_json(c)))),
    ensures
        ({
            let t = signing_input(b64url(payload_json(c))) + seq!['.'] + forged;
            &&& forall|other: ClaimsView| t != #[trigger] token_text(other, key)
            &&& decode_rejects(t, key, crate::error::AuthError::InvalidSignature)
        }),
{
    let p = b64url(payload_json(c));
    let t = signing_input(p) + seq!['.'] + forged;
    lemma_token_framed(c, key);
    assert(framed(t, p, forged));
    assert forall|other: ClaimsView| t != #[trigger] token_text(other, key) by {
        if t == token_text(other, key) {
            let po = b64url(payload_json(other));
            lemma_token_framed(other, key);
            lemma_framed_unique(t, p, forged, po, tag_of(key, signing_input(po)));
        }
    }
}

/// A token whose payload segment is replaced by another segment while its
/// tag is kept verifies only if the key gives the two different signing
/// inputs the same HMAC-SHA256 tag: tampering with the payload is as hard as
/// forging the MAC.
pub proof fn lemma_payload_tampering(c: ClaimsView, key: Seq<u8>, forged: Seq<char>, other: ClaimsView)
    requires
        segment_text(forged),
        forged != b64url(payload_json(c)),
        token_text(other, key) == signing_input(forged) + seq!['.'] + tag_of(
            key,
            signing_input(b64url(payload_json(c))),
        ),
    ensures
        encode_utf8(signing_input(forged)) != encode_utf8(
            signing_input(b64url(payload_json(c))),
        ),
        hmac_sha256(key, encode_utf8(signing_input(forged))) == hmac_sha256(
            key,
            encode_utf8(signing_input(b64url(payload_json(c)))),
        ),
{
    let p = b64url(payload_json(c));
    let po = b64url(payload_json(other));
    let t = token_text(other, key);
    lemma_token_framed(other, key);
    lemma_token_framed(c, key);
    assert(framed(t, forged, tag_of(key, signing_input(p))));
    lemma_framed_unique(t, forged, tag_of(key, signing_input(p)), po, tag_of(key, signing_input(po)));
    lemma_b64url_injective(
        hmac_sha256(key, encode_utf8(signing_input(forged))),
        hmac_sha256(key, encode_utf8(signing_input(p))),
    );
    if encode_utf8(signing_input(forged)) == encode_utf8(signing_input(p)) {
        encode_utf8_decode_utf8(signing_input(forged));
        encode_utf8_decode_utf8(signing_input(p));
        let h = signing_input(p).len() - p.len();
        assert(forged =~= signing_input(forged).subrange(h, signing_input(forged).len() as int));
        assert(p =~= signing_input(p).subrange(h, signing_input(p).len() as int));
    }
}

/// A token made under one key verifies under another only if the two keys
/// give its signing input the same HMAC-SHA256 tag; it then reads back as the
/// same claims.
pub proof fn lemma_cross_key(c: ClaimsView, key: Seq<u8>, other_key: Seq<u8>, other: ClaimsView)
    requires
        token_text(other, other_key) == token_text(c, key),
    ensures
        other == c,
        hmac_sha256(other_key, encode_utf8(signing_input(b64url(payload_json(c))))) == hmac_sha256(
            key,
            encode_utf8(signing_input(b64url(payload_json(c)))),
        ),
{
    let p = b64url(payload_json(c));
    let po = b64url(payload_json(other));
    let t = token_text(c, key);
    lemma_token_framed(c, key);
    lemma_token_framed(other, other_key);
    lemma_framed_unique(t, p, tag_of(key, signing_input(p)), po, tag_of(other_key, signing_input(po)));
    lemma_b64url_injective(payload_json(c), payload_json(other));
    crate::claims::lemma_payload_injective(c, other);
    lemma_b64url_injective(
        hmac_sha256(other_key, encode_utf8(signing_input(p))),
        hmac_sha256(key, encode_utf8(signing_input(p))),
    );
}

} // verus!

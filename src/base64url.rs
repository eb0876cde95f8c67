//! The URL-safe base64 alphabet without padding (RFC 4648, section 5), which
//! frames every segment of a token.
use base64::Engine;
use vstd::prelude::*;

verus! {

/// The ASCII code of the digit for a six-bit value.
pub open spec fn b64_digit(x: u8) -> u8 {
    if x < 26 {
        (x + 65) as u8
    } else if x < 52 {
        (x + 71) as u8
    } else if x < 62 {
        (x - 4) as u8
    } else if x == 62 {
        45
    } else {
        95
    }
}

pub open spec fn b64_char(x: u8) -> char {
    b64_digit(x) as char
}

/// Unpadded URL-safe base64 of `b`: each group of three bytes becomes four
/// digits, a final group of one or two bytes becomes two or three.
pub open spec fn b64url(b: Seq<u8>) -> Seq<char>
    decreases b.len(),
{
    if b.len() == 0 {
        Seq::empty()
    } else if b.len() == 1 {
        seq![b64_char(b[0] >> 2), b64_char((b[0] & 3) << 4)]
    } else if b.len() == 2 {
        seq![
            b64_char(b[0] >> 2),
            b64_char(((b[0] & 3) << 4) | (b[1] >> 4)),
            b64_char((b[1] & 15) << 2),
        ]
    } else {
        seq![
            b64_char(b[0] >> 2),
            b64_char(((b[0] & 3) << 4) | (b[1] >> 4)),
            b64_char(((b[1] & 15) << 2) | (b[2] >> 6)),
            b64_char(b[2] & 63),
        ] + b64url(b.subrange(3, b.len() as int))
    }
}

/// A character that can stand inside a segment of a token: ASCII and not the
/// separator.
pub open spec fn segment_char(c: char) -> bool {
    '\0' <= c <= '\u{7f}' && c != '.'
}

pub open spec fn segment_text(s: Seq<char>) -> bool {
    forall|i: int| 0 <= i < s.len() ==> segment_char(#[trigger] s[i])
}

proof fn lemma_b64_char(x: u8)
    requires
        x < 64,
    ensures
        segment_char(b64_char(x)),
{
}

/// Base64 text never holds the separator and is always ASCII.
pub proof fn lemma_b64url_segment(b: Seq<u8>)
    ensures
        segment_text(b64url(b)),
    decreases b.len(),
{
    if b.len() == 0 {
    } else {
        let b0 = b[0];
        assert(b0 >> 2 < 64) by (bit_vector);
        assert((b0 & 3) << 4 < 64) by (bit_vector);
        lemma_b64_char(b0 >> 2);
        lemma_b64_char((b0 & 3) << 4);
        if b.len() >= 2 {
            let b1 = b[1];
            assert(((b0 & 3) << 4) | (b1 >> 4) < 64) by (bit_vector);
            assert((b1 & 15) << 2 < 64) by (bit_vector);
            lemma_b64_char(((b0 & 3) << 4) | (b1 >> 4));
            lemma_b64_char((b1 & 15) << 2);
            if b.len() >= 3 {
                let b2 = b[2];
                assert(((b1 & 15) << 2) | (b2 >> 6) < 64) by (bit_vector);
                assert(b2 & 63 < 64) by (bit_vector);
                lemma_b64_char(((b1 & 15) << 2) | (b2 >> 6));
                lemma_b64_char(b2 & 63);
                lemma_b64url_segment(b.subrange(3, b.len() as int));
            }
        }
    }
}

proof fn lemma_b64_char_injective(x: u8, y: u8)
    requires
        x < 64,
        y < 64,
        b64_char(x) == b64_char(y),
    ensures
        x == y,
{
    assert(b64_digit(x) == b64_digit(y));
}

proof fn lemma_b64url_len(b: Seq<u8>)
    ensures
        b.len() == 0 ==> b64url(b).len() == 0,
        b.len() == 1 ==> b64url(b).len() == 2,
        b.len() == 2 ==> b64url(b).len() == 3,
        b.len() >= 3 ==> b64url(b).len() >= 4,
{
}

proof fn lemma_b64url_front(b: Seq<u8>)
    ensures
        b.len() >= 1 ==> b64url(b)[0] == b64_char(b[0] >> 2),
        b.len() >= 2 ==> b64url(b)[1] == b64_char(((b[0] & 3) << 4) | (b[1] >> 4)),
        b.len() >= 3 ==> b64url(b)[2] == b64_char(((b[1] & 15) << 2) | (b[2] >> 6)),
        b.len() >= 3 ==> b64url(b)[3] == b64_char(b[2] & 63),
{
    if b.len() >= 3 {
        let g = seq![
            b64_char(b[0] >> 2),
            b64_char(((b[0] & 3) << 4) | (b[1] >> 4)),
            b64_char(((b[1] & 15) << 2) | (b[2] >> 6)),
            b64_char(b[2] & 63),
        ];
        assert(b64url(b) == g + b64url(b.subrange(3, b.len() as int)));
        assert(b64url(b)[0] == g[0]);
        assert(b64url(b)[1] == g[1]);
        assert(b64url(b)[2] == g[2]);
        assert(b64url(b)[3] == g[3]);
    }
}

/// Different bytes have different base64 texts.
pub proof fn lemma_b64url_injective(b: Seq<u8>, c: Seq<u8>)
    requires
        b64url(b) == b64url(c),
    ensures
        b == c,
    decreases b.len(),
{
    lemma_b64url_len(b);
    lemma_b64url_len(c);
    lemma_b64url_front(b);
    lemma_b64url_front(c);
    let t = b64url(b);
    if b.len() == 0 {
        assert(b =~= c);
    } else {
        let (b0, c0) = (b[0], c[0]);
        assert(b0 >> 2 < 64 && c0 >> 2 < 64) by (bit_vector);
        lemma_b64_char_injective(b0 >> 2, c0 >> 2);
        if b.len() == 1 {
            assert((b0 & 3) << 4 < 64 && (c0 & 3) << 4 < 64) by (bit_vector);
            lemma_b64_char_injective((b0 & 3) << 4, (c0 & 3) << 4);
            assert(b0 == c0) by (bit_vector)
                requires
                    b0 >> 2 == c0 >> 2,
                    (b0 & 3) << 4 == (c0 & 3) << 4,
            ;
            assert(b =~= c);
        } else {
            let (b1, c1) = (b[1], c[1]);
            assert(((b0 & 3) << 4) | (b1 >> 4) < 64 && ((c0 & 3) << 4) | (c1 >> 4) < 64)
                by (bit_vector);
            lemma_b64_char_injective(((b0 & 3) << 4) | (b1 >> 4), ((c0 & 3) << 4) | (c1 >> 4));
            if b.len() == 2 {
                assert((b1 & 15) << 2 < 64 && (c1 & 15) << 2 < 64) by (bit_vector);
                lemma_b64_char_injective((b1 & 15) << 2, (c1 & 15) << 2);
                assert(b0 == c0 && b1 == c1) by (bit_vector)
                    requires
                        b0 >> 2 == c0 >> 2,
                        ((b0 & 3) << 4) | (b1 >> 4) == ((c0 & 3) << 4) | (c1 >> 4),
                        (b1 & 15) << 2 == (c1 & 15) << 2,
                ;
                assert(b =~= c);
            } else {
                let (b2, c2) = (b[2], c[2]);
                assert(((b1 & 15) << 2) | (b2 >> 6) < 64 && ((c1 & 15) << 2) | (c2 >> 6) < 64)
                    by (bit_vector);
                assert(b2 & 63 < 64 && c2 & 63 < 64) by (bit_vector);
                lemma_b64_char_injective(((b1 & 15) << 2) | (b2 >> 6), ((c1 & 15) << 2) | (c2 >> 6));
                lemma_b64_char_injective(b2 & 63, c2 & 63);
                assert(b0 == c0 && b1 == c1 && b2 == c2) by (bit_vector)
                    requires
                        b0 >> 2 == c0 >> 2,
                        ((b0 & 3) << 4) | (b1 >> 4) == ((c0 & 3) << 4) | (c1 >> 4),
                        ((b1 & 15) << 2) | (b2 >> 6) == ((c1 & 15) << 2) | (c2 >> 6),
                        b2 & 63 == c2 & 63,
                ;
                let rb = b.subrange(3, b.len() as int);
                let rc = c.subrange(3, c.len() as int);
                assert(b64url(rb) =~= t.subrange(4, t.len() as int));
                assert(b64url(rc) =~= t.subrange(4, t.len() as int));
                lemma_b64url_injective(rb, rc);
                assert(b =~= seq![b0, b1, b2] + rb);
                assert(c =~= seq![c0, c1, c2] + rc);
            }
        }
    }
}

#[verifier::external_type_specification]
#[verifier::external_body]
pub struct ExDecodeError(base64::DecodeError);

/// Relies on base64's `URL_SAFE_NO_PAD.encode`: the unpadded URL-safe
/// base64 text of the input.
#[verifier::external_body]
pub(crate) fn encode_b64url(input: &[u8]) -> (r: String)
    ensures
        r@ == b64url(input@),
{
    base64::engine::general_purpose::URL_SAFE_NO_PAD.encode(input)
}

/// Relies on base64's `URL_SAFE_NO_PAD.decode`, which takes no padding and
/// refuses non-zero trailing bits: it succeeds exactly on the texts that
/// the encoder produces, and returns the bytes they encode.
#[verifier::external_body]
pub(crate) fn decode_b64url(input: &str) -> (r: Result<Vec<u8>, base64::DecodeError>)
    ensures
        r is Ok ==> b64url(r->Ok_0@) == input@,
        forall|b: Seq<u8>| b64url(b) == input@ ==> r is Ok && r->Ok_0@ == b,
{
    base64::engine::general_purpose::URL_SAFE_NO_PAD.decode(input)
}

} // verus!

//! The claims a token carries, and their JSON text: the payload segment of a
//! token is the base64 of exactly these bytes.
use vstd::prelude::*;
use vstd::utf8::*;

verus! {

/// Which of the two token kinds a token is.
#[derive(Clone, Copy, Debug, PartialEq, Eq, Structural)]
pub enum TokenType {
    Access,
    Refresh,
}

/// The signed payload: who the token speaks for, and when it was issued and
/// expires, in seconds since the epoch.
#[derive(Debug)]
pub struct Claims {
    pub sub: String,
    pub exp: u64,
    pub iat: u64,
    pub token_type: TokenType,
}

/// The mathematical value of a `Claims`.
pub struct ClaimsView {
    pub sub: Seq<char>,
    pub exp: u64,
    pub iat: u64,
    pub token_type: TokenType,
}

impl View for Claims {
    type V = ClaimsView;

    open spec fn view(&self) -> ClaimsView {
        ClaimsView { sub: self.sub@, exp: self.exp, iat: self.iat, token_type: self.token_type }
    }
}

/// `{"sub":"`
pub open spec fn key_sub() -> Seq<u8> {
    seq![123u8, 34, 115, 117, 98, 34, 58, 34]
}

/// `","exp":`
pub open spec fn key_exp() -> Seq<u8> {
    seq![34u8, 44, 34, 101, 120, 112, 34, 58]
}

/// `,"iat":`
pub open spec fn key_iat() -> Seq<u8> {
    seq![44u8, 34, 105, 97, 116, 34, 58]
}

/// `,"token_type":"`
pub open spec fn key_type() -> Seq<u8> {
    seq![44u8, 34, 116, 111, 107, 101, 110, 95, 116, 121, 112, 101, 34, 58, 34]
}

/// `"}`
pub open spec fn object_end() -> Seq<u8> {
    seq![34u8, 125]
}

/// `access` or `refresh`.
pub open spec fn kind_name(t: TokenType) -> Seq<u8> {
    match t {
        TokenType::Access => seq![97u8, 99, 99, 101, 115, 115],
        TokenType::Refresh => seq![114u8, 101, 102, 114, 101, 115, 104],
    }
}

/// Lower-case hexadecimal digit of a value below 16.
pub open spec fn hex_digit(d: u8) -> u8 {
    if d < 10 {
        (48 + d) as u8
    } else {
        (87 + d) as u8
    }
}

/// The letter of the two-character escape of a byte, where JSON has one:
/// `\"`, `\\`, `\b`, `\t`, `\n`, `\f` and `\r`.
pub open spec fn short_escape(b: u8) -> Option<u8> {
    if b == 34 {
        Some(34u8)
    } else if b == 92 {
        Some(92u8)
    } else if b == 8 {
        Some(98u8)
    } else if b == 9 {
        Some(116u8)
    } else if b == 10 {
        Some(110u8)
    } else if b == 12 {
        Some(102u8)
    } else if b == 13 {
        Some(114u8)
    } else {
        None
    }
}

/// The byte that a two-character escape with letter `e` stands for.
pub open spec fn unescape_letter(e: u8) -> Option<u8> {
    if e == 34 {
        Some(34u8)
    } else if e == 92 {
        Some(92u8)
    } else if e == 98 {
        Some(8u8)
    } else if e == 116 {
        Some(9u8)
    } else if e == 110 {
        Some(10u8)
    } else if e == 102 {
        Some(12u8)
    } else if e == 114 {
        Some(13u8)
    } else {
        None
    }
}

/// How one byte of a string stands between JSON quotes, as serde_json writes
/// it: the quote, the backslash and five control bytes take a two-character
/// escape, the other control bytes a `\u00XX` escape, and every other byte
/// (the bytes of multi-byte UTF-8 included) stands as it is.
pub open spec fn escape_byte(b: u8) -> Seq<u8> {
    if short_escape(b) is Some {
        seq![92u8, short_escape(b)->0]
    } else if b < 32 {
        seq![92u8, 117, 48, 48, hex_digit(b >> 4), hex_digit(b & 15)]
    } else {
        seq![b]
    }
}

pub open spec fn escape(s: Seq<u8>) -> Seq<u8>
    decreases s.len(),
{
    if s.len() == 0 {
        Seq::empty()
    } else {
        escape_byte(s[0]) + escape(s.subrange(1, s.len() as int))
    }
}

/// Decimal digits of `n`, without leading zeros.
pub open spec fn decimal(n: nat) -> Seq<u8>
    decreases n,
{
    if n < 10 {
        seq![(48 + n) as u8]
    } else {
        decimal(n / 10) + seq![(48 + n % 10) as u8]
    }
}

/// The JSON text of the claims, keys in this order:
/// `{"sub":"…","exp":…,"iat":…,"token_type":"access"}`.
pub open spec fn payload_json(c: ClaimsView) -> Seq<u8> {
    key_sub() + escape(encode_utf8(c.sub)) + key_exp() + decimal(c.exp as nat) + key_iat()
        + decimal(c.iat as nat) + key_type() + kind_name(c.token_type) + object_end()
}

pub proof fn lemma_escape_concat(a: Seq<u8>, b: Seq<u8>)
    ensures
        escape(a + b) == escape(a) + escape(b),
    decreases a.len(),
{
    if a.len() == 0 {
        assert(a + b =~= b);
        assert(escape(a) + escape(b) =~= escape(b));
    } else {
        lemma_escape_concat(a.subrange(1, a.len() as int), b);
        assert((a + b).subrange(1, (a + b).len() as int) =~= a.subrange(1, a.len() as int) + b);
        assert(escape(a + b) =~= escape(a) + escape(b));
    }
}

fn push_all(out: &mut Vec<u8>, piece: Vec<u8>)
    ensures
        final(out)@ == old(out)@ + piece@,
{
    let mut p = piece;
    out.append(&mut p);
}

fn short_escape_exec(b: u8) -> (r: Option<u8>)
    ensures
        r == short_escape(b),
{
    if b == 34 {
        Some(34)
    } else if b == 92 {
        Some(92)
    } else if b == 8 {
        Some(98)
    } else if b == 9 {
        Some(116)
    } else if b == 10 {
        Some(110)
    } else if b == 12 {
        Some(102)
    } else if b == 13 {
        Some(114)
    } else {
        None
    }
}

fn unescape_letter_exec(e: u8) -> (r: Option<u8>)
    ensures
        r == unescape_letter(e),
{
    if e == 34 {
        Some(34)
    } else if e == 92 {
        Some(92)
    } else if e == 98 {
        Some(8)
    } else if e == 116 {
        Some(9)
    } else if e == 110 {
        Some(10)
    } else if e == 102 {
        Some(12)
    } else if e == 114 {
        Some(13)
    } else {
        None
    }
}

fn escape_into(out: &mut Vec<u8>, s: &[u8])
    ensures
        final(out)@ == old(out)@ + escape(s@),
{
    let mut i: usize = 0;
    while i < s.len()
        invariant
            i <= s@.len(),
            out@ == old(out)@ + escape(s@.subrange(0, i as int)),
        decreases s@.len() - i,
    {
        let b = s[i];
        proof {
            lemma_escape_concat(s@.subrange(0, i as int), seq![b]);
            assert(s@.subrange(0, i as int + 1) =~= s@.subrange(0, i as int) + seq![b]);
            assert(escape(seq![b]) =~= escape_byte(b) + escape(seq![b].subrange(1, 1)));
            assert(escape(seq![b]) =~= escape_byte(b));
        }
        if let Some(e) = short_escape_exec(b) {
            out.push(92);
            out.push(e);
        } else if b < 32 {
            let hi = b >> 4;
            let lo = b & 15;
            assert(hi < 16) by (bit_vector)
                requires
                    hi == b >> 4,
                    b < 32,
            ;
            assert(lo < 16) by (bit_vector)
                requires
                    lo == b & 15,
            ;
            out.push(92);
            out.push(117);
            out.push(48);
            out.push(48);
            out.push(if hi < 10 { 48 + hi } else { 87 + hi });
            out.push(if lo < 10 { 48 + lo } else { 87 + lo });
        } else {
            out.push(b);
        }
        i = i + 1;
        assert(out@ =~= old(out)@ + escape(s@.subrange(0, i as int)));
    }
    assert(s@.subrange(0, s@.len() as int) =~= s@);
}

fn push_decimal(out: &mut Vec<u8>, n: u64)
    ensures
        final(out)@ == old(out)@ + decimal(n as nat),
    decreases n,
{
    if n >= 10 {
        push_decimal(out, n / 10);
    }
    let d = (n % 10) as u8;
    out.push(48 + d);
    assert(out@ =~= old(out)@ + decimal(n as nat));
}

impl Claims {
    /// The JSON text of these claims (see `payload_json`).
    pub fn to_json(&self) -> (r: Vec<u8>)
        ensures
            r@ == payload_json(self@),
    {
        let mut out: Vec<u8> = vec![123, 34, 115, 117, 98, 34, 58, 34];
        escape_into(&mut out, self.sub.as_str().as_bytes());
        push_all(&mut out, vec![34, 44, 34, 101, 120, 112, 34, 58]);
        push_decimal(&mut out, self.exp);
        push_all(&mut out, vec![44, 34, 105, 97, 116, 34, 58]);
        push_decimal(&mut out, self.iat);
        push_all(&mut out, vec![44, 34, 116, 111, 107, 101, 110, 95, 116, 121, 112, 101, 34, 58, 34]);
        match self.token_type {
            TokenType::Access => push_all(&mut out, vec![97, 99, 99, 101, 115, 115]),
            TokenType::Refresh => push_all(&mut out, vec![114, 101, 102, 114, 101, 115, 104]),
        }
        push_all(&mut out, vec![34, 125]);
        assert(out@ =~= payload_json(self@));
        out
    }
}


pub open spec fn is_hex(d: u8) -> bool {
    (48 <= d <= 57) || (97 <= d <= 102)
}

pub open spec fn hex_value(d: u8) -> u8 {
    if d <= 57 {
        (d - 48) as u8
    } else {
        (d - 87) as u8
    }
}

/// One character of a JSON string read at `i`: the byte it stands for and
/// where the next one starts. Reads the escapes that `escape_byte` writes.
pub open spec fn unescape_at(b: Seq<u8>, i: int) -> Option<(u8, int)> {
    if b[i] != 92 {
        Some((b[i], i + 1))
    } else if b.len() - i > 1 && unescape_letter(b[i + 1]) is Some {
        Some((unescape_letter(b[i + 1])->0, i + 2))
    } else if b.len() - i > 5 && b[i + 1] == 117 && b[i + 2] == 48 && b[i + 3] == 48 && (b[i + 4]
        == 48 || b[i + 4] == 49) && is_hex(b[i + 5]) {
        Some((((b[i + 4] - 48) * 16 + hex_value(b[i + 5])) as u8, i + 6))
    } else {
        None
    }
}

/// The string that starts at `i`, up to its closing quote: its bytes, and the
/// index just past the quote.
pub open spec fn read_escaped(b: Seq<u8>, i: int) -> Option<(Seq<u8>, int)>
    decreases b.len() - i,
{
    if i < 0 || i >= b.len() {
        None
    } else if b[i] == 34 {
        Some((Seq::empty(), i + 1))
    } else {
        match unescape_at(b, i) {
            None => None,
            Some((x, n)) => match read_escaped(b, n) {
                None => None,
                Some((s, j)) => Some((seq![x] + s, j)),
            },
        }
    }
}

pub open spec fn is_digit(d: u8) -> bool {
    48 <= d <= 57
}

/// The end of the run of digits that starts at `i`.
pub open spec fn digit_end(b: Seq<u8>, i: int) -> int
    decreases b.len() - i,
{
    if 0 <= i < b.len() && is_digit(b[i]) {
        digit_end(b, i + 1)
    } else {
        i
    }
}

pub open spec fn digits_value(s: Seq<u8>) -> nat
    decreases s.len(),
{
    if s.len() == 0 {
        0
    } else {
        digits_value(s.drop_last()) * 10 + (s.last() - 48) as nat
    }
}

proof fn lemma_escape_read(pre: Seq<u8>, x: Seq<u8>, rest: Seq<u8>)
    ensures
        read_escaped(pre + escape(x) + seq![34u8] + rest, pre.len() as int) == Some(
            (x, (pre.len() + escape(x).len() + 1) as int),
        ),
    decreases x.len(),
{
    let b = pre + escape(x) + seq![34u8] + rest;
    let p = pre.len() as int;
    if x.len() == 0 {
        assert(b[p] == 34);
        assert(x =~= Seq::<u8>::empty());
    } else {
        let x0 = x[0];
        let tail = x.subrange(1, x.len() as int);
        let e = escape_byte(x0);
        let pre2 = pre + e;
        assert(b =~= pre2 + escape(tail) + seq![34u8] + rest);
        lemma_escape_read(pre2, tail, rest);
        assert(b[p] == e[0]);
        if short_escape(x0) is Some {
            assert(b[p + 1] == short_escape(x0)->0);
            assert(unescape_at(b, p) == Some((x0, p + 2)));
        } else if x0 < 32 {
            let hi = x0 >> 4;
            let lo = x0 & 15;
            assert(hi < 2 && lo < 16 && hi * 16 + lo == x0) by (bit_vector)
                requires
                    hi == x0 >> 4,
                    lo == x0 & 15,
                    x0 < 32,
            ;
            assert(b[p + 4] == hex_digit(hi));
            assert(b[p + 5] == hex_digit(lo));
            assert(unescape_at(b, p) == Some((x0, p + 6)));
        } else {
            assert(unescape_at(b, p) == Some((x0, p + 1)));
        }
        assert(seq![x0] + tail =~= x);
    }
}

proof fn lemma_decimal_digits(n: nat)
    ensures
        decimal(n).len() > 0,
        forall|i: int| 0 <= i < decimal(n).len() ==> is_digit(#[trigger] decimal(n)[i]),
        digits_value(decimal(n)) == n,
    decreases n,
{
    if n >= 10 {
        lemma_decimal_digits(n / 10);
        assert(decimal(n).drop_last() =~= decimal(n / 10));
        assert(decimal(n).last() == (48 + n % 10) as u8);
        assert((n / 10) * 10 + n % 10 == n) by (nonlinear_arith);
        assert(digits_value(decimal(n)) == digits_value(decimal(n / 10)) * 10 + (n % 10));
    } else {
        assert(decimal(n).drop_last() =~= Seq::<u8>::empty());
        assert(decimal(n).last() == (48 + n) as u8);
        assert(digits_value(decimal(n)) == digits_value(Seq::<u8>::empty()) * 10 + n);
    }
}

proof fn lemma_digit_end(b: Seq<u8>, i: int, j: int)
    requires
        0 <= i <= j <= b.len(),
        forall|k: int| i <= k < j ==> is_digit(#[trigger] b[k]),
        j == b.len() || !is_digit(b[j]),
    ensures
        digit_end(b, i) == j,
    decreases j - i,
{
    if i < j {
        lemma_digit_end(b, i + 1, j);
    }
}

proof fn lemma_decimal_read(pre: Seq<u8>, n: nat, rest: Seq<u8>)
    requires
        rest.len() > 0,
        !is_digit(rest[0]),
    ensures
        ({
            let b = pre + decimal(n) + rest;
            &&& digit_end(b, pre.len() as int) == pre.len() + decimal(n).len()
            &&& b.subrange(pre.len() as int, (pre.len() + decimal(n).len()) as int) == decimal(n)
        }),
{
    let b = pre + decimal(n) + rest;
    lemma_decimal_digits(n);
    let j = (pre.len() + decimal(n).len()) as int;
    assert forall|k: int| pre.len() <= k < j implies is_digit(#[trigger] b[k]) by {
        assert(b[k] == decimal(n)[k - pre.len()]);
    }
    assert(b[j] == rest[0]);
    lemma_digit_end(b, pre.len() as int, j);
    assert(b.subrange(pre.len() as int, j) =~= decimal(n));
}

proof fn lemma_digits_value_grows(s: Seq<u8>, t: Seq<u8>)
    ensures
        digits_value(s + t) >= digits_value(s),
    decreases t.len(),
{
    if t.len() > 0 {
        let u = t.drop_last();
        lemma_digits_value_grows(s, u);
        assert((s + t).drop_last() =~= s + u);
    } else {
        assert(s + t =~= s);
    }
}


/// Relies on std's `String::from_utf8`: it accepts exactly the valid UTF-8
/// byte strings and returns the text they encode.
#[verifier::external_body]
fn utf8_text(bytes: Vec<u8>) -> (r: Option<String>)
    ensures
        r is Some <==> valid_utf8(bytes@),
        r is Some ==> r->0@ == decode_utf8(bytes@),
{
    String::from_utf8(bytes).ok()
}

/// Whether `b` holds `lit` at `i`.
fn has_bytes(b: &[u8], i: usize, lit: &[u8]) -> (r: bool)
    requires
        i <= b@.len(),
    ensures
        r == (i + lit@.len() <= b@.len() && b@.subrange(i as int, i + lit@.len()) == lit@),
{
    if lit.len() > b.len() - i {
        return false;
    }
    let mut k: usize = 0;
    while k < lit.len()
        invariant
            k <= lit@.len(),
            i + lit@.len() <= b@.len() <= usize::MAX,
            b@.subrange(i as int, i + k) == lit@.subrange(0, k as int),
        decreases lit@.len() - k,
    {
        assert(i + k < b@.len());
        if b[i + k] != lit[k] {
            assert(b@.subrange(i as int, i + lit@.len())[k as int] != lit@[k as int]);
            return false;
        }
        k = k + 1;
        assert(b@.subrange(i as int, i + k) =~= lit@.subrange(0, k as int));
    }
    assert(lit@.subrange(0, k as int) =~= lit@);
    true
}

/// Whether two byte strings are equal.
fn bytes_equal(a: &[u8], b: &[u8]) -> (r: bool)
    ensures
        r == (a@ == b@),
{
    if a.len() != b.len() {
        return false;
    }
    let r = has_bytes(a, 0, b);
    assert(a@.subrange(0, b@.len() as int) =~= a@);
    r
}

fn unescape_exec(b: &[u8], i: usize) -> (r: Option<(u8, usize)>)
    requires
        i < b@.len(),
    ensures
        match unescape_at(b@, i as int) {
            None => r is None,
            Some((x, n)) => r is Some && (r->0).0 == x && (r->0).1 == n && n <= b@.len(),
        },
{
    if b[i] != 92 {
        return Some((b[i], i + 1));
    }
    if b.len() - i > 1 {
        if let Some(v) = unescape_letter_exec(b[i + 1]) {
            return Some((v, i + 2));
        }
    }
    if b.len() - i > 5 && b[i + 1] == 117 && b[i + 2] == 48 && b[i + 3] == 48 && (b[i + 4]
        == 48 || b[i + 4] == 49) && ((48 <= b[i + 5] && b[i + 5] <= 57) || (97 <= b[i + 5] && b[i
        + 5] <= 102)) {
        let hi: u8 = b[i + 4] - 48;
        let d = b[i + 5];
        let lo: u8 = if d <= 57 { d - 48 } else { d - 87 };
        Some((hi * 16 + lo, i + 6))
    } else {
        None
    }
}

fn read_escaped_exec(b: &[u8], start: usize) -> (r: Option<(Vec<u8>, usize)>)
    ensures
        match read_escaped(b@, start as int) {
            None => r is None,
            Some((s, j)) => r is Some && (r->0).0@ == s && (r->0).1 == j && j <= b@.len(),
        },
{
    let mut out: Vec<u8> = Vec::new();
    let mut i = start;
    loop
        invariant
            start <= i,
            read_escaped(b@, start as int) == match read_escaped(b@, i as int) {
                None => None,
                Some((s, j)) => Some((out@ + s, j)),
            },
        decreases b@.len() - i,
    {
        if i >= b.len() {
            return None;
        }
        if b[i] == 34 {
            assert(out@ + Seq::<u8>::empty() =~= out@);
            return Some((out, i + 1));
        }
        match unescape_exec(b, i) {
            None => {
                return None;
            },
            Some((x, n)) => {
                proof {
                    match read_escaped(b@, n as int) {
                        None => {},
                        Some((s, j)) => {
                            assert(out@.push(x) + s =~= out@ + (seq![x] + s));
                        },
                    }
                }
                out.push(x);
                i = n;
            },
        }
    }
}

/// Reads the run of digits at `start` as a `u64`.
fn read_u64(b: &[u8], start: usize) -> (r: Option<(u64, usize)>)
    requires
        start <= b@.len(),
    ensures
        ({
            let e = digit_end(b@, start as int);
            let v = digits_value(b@.subrange(start as int, e));
            if e == start || v > u64::MAX {
                r is None
            } else {
                r is Some && (r->0).0 == v && (r->0).1 == e && e <= b@.len()
            }
        }),
{
    let mut acc: u64 = 0;
    let mut i = start;
    while i < b.len() && 48 <= b[i] && b[i] <= 57
        invariant
            start <= i <= b@.len(),
            acc == digits_value(b@.subrange(start as int, i as int)),
            digit_end(b@, start as int) == digit_end(b@, i as int),
        decreases b@.len() - i,
    {
        let d = (b[i] - 48) as u64;
        let ghost next = b@.subrange(start as int, i + 1);
        proof {
            assert(next.drop_last() =~= b@.subrange(start as int, i as int));
        }
        let grown = match acc.checked_mul(10) {
            Some(m) => m.checked_add(d),
            None => None,
        };
        match grown {
            Some(v) => {
                acc = v;
                i = i + 1;
            },
            None => {
                proof {
                    let e = digit_end(b@, start as int);
                    assert(digit_end(b@, i as int) == digit_end(b@, i + 1));
                    lemma_digit_end_bounds(b@, i + 1);
                    lemma_digits_value_grows(next, b@.subrange(i + 1, e));
                    assert(next + b@.subrange(i + 1, e) =~= b@.subrange(start as int, e));
                }
                return None;
            },
        }
    }
    if i == start {
        None
    } else {
        proof {
            let e = digit_end(b@, start as int);
            assert(b@.subrange(start as int, e) == b@.subrange(start as int, i as int));
        }
        Some((acc, i))
    }
}

proof fn lemma_digit_end_bounds(b: Seq<u8>, i: int)
    requires
        0 <= i <= b.len(),
    ensures
        i <= digit_end(b, i) <= b.len(),
    decreases b.len() - i,
{
    if i < b.len() && is_digit(b[i]) {
        lemma_digit_end_bounds(b, i + 1);
    }
}

/// Where the digits of the expiry start in `payload_json(c)`.
spec fn exp_start(c: ClaimsView) -> int {
    (8 + escape(encode_utf8(c.sub)).len() + 8) as int
}

/// Where the digits of the issue time start.
spec fn iat_start(c: ClaimsView) -> int {
    (exp_start(c) + decimal(c.exp as nat).len() + 7) as int
}

/// Where the name of the kind starts.
spec fn kind_start(c: ClaimsView) -> int {
    (iat_start(c) + decimal(c.iat as nat).len() + 15) as int
}

proof fn lemma_split_at(b: Seq<u8>, pre: Seq<u8>, mid: Seq<u8>, post: Seq<u8>)
    requires
        b == pre + mid + post,
    ensures
        b.subrange(pre.len() as int, (pre.len() + mid.len()) as int) == mid,
        b.subrange(pre.len() as int, b.len() as int) == mid + post,
        b.subrange(0, pre.len() as int) == pre,
{
    assert(b.subrange(pre.len() as int, (pre.len() + mid.len()) as int) =~= mid);
    assert(b.subrange(pre.len() as int, b.len() as int) =~= mid + post);
    assert(b.subrange(0, pre.len() as int) =~= pre);
}

#[verifier::rlimit(100)]
proof fn lemma_payload_layout(c: ClaimsView)
    ensures
        ({
            let b = payload_json(c);
            let x = encode_utf8(c.sub);
            let e1 = exp_start(c) - 7;
            let e2 = iat_start(c) - 7;
            let e3 = kind_start(c) - 15;
            &&& b.subrange(0, 8) == key_sub()
            &&& read_escaped(b, 8) == Some((x, e1))
            &&& b.subrange(e1, e1 + 7) == key_exp().subrange(1, 8)
            &&& digit_end(b, exp_start(c)) == e2
            &&& e2 > exp_start(c)
            &&& digits_value(b.subrange(exp_start(c), e2)) == c.exp
            &&& b.subrange(e2, e2 + 7) == key_iat()
            &&& digit_end(b, iat_start(c)) == e3
            &&& e3 > iat_start(c)
            &&& digits_value(b.subrange(iat_start(c), e3)) == c.iat
            &&& b.subrange(e3, e3 + 15) == key_type()
            &&& b.subrange(kind_start(c), b.len() as int) == kind_name(c.token_type) + object_end()
        }),
{
    let b = payload_json(c);
    let x = encode_utf8(c.sub);
    let e0 = escape(x);
    let d1 = decimal(c.exp as nat);
    let d2 = decimal(c.iat as nat);
    let t = kind_name(c.token_type) + object_end();
    let k2 = key_exp().subrange(1, 8);
    let p0 = key_sub() + e0 + seq![34u8];
    let p1 = p0 + k2;
    let p2 = p1 + d1;
    let p3 = p2 + key_iat();
    let p4 = p3 + d2;
    assert(key_exp() =~= seq![34u8] + k2);
    assert(b =~= p4 + key_type() + t);
    assert(b =~= p3 + d2 + (key_type() + t));
    assert(b =~= p2 + key_iat() + (d2 + key_type() + t));
    assert(b =~= p1 + d1 + (key_iat() + d2 + key_type() + t));
    assert(b =~= p0 + k2 + (d1 + key_iat() + d2 + key_type() + t));
    assert(b =~= key_sub() + e0 + seq![34u8] + (k2 + d1 + key_iat() + d2 + key_type() + t));
    assert(b =~= key_sub() + (e0 + seq![34u8] + k2 + d1 + key_iat() + d2 + key_type() + t));
    lemma_split_at(b, Seq::empty(), key_sub(), e0 + seq![34u8] + k2 + d1 + key_iat() + d2 + key_type() + t);
    lemma_escape_read(key_sub(), x, k2 + d1 + key_iat() + d2 + key_type() + t);
    lemma_split_at(b, p0, k2, d1 + key_iat() + d2 + key_type() + t);
    lemma_decimal_read(p1, c.exp as nat, key_iat() + d2 + key_type() + t);
    lemma_decimal_digits(c.exp as nat);
    lemma_split_at(b, p2, key_iat(), d2 + key_type() + t);
    lemma_decimal_read(p3, c.iat as nat, key_type() + t);
    lemma_decimal_digits(c.iat as nat);
    lemma_split_at(b, p4, key_type(), t);
    lemma_split_at(b, p4 + key_type(), t, Seq::empty());
    assert(t + Seq::<u8>::empty() =~= t);
}

proof fn lemma_payload_tail(c: ClaimsView)
    ensures
        ({
            let b = payload_json(c);
            let e2 = iat_start(c) - 7;
            let e3 = kind_start(c) - 15;
            &&& b.subrange(e2, e2 + 7) == key_iat()
            &&& digit_end(b, iat_start(c)) == e3
            &&& e3 > iat_start(c)
            &&& digits_value(b.subrange(iat_start(c), e3)) == c.iat
            &&& b.subrange(e3, e3 + 15) == key_type()
            &&& b.subrange(kind_start(c), b.len() as int) == kind_name(c.token_type) + object_end()
        }),
{
    lemma_payload_layout(c);
}

/// Different claims have different JSON texts.
pub proof fn lemma_payload_injective(c1: ClaimsView, c2: ClaimsView)
    requires
        payload_json(c1) == payload_json(c2),
    ensures
        c1 == c2,
{
    lemma_payload_layout(c1);
    lemma_payload_layout(c2);
    encode_utf8_decode_utf8(c1.sub);
    encode_utf8_decode_utf8(c2.sub);
    let b = payload_json(c1);
    let t1 = b.subrange(kind_start(c1), b.len() as int);
    if c1.token_type != c2.token_type {
        assert(t1[0] != b.subrange(kind_start(c2), b.len() as int)[0]);
    }
}

/// The subject's bytes and the expiry of a claims text, and where the
/// `,"iat":` key starts. Finds them in every text that `payload_json` gives.
#[verifier::rlimit(60)]
fn read_head(b: &[u8]) -> (r: Option<(Vec<u8>, u64, usize)>)
    ensures
        forall|c: ClaimsView|
            #[trigger] payload_json(c) == b@ ==> {
                &&& r is Some
                &&& (r->0).0@ == encode_utf8(c.sub)
                &&& (r->0).1 == c.exp
                &&& (r->0).2 == iat_start(c) - 7
            },
        r is Some ==> (r->0).2 <= b@.len(),
{
    let n = b.len();
    let ghost hit = exists|c: ClaimsView| payload_json(c) == b@;
    let ghost c0 = choose|c: ClaimsView| payload_json(c) == b@;
    proof {
        if hit {
            lemma_payload_layout(c0);
            assert forall|c: ClaimsView| payload_json(c) == b@ implies c == c0 by {
                lemma_payload_injective(c, c0);
            }
        }
    }
    let k1: Vec<u8> = vec![123, 34, 115, 117, 98, 34, 58, 34];
    proof {
        assert(k1@ =~= key_sub());
    }
    if !has_bytes(b, 0, k1.as_slice()) {
        return None;
    }
    let (sb, i1) = match read_escaped_exec(b, 8) {
        Some(found) => found,
        None => {
            return None;
        },
    };
    let k2: Vec<u8> = vec![44, 34, 101, 120, 112, 34, 58];
    proof {
        assert(k2@ =~= key_exp().subrange(1, 8));
    }
    if !has_bytes(b, i1, k2.as_slice()) {
        return None;
    }
    let (exp, i2) = match read_u64(b, i1 + 7) {
        Some(found) => found,
        None => {
            return None;
        },
    };
    Some((sb, exp, i2))
}

/// The issue time and the kind of a claims text whose `,"iat":` key starts
/// at `i`.
#[verifier::rlimit(60)]
fn read_tail(b: &[u8], i: usize) -> (r: Option<(u64, TokenType)>)
    requires
        i <= b@.len(),
    ensures
        forall|c: ClaimsView|
            #[trigger] payload_json(c) == b@ && i == iat_start(c) - 7 ==> {
                &&& r is Some
                &&& (r->0).0 == c.iat
                &&& (r->0).1 == c.token_type
            },
{
    let n = b.len();
    let ghost hit = exists|c: ClaimsView| payload_json(c) == b@ && i == iat_start(c) - 7;
    let ghost c0 = choose|c: ClaimsView| payload_json(c) == b@ && i == iat_start(c) - 7;
    proof {
        if hit {
            lemma_payload_tail(c0);
            assert forall|c: ClaimsView| payload_json(c) == b@ implies c == c0 by {
                lemma_payload_injective(c, c0);
            }
        }
    }
    let k3: Vec<u8> = vec![44, 34, 105, 97, 116, 34, 58];
    proof {
        assert(k3@ =~= key_iat());
    }
    if !has_bytes(b, i, k3.as_slice()) {
        return None;
    }
    let (iat, i3) = match read_u64(b, i + 7) {
        Some(found) => found,
        None => {
            return None;
        },
    };
    let k4: Vec<u8> = vec![44, 34, 116, 111, 107, 101, 110, 95, 116, 121, 112, 101, 34, 58, 34];
    proof {
        assert(k4@ =~= key_type());
    }
    if !has_bytes(b, i3, k4.as_slice()) {
        return None;
    }
    let i4 = i3 + 15;
    let access: Vec<u8> = vec![97, 99, 99, 101, 115, 115, 34, 125];
    let refresh: Vec<u8> = vec![114, 101, 102, 114, 101, 115, 104, 34, 125];
    proof {
        if hit {
            assert(i4 == kind_start(c0));
            let tail = b@.subrange(i4 as int, b@.len() as int);
            if c0.token_type == TokenType::Access {
                assert(tail =~= access@);
                assert(b@.subrange(i4 as int, i4 + 8) =~= access@);
            } else {
                assert(tail =~= refresh@);
                assert(b@.subrange(i4 as int, i4 + 9) =~= refresh@);
            }
        }
    }
    if n - i4 == 8 && has_bytes(b, i4, access.as_slice()) {
        Some((iat, TokenType::Access))
    } else if n - i4 == 9 && has_bytes(b, i4, refresh.as_slice()) {
        Some((iat, TokenType::Refresh))
    } else {
        None
    }
}

impl Claims {
    /// Reads claims back from their JSON text. Succeeds exactly on the texts
    /// that `to_json` writes, and returns the claims that were written.
    pub fn from_json(b: &[u8]) -> (r: Option<Claims>)
        ensures
            r is Some ==> payload_json(r->0@) == b@,
            forall|c: ClaimsView| payload_json(c) == b@ ==> r is Some && r->0@ == c,
    {
        let ghost hit = exists|c: ClaimsView| payload_json(c) == b@;
        let ghost c0 = choose|c: ClaimsView| payload_json(c) == b@;
        let (sb, exp, i2) = match read_head(b) {
            Some(found) => found,
            None => {
                return None;
            },
        };
        let (iat, token_type) = match read_tail(b, i2) {
            Some(found) => found,
            None => {
                return None;
            },
        };
        proof {
            if hit {
                encode_utf8_valid_utf8(c0.sub);
                encode_utf8_decode_utf8(c0.sub);
            }
        }
        let sub = match utf8_text(sb) {
            Some(text) => text,
            None => {
                return None;
            },
        };
        let c = Claims { sub, exp, iat, token_type };
        let text = c.to_json();
        if !bytes_equal(text.as_slice(), b) {
            return None;
        }
        proof {
            assert forall|other: ClaimsView| payload_json(other) == b@ implies c@ == other by {
                lemma_payload_injective(c@, other);
            }
        }
        Some(c)
    }
}

} // verus!

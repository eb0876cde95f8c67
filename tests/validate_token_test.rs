use tyange_cms_api::claims::{Claims, TokenType};
use tyange_cms_api::codec::{get_user_id_from_token, is_fresh};
use tyange_cms_api::error::AuthError;
use tyange_cms_api::issuer::current_time;

const ACCESS: &[u8] = b"access-secret";
const REFRESH: &[u8] = b"refresh-secret";

#[test]
fn test_validate_token() {
    println!("test");
    println!("test1");

    let now = current_time().unwrap();
    let claims = Claims::new("test", TokenType::Access, now);
    let access_token = claims.to_token(ACCESS).unwrap();
    let result = Claims::validate_token(&access_token, ACCESS).unwrap();
    assert!(result);
}

#[test]
fn validate_token_at_fixed_times() {
    let token = Claims::issue("alice", TokenType::Access, ACCESS, 100).unwrap();
    assert_eq!(Claims::validate_token_at(&token, ACCESS, 999), Ok(true));
    assert_eq!(Claims::validate_token_at(&token, ACCESS, 1000), Ok(false));
    assert_eq!(
        Claims::validate_token_at(&token, REFRESH, 100),
        Err(AuthError::InvalidSignature)
    );
}

#[test]
fn validate_user_id_compares_subject() {
    let token = Claims::issue("alice", TokenType::Access, ACCESS, 100).unwrap();
    assert_eq!(Claims::validate_user_id("alice", &token, ACCESS), Ok(true));
    assert_eq!(Claims::validate_user_id("bob", &token, ACCESS), Ok(false));
    assert_eq!(get_user_id_from_token(&token, ACCESS).unwrap(), "alice");
    assert_eq!(get_user_id_from_token("x.y.z", ACCESS).unwrap_err(), AuthError::MalformedToken);
}

#[test]
fn round_trip_access_token() {
    for subject in ["alice", "", "a\"b\\c", "tab\there", "\u{1}ctl", "한글 사용자", "x,y::z"] {
        let token = Claims::issue(subject, TokenType::Access, ACCESS, 1_700_000_000).unwrap();
        let c = Claims::from_token(&token, ACCESS).unwrap();
        assert_eq!(c.sub, subject);
        assert_eq!(c.token_type, TokenType::Access);
        assert_eq!(c.iat, 1_700_000_000);
        assert_eq!(c.exp, 1_700_000_000 + 900);
    }
}

#[test]
fn round_trip_refresh_token() {
    let token = Claims::issue("bob", TokenType::Refresh, REFRESH, 42).unwrap();
    let c = Claims::from_token(&token, REFRESH).unwrap();
    assert_eq!(c.sub, "bob");
    assert_eq!(c.token_type, TokenType::Refresh);
    assert_eq!(c.exp, 42 + 604800);
}

#[test]
fn round_trip_largest_times() {
    let claims = Claims {
        sub: "max".to_string(),
        exp: u64::MAX,
        iat: u64::MAX - 1,
        token_type: TokenType::Refresh,
    };
    let token = claims.to_token(ACCESS).unwrap();
    let c = Claims::from_token(&token, ACCESS).unwrap();
    assert_eq!(c.exp, u64::MAX);
    assert_eq!(c.iat, u64::MAX - 1);
}

#[test]
fn decode_does_not_check_expiry() {
    let token = Claims::issue("old", TokenType::Access, ACCESS, 0).unwrap();
    let c = Claims::from_token(&token, ACCESS).unwrap();
    assert_eq!(c.sub, "old");
    assert!(!is_fresh(&c, 10_000));
}

#[test]
fn freshness_edges() {
    let now = 5000;
    let mut c = Claims::new("alice", TokenType::Access, 0);
    c.exp = now - 1;
    assert!(!is_fresh(&c, now));
    c.exp = now;
    assert!(!is_fresh(&c, now));
    c.exp = now + 1;
    assert!(is_fresh(&c, now));
}

fn flip_bit(token: &str, index: usize, bit: u8) -> String {
    let mut bytes = token.as_bytes().to_vec();
    bytes[index] ^= 1 << bit;
    String::from_utf8(bytes).unwrap()
}

#[test]
fn tampering_with_payload_or_tag_is_rejected() {
    let token = Claims::issue("alice", TokenType::Access, ACCESS, 1_700_000_000).unwrap();
    let first = token.find('.').unwrap();
    for index in first + 1..token.len() {
        if token.as_bytes()[index] == b'.' {
            continue;
        }
        for bit in 0..7 {
            let forged = flip_bit(&token, index, bit);
            let r = Claims::from_token(&forged, ACCESS);
            assert!(
                matches!(r, Err(AuthError::InvalidSignature) | Err(AuthError::MalformedToken)),
                "index {} bit {}",
                index,
                bit
            );
        }
    }
}

#[test]
fn tampered_tag_is_invalid_signature() {
    let token = Claims::issue("alice", TokenType::Access, ACCESS, 1_700_000_000).unwrap();
    let mut forged = token.clone();
    let last = forged.pop().unwrap();
    forged.push(if last == 'A' { 'B' } else { 'A' });
    assert_eq!(Claims::from_token(&forged, ACCESS).unwrap_err(), AuthError::InvalidSignature);
}

#[test]
fn cross_secret_rejection() {
    let access = Claims::issue("alice", TokenType::Access, ACCESS, 1_700_000_000).unwrap();
    let refresh = Claims::issue("alice", TokenType::Refresh, REFRESH, 1_700_000_000).unwrap();
    assert_eq!(Claims::from_token(&access, REFRESH).unwrap_err(), AuthError::InvalidSignature);
    assert_eq!(Claims::from_token(&refresh, ACCESS).unwrap_err(), AuthError::InvalidSignature);
}

#[test]
fn malformed_tokens() {
    assert_eq!(Claims::from_token("", ACCESS).unwrap_err(), AuthError::MalformedToken);
    assert_eq!(Claims::from_token("a.b", ACCESS).unwrap_err(), AuthError::MalformedToken);
    assert_eq!(Claims::from_token("a.b.c.d", ACCESS).unwrap_err(), AuthError::MalformedToken);
    assert_eq!(Claims::from_token("é.b.c", ACCESS).unwrap_err(), AuthError::MalformedToken);
    let token = Claims::issue("alice", TokenType::Access, ACCESS, 7).unwrap();
    let rest = &token[token.find('.').unwrap()..];
    let other_header = format!("eyJhbGciOiJIUzI1NiJ9{}", rest);
    assert_eq!(Claims::from_token(&other_header, ACCESS).unwrap_err(), AuthError::MalformedToken);
}

#[test]
fn empty_secret_cannot_verify() {
    let token = Claims::issue("alice", TokenType::Access, ACCESS, 7).unwrap();
    assert_eq!(Claims::from_token(&token, b"").unwrap_err(), AuthError::ConfigurationError);
}

use tyange_cms_api::claims::{Claims, TokenType};
use tyange_cms_api::error::AuthError;
use tyange_cms_api::guard::Auth;
use tyange_cms_api::ownership::{authorize, OwnerLookup};

const ACCESS: &[u8] = b"access-secret";
const REFRESH: &[u8] = b"refresh-secret";

#[test]
fn missing_credential() {
    let auth = Auth::new(ACCESS.to_vec());
    assert_eq!(auth.authenticate(None, 0).unwrap_err(), AuthError::MissingCredential);
}

#[test]
fn fresh_token_is_admitted_with_its_subject() {
    let auth = Auth::new(ACCESS.to_vec());
    let token = Claims::issue("alice", TokenType::Access, ACCESS, 1000).unwrap();
    assert_eq!(auth.authenticate(Some(&token), 1000).unwrap(), "alice");
    assert_eq!(auth.authenticate(Some(&token), 1899).unwrap(), "alice");
    assert_eq!(auth.authenticate(Some(&token), 1900).unwrap_err(), AuthError::Expired);
}

#[test]
fn guard_passes_on_decode_errors() {
    let auth = Auth::new(ACCESS.to_vec());
    let refresh = Claims::issue("alice", TokenType::Refresh, REFRESH, 1000).unwrap();
    assert_eq!(auth.authenticate(Some(&refresh), 1000).unwrap_err(), AuthError::InvalidSignature);
    assert_eq!(auth.authenticate(Some("garbage"), 1000).unwrap_err(), AuthError::MalformedToken);
    let unconfigured = Auth::new(Vec::new());
    let token = Claims::issue("alice", TokenType::Access, ACCESS, 1000).unwrap();
    assert_eq!(
        unconfigured.authenticate(Some(&token), 1000).unwrap_err(),
        AuthError::ConfigurationError
    );
}

#[test]
fn guarded_endpoint() {
    let auth = Auth::new(ACCESS.to_vec());
    let guarded = auth.transform(7u32);
    assert_eq!(*guarded.endpoint(), 7);
    let token = Claims::issue("carol", TokenType::Access, ACCESS, 50).unwrap();
    assert_eq!(guarded.call(Some(&token), 60).unwrap(), "carol");
    assert_eq!(guarded.call(None, 60).unwrap_err(), AuthError::MissingCredential);
}

#[test]
fn ownership_decision() {
    let lookup_p1 = OwnerLookup::Found("alice".to_string());
    assert_eq!(authorize("alice", &lookup_p1), Ok(true));
    assert_eq!(authorize("bob", &lookup_p1), Ok(false));
    assert_eq!(authorize("Alice", &lookup_p1), Ok(false));
    assert_eq!(authorize("anyone", &OwnerLookup::NotFound), Err(AuthError::ResourceNotFound));
    assert_eq!(authorize("alice", &OwnerLookup::Failed), Err(AuthError::PersistenceError));
}

#[test]
fn end_to_end_scenario() {
    let auth = Auth::new(ACCESS.to_vec());
    let issued_at = 1_700_000_000;
    let token = Claims::issue("alice", TokenType::Access, ACCESS, issued_at).unwrap();
    let subject = auth.authenticate(Some(&token), issued_at).unwrap();
    assert_eq!(subject, "alice");
    assert_eq!(
        auth.authenticate(Some(&token), issued_at + 16 * 60).unwrap_err(),
        AuthError::Expired
    );
    let owned_by_bob = OwnerLookup::Found("bob".to_string());
    assert_eq!(authorize(&subject, &owned_by_bob), Ok(false));
}

#[test]
fn status_codes() {
    assert_eq!(AuthError::MissingCredential.status_code(), 401);
    assert_eq!(AuthError::MalformedToken.status_code(), 401);
    assert_eq!(AuthError::InvalidSignature.status_code(), 401);
    assert_eq!(AuthError::Expired.status_code(), 401);
    assert_eq!(AuthError::ConfigurationError.status_code(), 500);
    assert_eq!(AuthError::PersistenceError.status_code(), 500);
    assert_eq!(AuthError::ResourceNotFound.status_code(), 404);
}

use tyange_cms_api::claims::{Claims, TokenType};
use tyange_cms_api::error::AuthError;
use tyange_cms_api::login::{check_password, login, mint_tokens, LoginError, TokenSecrets, UserRecord};

fn secrets() -> TokenSecrets {
    TokenSecrets { access: b"access-secret".to_vec(), refresh: b"refresh-secret".to_vec() }
}

fn user(password: &str) -> UserRecord {
    UserRecord {
        user_id: "alice".to_string(),
        password_hash: bcrypt::hash(password, 4).unwrap(),
    }
}

#[test]
fn unknown_user() {
    assert_eq!(check_password(None, "pw").unwrap_err(), LoginError::UnknownUser);
    assert!(matches!(login(None, "pw", &secrets()), Err(LoginError::UnknownUser)));
}

#[test]
fn wrong_password() {
    assert_eq!(check_password(Some(user("right")), "wrong").unwrap_err(), LoginError::WrongPassword);
    let broken = UserRecord { user_id: "alice".to_string(), password_hash: "not a hash".to_string() };
    assert_eq!(check_password(Some(broken), "right").unwrap_err(), LoginError::WrongPassword);
}

#[test]
fn right_password_mints_both_tokens() {
    assert_eq!(check_password(Some(user("right")), "right").unwrap(), "alice");
    let s = secrets();
    let response = login(Some(user("right")), "right", &s).ok().unwrap();
    let access = Claims::from_token(&response.access_token, &s.access).unwrap();
    assert_eq!(access.sub, "alice");
    assert_eq!(access.token_type, TokenType::Access);
    assert_eq!(access.exp - access.iat, 900);
    let refresh = Claims::from_token(&response.refresh_token, &s.refresh).unwrap();
    assert_eq!(refresh.token_type, TokenType::Refresh);
    assert_eq!(refresh.exp - refresh.iat, 604800);
}

#[test]
fn minting_needs_both_secrets() {
    let missing = TokenSecrets { access: b"a".to_vec(), refresh: Vec::new() };
    assert!(matches!(
        mint_tokens("alice", &missing, 10),
        Err(LoginError::Token(AuthError::ConfigurationError))
    ));
    let ok = mint_tokens("alice", &secrets(), 10).ok().unwrap();
    assert_eq!(Claims::from_token(&ok.access_token, b"access-secret").unwrap().iat, 10);
}

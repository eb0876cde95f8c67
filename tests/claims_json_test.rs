use tyange_cms_api::claims::{Claims, TokenType};

fn claims(sub: &str, exp: u64, iat: u64, token_type: TokenType) -> Claims {
    Claims { sub: sub.to_string(), exp, iat, token_type }
}

#[test]
fn json_text_is_exact() {
    let c = claims("alice", 1000900, 1000000, TokenType::Access);
    assert_eq!(
        String::from_utf8(c.to_json()).unwrap(),
        r#"{"sub":"alice","exp":1000900,"iat":1000000,"token_type":"access"}"#
    );
    let r = claims("bob", 0, 9, TokenType::Refresh);
    assert_eq!(
        String::from_utf8(r.to_json()).unwrap(),
        r#"{"sub":"bob","exp":0,"iat":9,"token_type":"refresh"}"#
    );
}

#[test]
fn json_escapes_subject() {
    let c = claims("q\"b\\\n\u{1f}é", 1, 0, TokenType::Access);
    assert_eq!(
        String::from_utf8(c.to_json()).unwrap(),
        "{\"sub\":\"q\\\"b\\\\\\n\\u001fé\",\"exp\":1,\"iat\":0,\"token_type\":\"access\"}"
    );
}

#[test]
fn json_round_trip() {
    for sub in ["", "alice", "a\"b", "\\", "\u{0}\u{7f}", "日本"] {
        let c = claims(sub, 12345, 12, TokenType::Refresh);
        let back = Claims::from_json(&c.to_json()).unwrap();
        assert_eq!(back.sub, sub);
        assert_eq!(back.exp, 12345);
        assert_eq!(back.iat, 12);
        assert_eq!(back.token_type, TokenType::Refresh);
    }
}

#[test]
fn json_rejects_other_texts() {
    let rejected = [
        r#"{"sub":"a","exp":01,"iat":0,"token_type":"access"}"#,
        r#"{"sub":"a", "exp":1,"iat":0,"token_type":"access"}"#,
        r#"{"sub":"a","exp":1,"iat":0,"token_type":"other"}"#,
        r#"{"sub":"a","exp":1,"iat":0,"token_type":"access"} "#,
        r#"{"sub":"a","exp":18446744073709551616,"iat":0,"token_type":"access"}"#,
        r#"{"sub":"a","exp":,"iat":0,"token_type":"access"}"#,
        r#"{"sub":"\u0041","exp":1,"iat":0,"token_type":"access"}"#,
        r#"{"exp":1,"sub":"a","iat":0,"token_type":"access"}"#,
        "",
    ];
    for text in rejected {
        assert!(Claims::from_json(text.as_bytes()).is_none(), "{}", text);
    }
    assert!(Claims::from_json(
        r#"{"sub":"a","exp":18446744073709551615,"iat":0,"token_type":"access"}"#.as_bytes()
    )
    .is_some());
}

#[test]
fn subject_escapes_match_serde_json() {
    for code in 0u32..128 {
        let sub: String = [char::from_u32(code).unwrap(), 'x', '\u{e9}'].iter().collect();
        let c = claims(&sub, 1, 0, TokenType::Access);
        let text = String::from_utf8(c.to_json()).unwrap();
        let expected = format!(
            "{{\"sub\":{},\"exp\":1,\"iat\":0,\"token_type\":\"access\"}}",
            serde_json::to_string(&sub).unwrap()
        );
        assert_eq!(text, expected, "code {}", code);
        let back = Claims::from_json(text.as_bytes()).unwrap();
        assert_eq!(back.sub, sub);
    }
}

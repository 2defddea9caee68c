use familiar::ids::TenantId;
use familiar::primitives::{
    ApiKey, DbPoolSize, Email, EmailError, InviteCode, MaxTokens, PasswordHash, QuantizedCoord, SessionToken, TokenUsage,
    INVITE_CODE_LENGTH,
};
use familiar::wrappers::{TestEmail, TestPassword, TestUserId};

#[test]
fn test_tenant_id_roundtrip() {
    let id = TenantId::new();
    let s = id.to_string();
    let parsed = TenantId::parse(&s).unwrap();
    assert_eq!(id, parsed);
}

#[test]
fn test_email_validation() {
    assert!(Email::new("user@example.com").is_ok());
    assert!(Email::new("").is_err());
    assert!(Email::new("noat").is_err());
    assert!(Email::new("user@nodot").is_err());
}

#[test]
fn test_invite_code() {
    let code = InviteCode::generate();
    assert_eq!(code.as_str().len(), INVITE_CODE_LENGTH);
    assert!(InviteCode::parse(code.as_str()).is_some());
}

#[test]
fn test_session_token_hash() {
    let token = SessionToken::generate();
    let hash = token.hash();
    assert!(token.matches_hash(&hash));
}

#[test]
fn test_uuid_id() {
    let id = TestUserId::new();
    assert!(!id.to_string().is_empty());
    let parsed = TestUserId::parse(&id.to_string()).unwrap();
    assert_eq!(id, parsed);
}

#[test]
fn test_validated_string() {
    let email = TestEmail::new("test@example.com").unwrap();
    assert_eq!(email.as_str(), "test@example.com");
    let invalid = TestEmail::new("invalid");
    assert!(invalid.is_err());
}

#[test]
fn test_string_wrapper() {
    let password = TestPassword::new("secret123");
    assert_eq!(password.as_str(), "secret123");
}

#[test]
fn invalid_test_email_message() {
    assert_eq!(TestEmail::new("nope").unwrap_err(), "Invalid TestEmail: 'nope'");
}

#[test]
fn empty_email_error() {
    assert!(matches!(Email::new(""), Err(EmailError::Empty)));
}

#[test]
fn session_token_hash_is_sha256_hex() {
    let token = SessionToken::from_string("abc");
    assert_eq!(token.hash(), "ba7816bf8f01cfea414140de5dae2223b00361a396177a9cb410ff61f20015ad");
    assert!(!token.matches_hash("ba7816bf"));
}

#[test]
fn invite_code_normalises() {
    let code = InviteCode::parse("  abcdefgh ");
    assert!(code.is_some());
    assert_eq!(code.unwrap().as_str(), "ABCDEFGH");
    assert!(InviteCode::parse("short").is_none());
}

#[test]
fn token_usage_totals() {
    let u = TokenUsage::new(10, 32);
    assert_eq!(u.total_tokens, 42);
}

#[test]
fn api_key_rules() {
    assert!(ApiKey::new(String::new()).is_err());
    assert!(ApiKey::new("short".to_string()).is_err());
    assert!(ApiKey::new("0123456789".to_string()).is_ok());
}

#[test]
fn quantized_and_pool() {
    assert_eq!(QuantizedCoord::new(5).value(), 5);
    assert_eq!(QuantizedCoord::zero().value(), 0);
    assert!(DbPoolSize::new(0).is_err());
    assert!(DbPoolSize::new(101).is_err());
    assert_eq!(DbPoolSize::new(5).unwrap().value(), 5);
    assert_eq!(MaxTokens::new(7).value(), 7);
}

#[test]
fn password_hash_verifies_its_own_password() {
    let hash = PasswordHash::hash("hunter42").unwrap();
    assert!(hash.to_string_for_storage().starts_with("$argon2id$"));
    assert!(hash.verify("hunter42"));
    assert!(!hash.verify("hunter43"));
    assert!(!PasswordHash::from_hash("not a phc string").verify("hunter42"));
}

#[test]
fn fresh_ids_are_random_uuids() {
    for _ in 0..16 {
        let v = TenantId::new().as_u128();
        assert_eq!((v >> 76) & 0xf, 4);
        assert_eq!((v >> 62) & 0x3, 2);
        let text = TenantId::new().to_string();
        assert_eq!(text.as_bytes()[14], b'4');
    }
}

#[test]
fn email_parts_rebuild_the_address() {
    let e = Email::new("User@Example.com").unwrap();
    assert_eq!(e.domain(), "example.com");
    assert_eq!(e.local_part(), "user");
    assert_eq!(format!("{}@{}", e.local_part(), e.domain()), e.as_str());
}

#[test]
fn non_ascii_email_parts_rebuild_the_address() {
    let e = Email::new("ÉLODIE@Exämple.ORG").unwrap();
    assert_eq!(e.as_str(), "élodie@exämple.org");
    assert_eq!(e.local_part(), "élodie");
    assert_eq!(e.domain(), "exämple.org");
    assert_eq!(format!("{}@{}", e.local_part(), e.domain()), e.as_str());
}

#[test]
fn invite_codes_match_their_own_text() {
    let c = InviteCode::parse("  abcd2345 ").unwrap();
    assert_eq!(c.as_str(), "ABCD2345");
    assert!(c.matches("  abcd2345 "));
    let g = InviteCode::generate();
    assert!(g.matches(g.as_str()));
}

#[test]
fn id_text_is_hyphenated_lowercase_hex() {
    let id = TenantId::from_u128(0x0123456789ABCDEF0123456789ABCDEF);
    assert_eq!(id.to_string(), "01234567-89ab-cdef-0123-456789abcdef");
    assert_eq!(TenantId::parse("01234567-89AB-CDEF-0123-456789ABCDEF").unwrap(), id);
}

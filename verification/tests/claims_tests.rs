use paseto_tokens::Claims;

fn sample() -> Claims {
    Claims::new_at(
        "u1".to_string(),
        5,
        "Ann".to_string(),
        "c1".to_string(),
        "Acme".to_string(),
        3600,
        1_700_000_000,
    )
}

#[test]
fn canonical_text_without_scope() {
    let c = sample();
    assert_eq!(
        c.to_json_string(),
        "{\"user_id\":\"u1\",\"level\":5,\"user_name\":\"Ann\",\"company_id\":\"c1\",\
         \"company_name\":\"Acme\",\"exp\":1700003600,\"iat\":1700000000}"
    );
}

#[test]
fn canonical_text_with_scope_and_escapes() {
    let c = Claims::new_at(
        "a\"b".to_string(),
        -12,
        "c\\d".to_string(),
        "e".to_string(),
        "f".to_string(),
        1,
        -3,
    )
    .with_scope("read:all".to_string());
    assert_eq!(
        c.to_json_string(),
        "{\"user_id\":\"a\\\"b\",\"level\":-12,\"user_name\":\"c\\\\d\",\"company_id\":\"e\",\
         \"company_name\":\"f\",\"exp\":-2,\"iat\":-3,\"scope\":\"read:all\"}"
    );
}

#[test]
fn json_round_trip() {
    let c = sample().with_scope("s1 s2".to_string());
    let text = c.to_json_string();
    let back = Claims::from_json_string(&text);
    assert_eq!(back.user_id, "u1");
    assert_eq!(back.level, 5);
    assert_eq!(back.user_name, "Ann");
    assert_eq!(back.company_id, "c1");
    assert_eq!(back.company_name, "Acme");
    assert_eq!(back.exp, 1_700_003_600);
    assert_eq!(back.iat, 1_700_000_000);
    assert_eq!(back.scope.as_deref(), Some("s1 s2"));
}

#[test]
fn malformed_text_gives_default() {
    let back = Claims::from_json_string("not json at all");
    assert_eq!(back.user_id, "");
    assert_eq!(back.level, 0);
    assert_eq!(back.user_name, "");
    assert_eq!(back.company_id, "");
    assert_eq!(back.company_name, "");
    assert_eq!(back.exp, 0);
    assert_eq!(back.iat, 0);
    assert!(back.scope.is_none());
    let back = Claims::from_json_string("");
    assert_eq!(back.exp, 0);
    // Trailing garbage is rejected as a whole, not partially read.
    let mut text = sample().to_json_string();
    text.push(' ');
    assert_eq!(Claims::from_json_string(&text).user_id, "");
}

#[test]
fn builders_return_updated_copies() {
    let c = sample()
        .with_user_name("Bea".to_string())
        .with_compnay_id("c2".to_string())
        .with_compnay_name("Apex".to_string())
        .with_scope("admin".to_string());
    assert_eq!(c.user_id, "u1");
    assert_eq!(c.user_name, "Bea");
    assert_eq!(c.company_id, "c2");
    assert_eq!(c.company_name, "Apex");
    assert_eq!(c.scope.as_deref(), Some("admin"));
}

#[test]
fn expiry_boundary_exclusive_on_exp_inclusive_on_iat() {
    let now: i64 = 1_700_000_000;
    // exp == now: already invalid.
    let c = Claims::new_at(
        "u".to_string(), 0, "n".to_string(), "c".to_string(), "cn".to_string(), 0, now,
    );
    assert_eq!(c.exp, now);
    assert!(!c.is_valid_at(now));
    // exp == now + 1: still valid.
    let c = Claims::new_at(
        "u".to_string(), 0, "n".to_string(), "c".to_string(), "cn".to_string(), 1, now,
    );
    assert_eq!(c.exp, now + 1);
    assert!(c.is_valid_at(now));
    // iat is inclusive: valid at the very moment of issuance, not before.
    assert!(!c.is_valid_at(now - 1));
}

#[test]
fn ttl_saturates_instead_of_wrapping() {
    let c = Claims::new_at(
        "u".to_string(), 0, "n".to_string(), "c".to_string(), "cn".to_string(),
        u64::MAX, 10,
    );
    assert_eq!(c.iat, 10);
    assert_eq!(c.exp, i64::MAX);
}

#[test]
fn empty_window_never_valid() {
    let c = Claims::new_at(
        "u".to_string(), 0, "n".to_string(), "c".to_string(), "cn".to_string(), 0,
        1_700_000_000,
    );
    assert!(!c.is_valid());
}

#[test]
fn extreme_timestamps_round_trip() {
    let c = Claims::new_at(
        "u".to_string(),
        i32::MIN,
        "n".to_string(),
        "c".to_string(),
        "cn".to_string(),
        0,
        i64::MIN,
    );
    let text = c.to_json_string();
    let back = Claims::from_json_string(&text);
    assert_eq!(back.iat, i64::MIN);
    assert_eq!(back.exp, i64::MIN);
    assert_eq!(back.level, i32::MIN);
}

use entity_repo::v2::validate_email;

#[test]
fn test_validate_email() {
    assert!(validate_email("test@example.com"));
    assert!(!validate_email("invalid"));
}

#[test]
fn validate_email_needs_both_at_sign_and_dot() {
    assert!(validate_email("a@b.com"));
    assert!(!validate_email("nope"));
    assert!(!validate_email("a@b"));
    assert!(!validate_email("a.b"));
    assert!(!validate_email(""));
    assert!(validate_email(".@"));
}

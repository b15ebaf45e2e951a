use warhorse::protocol::Language;
use warhorse::validation::{
    is_valid_email, validate_account_name, validate_display_name, validate_password,
};

#[test]
fn test_valid_emails() {
    assert!(is_valid_email(&"test@example.com".to_string()));
    assert!(is_valid_email(&"user.name+tag@example.com".to_string()));
    assert!(is_valid_email(&"user_name@example.co.uk".to_string()));
    assert!(is_valid_email(&"test.email-with-dash@example.com".to_string()));
    assert!(is_valid_email(&"a@b.com".to_string()));
}

#[test]
fn test_invalid_emails() {
    assert!(!is_valid_email(&"@example.com".to_string()));
    assert!(!is_valid_email(&"test@".to_string()));
    assert!(!is_valid_email(&"test".to_string()));
    assert!(!is_valid_email(&"test@.com".to_string()));
    assert!(!is_valid_email(&"test@com.".to_string()));
    assert!(!is_valid_email(&"test space@example.com".to_string()));
    assert!(!is_valid_email(&"".to_string()));
    assert!(!is_valid_email(&"test@example..com".to_string()));

    // Test email length > 254 characters
    let long_email = format!("{}@example.com", "a".repeat(250));
    assert!(!is_valid_email(&long_email));
}

#[test]
fn email_shapes_at_the_boundary() {
    // a@b.c is accepted; missing local part or domain is not
    assert!(is_valid_email(&"a@b.c".to_string()));
    assert!(!is_valid_email(&"@b.c".to_string()));
    assert!(!is_valid_email(&"a@".to_string()));
    // a 255-byte local part pushes the address over the length cap
    let long_local = format!("{}@b.c", "a".repeat(255));
    assert!(!is_valid_email(&long_local));
    // 254 bytes in total is still accepted
    let just_fits = format!("{}@b.c", "a".repeat(250));
    assert_eq!(just_fits.len(), 254);
    assert!(is_valid_email(&just_fits));
    // labels may not start or end with a hyphen
    assert!(!is_valid_email(&"a@-b.c".to_string()));
    assert!(!is_valid_email(&"a@b-.c".to_string()));
    assert!(is_valid_email(&"a@b-b.c".to_string()));
    // a label longer than 63 bytes is rejected
    let long_label = format!("a@{}.c", "b".repeat(64));
    assert!(!is_valid_email(&long_label));
}

#[test]
fn account_name_length_boundaries() {
    // lengths 2, 3, 20, 21: reject, accept, accept, reject
    assert!(validate_account_name(&"ab".to_string(), Language::English).is_err());
    assert!(validate_account_name(&"abc".to_string(), Language::English).is_ok());
    assert!(validate_account_name(&"a".repeat(20), Language::English).is_ok());
    assert!(validate_account_name(&"a".repeat(21), Language::English).is_err());
}

#[test]
fn display_name_length_boundaries() {
    assert!(validate_display_name(&"ab".to_string(), Language::English).is_err());
    assert!(validate_display_name(&"abc".to_string(), Language::English).is_ok());
    assert!(validate_display_name(&"a".repeat(20), Language::English).is_ok());
    assert!(validate_display_name(&"a".repeat(21), Language::English).is_err());
}

#[test]
fn password_length_boundaries() {
    // lengths 7 and 8: reject, accept
    assert!(validate_password(&"a".repeat(7), Language::English).is_err());
    assert!(validate_password(&"a".repeat(8), Language::English).is_ok());
}

#[test]
fn validation_errors_are_localized() {
    let e = validate_password(&"short".to_string(), Language::English).unwrap_err();
    assert_eq!(e.0, "Passwords must be at least 8 characters long");
    let e = validate_password(&"corta".to_string(), Language::Spanish).unwrap_err();
    assert_eq!(e.0, "Las contraseñas deben tener al menos 8 caracteres");
    let e = validate_account_name(&"ab".to_string(), Language::French).unwrap_err();
    assert_eq!(e.0, "Les noms de compte doivent comporter entre 3 et 20 caractères");
    let e = validate_display_name(&"ab".to_string(), Language::English).unwrap_err();
    assert_eq!(e.0, "Display names must be between 3 and 20 characters long");
}

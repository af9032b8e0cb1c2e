use totpkeep::totp::{format_code, totp};

#[test]
fn format_code_pads_with_zeroes() {
    assert_eq!(format_code(7), vec!['0', '0', '0', '0', '0', '7']);
    assert_eq!(format_code(0), vec!['0', '0', '0', '0', '0', '0']);
    assert_eq!(format_code(999999), vec!['9', '9', '9', '9', '9', '9']);
    assert_eq!(format_code(287082), vec!['2', '8', '7', '0', '8', '2']);
}

#[test]
fn known_rfc_vectors() {
    // HOTP test secret from RFC 4226; with a thirty-second step the counter
    // at these times is 0 and 1.
    let secret = b"12345678901234567890";
    assert_eq!(totp(secret, 0), "755224");
    assert_eq!(totp(secret, 29), "755224");
    assert_eq!(totp(secret, 30), "287082");
    assert_eq!(totp(secret, 59), "287082");
}

#[test]
fn code_changes_with_secret() {
    assert_ne!(totp(b"12345678901234567890", 0), totp(b"99945678901234567890", 0));
}

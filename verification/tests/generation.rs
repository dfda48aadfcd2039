//! Tests of the deterministic password generation pipeline.

use saltpass::crypto::{Algorithm, PasswordGenerator};

#[test]
fn test_deterministic_generation() {
    let salt = "my-secret-salt";
    let feature = "github.com";

    let pwd1 = PasswordGenerator::generate(salt, feature, 16);
    let pwd2 = PasswordGenerator::generate(salt, feature, 16);

    assert_eq!(pwd1, pwd2, "Same inputs should produce same password");
}

#[test]
fn test_different_features() {
    let salt = "my-secret-salt";

    let pwd1 = PasswordGenerator::generate(salt, "github.com", 16);
    let pwd2 = PasswordGenerator::generate(salt, "google.com", 16);

    assert_ne!(
        pwd1, pwd2,
        "Different features should produce different passwords"
    );
}

#[test]
fn test_different_salts() {
    let feature = "github.com";

    let pwd1 = PasswordGenerator::generate("salt1", feature, 16);
    let pwd2 = PasswordGenerator::generate("salt2", feature, 16);

    assert_ne!(
        pwd1, pwd2,
        "Different salts should produce different passwords"
    );
}

#[test]
fn test_concrete_scenario() {
    let pwd = PasswordGenerator::generate_with_algo(
        "my-secret-salt",
        "github.com",
        16,
        Algorithm::HmacSha256,
    );
    assert_eq!(pwd.chars().count(), 16);
    assert!(pwd.chars().any(|c| c.is_ascii_uppercase()));
    assert!(pwd.chars().any(|c| c.is_ascii_digit()));
    assert!(pwd.chars().any(|c| "!@#$%^&*".contains(c)));

    let again = PasswordGenerator::generate_with_algo(
        "my-secret-salt",
        "github.com",
        16,
        Algorithm::HmacSha256,
    );
    assert_eq!(pwd, again);

    let other_feature = PasswordGenerator::generate_with_algo(
        "my-secret-salt",
        "google.com",
        16,
        Algorithm::HmacSha256,
    );
    assert_ne!(pwd, other_feature);

    let other_salt =
        PasswordGenerator::generate_with_algo("salt2", "github.com", 16, Algorithm::HmacSha256);
    assert_ne!(pwd, other_salt);
}

#[test]
fn test_known_hmac_password() {
    let pwd = PasswordGenerator::generate("my-secret-salt", "github.com", 16);
    assert_eq!(pwd, "jx1l2Hc4Z2TNSZ&Q");
}

#[test]
fn test_known_pbkdf2_password() {
    let pwd = PasswordGenerator::generate_with_algo(
        "my-secret-salt",
        "github.com",
        16,
        Algorithm::Pbkdf2,
    );
    assert_eq!(pwd, "ds!SdzT5zRNJXtel");
}

#[test]
fn test_pbkdf2_differs_from_hmac() {
    let a = PasswordGenerator::generate_with_algo("salty-enough", "site", 20, Algorithm::HmacSha256);
    let b = PasswordGenerator::generate_with_algo("salty-enough", "site", 20, Algorithm::Pbkdf2);
    assert_ne!(a, b);
}

#[test]
fn test_length_clamping() {
    // Too-small requests are raised to 12.
    let short = PasswordGenerator::generate("some-salt", "svc", 5);
    assert_eq!(short.chars().count(), 12);
    // 32 key bytes give 44 base64 characters, so that caps the length.
    let long = PasswordGenerator::generate("some-salt", "svc", 64);
    assert_eq!(long.chars().count(), 44);
    let max_exact = PasswordGenerator::generate("some-salt", "svc", 44);
    assert_eq!(max_exact.chars().count(), 44);
    let mid = PasswordGenerator::generate("some-salt", "svc", 30);
    assert_eq!(mid.chars().count(), 30);
}

#[test]
fn test_format_password_passthrough() {
    // Enough mappable characters, all three classes present: the stream maps
    // straight through ('+' at index 6 becomes '&').
    let out = PasswordGenerator::format_password("ABCdef+12", 12);
    assert_eq!(out, "ABCdef&12");
}

#[test]
fn test_format_password_fixups() {
    // No uppercase, digit or symbol in the stream: position 0 is raised,
    // position 1 gets the emitted count mod 10, position 2 gets '!'.
    let out = PasswordGenerator::format_password("abcdef", 12);
    assert_eq!(out, "A6!def");
}

#[test]
fn test_format_password_drops_unmapped() {
    // '?' and '.' are dropped without consuming an output slot.
    let out = PasswordGenerator::format_password("?a.b", 12);
    // Emitted "ab"; fixes: "Ab" then position 1 := '2'.
    assert_eq!(out, "A2");
}

#[test]
fn test_format_password_digit_fix_can_erase_symbol() {
    // The '+' at index 1 maps to '@'; the digit fix then overwrites position
    // 1, so the only symbol is lost. This preserved quirk of the fix-up
    // order is deliberate: existing passwords depend on it.
    let out = PasswordGenerator::format_password("a+a", 12);
    assert_eq!(out, "A3a");
}

#[test]
fn test_format_password_truncates_to_length() {
    // Thirteen uppercase letters are emitted before the cap, then the digit
    // and symbol fixes overwrite positions 1 and 2.
    let out = PasswordGenerator::format_password("ABCDEFGHIJKLMNOPQRSTUVWXYZabcdef0123", 13);
    assert_eq!(out, "A3!DEFGHIJKLM");
}

#[test]
fn test_map_special() {
    // '+' selects by the emitted count directly; '/' and '=' shift by one
    // and two places.
    assert_eq!(PasswordGenerator::map_special('+', 0), '!');
    assert_eq!(PasswordGenerator::map_special('/', 0), '@');
    assert_eq!(PasswordGenerator::map_special('=', 0), '#');
    assert_eq!(PasswordGenerator::map_special('+', 7), '*');
    assert_eq!(PasswordGenerator::map_special('/', 7), '!');
    assert_eq!(PasswordGenerator::map_special('=', 14), '!');
}

#[test]
fn test_algorithm_names() {
    assert_eq!(Algorithm::HmacSha256.name(), "HMAC-SHA256");
    assert_eq!(Algorithm::Argon2i.name(), "Argon2i");
    assert_eq!(Algorithm::Argon2id.name(), "Argon2id");
    assert_eq!(Algorithm::Pbkdf2.name(), "PBKDF2");
    assert_eq!(Algorithm::Scrypt.name(), "Scrypt");
}

#[test]
fn test_algorithm_all() {
    let all = Algorithm::all();
    assert_eq!(all.len(), 5);
    assert_eq!(all[0], Algorithm::HmacSha256);
    assert_eq!(all[4], Algorithm::Scrypt);
}

use sha2::Digest;
use toolbox::hasher::{hash_text, HashError};
use toolbox::password::{build_charset, calculate_strength, generate_password, PasswordError};

#[test]
fn sha256_matches_reference() {
    let expected = hex::encode(sha2::Sha256::digest("hello world".as_bytes()));
    assert_eq!(hash_text("hello world", "sha256").as_deref(), Ok(expected.as_str()));
}

#[test]
fn sha512_matches_reference() {
    let expected = hex::encode(sha2::Sha512::digest("hello world".as_bytes()));
    assert_eq!(hash_text("hello world", "sha512").as_deref(), Ok(expected.as_str()));
}

#[test]
fn md5_matches_reference() {
    let expected = format!("{:x}", md5::compute("hello world".as_bytes()));
    assert_eq!(hash_text("hello world", "md5").as_deref(), Ok(expected.as_str()));
}

#[test]
fn blake3_matches_reference() {
    let expected = blake3::hash("hello world".as_bytes()).to_string();
    assert_eq!(hash_text("hello world", "blake3").as_deref(), Ok(expected.as_str()));
}

#[test]
fn algorithm_name_is_case_insensitive() {
    assert_eq!(hash_text("abc", "SHA256"), hash_text("abc", "sha256"));
    assert_eq!(hash_text("abc", "Md5"), hash_text("abc", "md5"));
}

#[test]
fn unknown_algorithm_is_refused() {
    assert_eq!(hash_text("abc", "crc32"), Err(HashError::UnsupportedAlgorithm));
}

#[test]
fn known_sha256_value() {
    assert_eq!(
        hash_text("abc", "sha256").as_deref(),
        Ok("ba7816bf8f01cfea414140de5dae2223b00361a396177a9cb410ff61f20015ad"),
    );
}

#[test]
fn password_has_asked_length_and_charset() {
    let p = generate_password(16, false).unwrap();
    assert_eq!(p.chars().count(), 16);
    let charset = build_charset(false);
    assert!(p.chars().all(|c| charset.contains(c)));

    let q = generate_password(24, true).unwrap();
    assert_eq!(q.chars().count(), 24);
    let full = build_charset(true);
    assert!(q.chars().all(|c| full.contains(c)));
}

#[test]
fn short_password_request_is_refused() {
    assert_eq!(generate_password(3, true), Err(PasswordError::TooShort));
    assert!(generate_password(4, false).is_ok());
}

#[test]
fn charset_grows_with_symbols() {
    let base = build_charset(false);
    let full = build_charset(true);
    assert_eq!(base.len(), 62);
    assert!(full.starts_with(&base));
    assert!(full.contains('!') && !base.contains('!'));
}

#[test]
fn strength_thresholds() {
    assert_eq!(calculate_strength(20, false), "Very Strong");
    assert_eq!(calculate_strength(10, true), "Very Strong");
    assert_eq!(calculate_strength(15, false), "Strong");
    assert_eq!(calculate_strength(5, true), "Strong");
    assert_eq!(calculate_strength(10, false), "Medium");
    assert_eq!(calculate_strength(4, true), "Medium");
    assert_eq!(calculate_strength(9, false), "Weak");
}

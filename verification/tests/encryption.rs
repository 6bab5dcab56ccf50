use age::secrecy::ExposeSecret;
use rotz_link::config::LinkType;
use rotz_link::encryption::{
    decrypt_data, determine_sync_direction, encrypt_data, recipient_for_identity, try_encrypt_data, EncryptionConfig, EncryptionError, IdentityFile, LinkConfig,
    SyncDirection,
};

const TEST_SK: &str = "AGE-SECRET-KEY-1GQ9778VQXMMJVE8SK7J6VT8UJ4HDQAJUVSFCWCM02D8GEWQ72PVQ2Y5J33";
const TEST_PK: &str = "age1t7rxyev2z3rw82stdlrrepyc39nvn86l5078zqkf5uasdy86jp6svpy7pa";

#[test]
fn test_sync_direction_determination() {
    // Test all combinations with Copy (source -> target)
    assert_eq!(determine_sync_direction(false, false, &LinkType::Copy), SyncDirection::CreateBoth);
    assert_eq!(determine_sync_direction(false, true, &LinkType::Copy), SyncDirection::TargetToSource);
    assert_eq!(determine_sync_direction(true, false, &LinkType::Copy), SyncDirection::SourceToTarget);
    assert_eq!(determine_sync_direction(true, true, &LinkType::Copy), SyncDirection::SourceToTarget);

    // Test with Encrypted (target -> source)
    assert_eq!(determine_sync_direction(true, true, &LinkType::Encrypted), SyncDirection::TargetToSource);

    // Test with Record (target -> source)
    assert_eq!(determine_sync_direction(true, true, &LinkType::Record), SyncDirection::TargetToSource);
}

#[test]
fn test_link_config_with_type_override() {
    let config = LinkConfig {
        targets: vec!["/home/user/.test".to_string()],
        link_type: Some(LinkType::Record),
    };

    assert_eq!(config.link_type, Some(LinkType::Record));
}

#[test]
fn test_encryption_disabled() {
    let config = EncryptionConfig::default();
    assert!(encrypt_data(b"test", &config).is_err());
    assert!(decrypt_data(b"test", IdentityFile::NotConfigured).is_err());
}

#[test]
fn sync_direction_readme_table() {
    let all = [LinkType::Symbolic, LinkType::Hard, LinkType::Copy, LinkType::Record, LinkType::Encrypted];
    for t in all.iter() {
        assert_eq!(determine_sync_direction(false, false, t), SyncDirection::CreateBoth);
        assert_eq!(determine_sync_direction(false, true, t), SyncDirection::TargetToSource);
        assert_eq!(determine_sync_direction(true, false, t), SyncDirection::SourceToTarget);
    }
    assert_eq!(determine_sync_direction(true, true, &LinkType::Symbolic), SyncDirection::SourceToTarget);
    assert_eq!(determine_sync_direction(true, true, &LinkType::Hard), SyncDirection::SourceToTarget);
}

#[test]
fn effective_link_type_prefers_override() {
    let with_override = LinkConfig { targets: vec![], link_type: Some(LinkType::Record) };
    let without = LinkConfig { targets: vec![], link_type: None };
    assert_eq!(with_override.effective_link_type(&LinkType::Copy), LinkType::Record);
    assert_eq!(without.effective_link_type(&LinkType::Copy), LinkType::Copy);
    assert_eq!(LinkConfig::default().effective_link_type(&LinkType::Hard), LinkType::Hard);
}

#[test]
fn encrypt_without_recipient_is_no_key() {
    let config = EncryptionConfig::default();
    assert!(matches!(encrypt_data(b"secret", &config), Err(EncryptionError::NoKey)));
}

#[test]
fn encrypt_with_invalid_recipient_is_no_key() {
    let config = EncryptionConfig { identity_path: None, recipient: Some("not-a-key".to_string()) };
    assert!(matches!(encrypt_data(b"secret", &config), Err(EncryptionError::NoKey)));
}

#[test]
fn encrypt_then_decrypt_round_trip() {
    let config = EncryptionConfig { identity_path: None, recipient: Some(TEST_PK.to_string()) };
    let plain = b"dotfile secret content".to_vec();
    let encrypted = encrypt_data(&plain, &config).unwrap();
    assert_ne!(encrypted, plain);
    let decrypted = decrypt_data(&encrypted, IdentityFile::Contents(format!("  {}\n", TEST_SK))).unwrap();
    assert_eq!(decrypted, plain);
}

#[test]
fn decrypt_with_invalid_identity_is_no_key() {
    let r = decrypt_data(b"anything", IdentityFile::Contents("garbage".to_string()));
    assert!(matches!(r, Err(EncryptionError::NoKey)));
}

#[test]
fn decrypt_garbage_fails() {
    let r = decrypt_data(b"this is not an age file", IdentityFile::Contents(TEST_SK.to_string()));
    assert!(matches!(r, Err(EncryptionError::DecryptionFailed(_))));
}

#[test]
fn decrypt_unreadable_identity_is_io() {
    let err = std::io::Error::new(std::io::ErrorKind::NotFound, "missing");
    let r = decrypt_data(b"anything", IdentityFile::Unreadable(err));
    assert!(matches!(r, Err(EncryptionError::Io(_))));
}

#[test]
fn decrypt_with_another_key_fails() {
    let config = EncryptionConfig { identity_path: None, recipient: Some(TEST_PK.to_string()) };
    let encrypted = encrypt_data(b"secret", &config).unwrap();
    let other = age::x25519::Identity::generate().to_string().expose_secret().to_string();
    let r = decrypt_data(&encrypted, IdentityFile::Contents(other));
    assert!(matches!(r, Err(EncryptionError::DecryptionFailed(_))));
}

#[test]
fn decrypt_tampered_payload_is_io() {
    let config = EncryptionConfig { identity_path: None, recipient: Some(TEST_PK.to_string()) };
    let mut encrypted = encrypt_data(b"dotfile secret content", &config).unwrap();
    let last = encrypted.len() - 1;
    encrypted[last] ^= 0x01;
    let r = decrypt_data(&encrypted, IdentityFile::Contents(TEST_SK.to_string()));
    assert!(matches!(r, Err(EncryptionError::Io(_))));
}

#[test]
fn decrypt_truncated_header_fails() {
    let r = decrypt_data(b"age-encryption.org/v1\n", IdentityFile::Contents(TEST_SK.to_string()));
    assert!(matches!(r, Err(EncryptionError::DecryptionFailed(_))));
}

#[test]
fn identity_text_is_trimmed_of_unicode_white_space() {
    let config = EncryptionConfig { identity_path: None, recipient: Some(TEST_PK.to_string()) };
    let encrypted = encrypt_data(b"content", &config).unwrap();
    let contents = format!("\u{3000}\t{}\u{2028}\r\n", TEST_SK);
    assert_eq!(decrypt_data(&encrypted, IdentityFile::Contents(contents)).unwrap(), b"content".to_vec());
    let inner_space = format!("{} x", TEST_SK);
    assert!(matches!(decrypt_data(&encrypted, IdentityFile::Contents(inner_space)), Err(EncryptionError::NoKey)));
}

#[test]
fn recipient_of_an_identity_file() {
    assert_eq!(recipient_for_identity(&format!("  {}\n", TEST_SK)), Some(TEST_PK.to_string()));
    assert_eq!(recipient_for_identity("not a key"), None);
}

#[test]
fn encrypt_to_own_recipient_round_trip() {
    let contents = format!("{}\n", TEST_SK);
    let recipient = recipient_for_identity(&contents).unwrap();
    let config = EncryptionConfig { identity_path: None, recipient: Some(recipient) };
    let encrypted = try_encrypt_data(b"round trip", &config).unwrap().unwrap();
    assert_eq!(decrypt_data(&encrypted, IdentityFile::Contents(contents)).unwrap(), b"round trip".to_vec());
}

#[test]
fn small_order_recipients_are_not_encrypted_to() {
    for r in [
        "age1qqqqqqqqqqqqqqqqqqqqqqqqqqqqqqqqqqqqqqqqqqqqqqqqqqqq5cu47z",
        "age1qyqqqqqqqqqqqqqqqqqqqqqqqqqqqqqqqqqqqqqqqqqqqqqqqqqqj7vrya",
        "age1ur4h5lpmgxu2u9jku0a0r87ydtdqnr0tnsetrlvxvgz3vh6fhqqqzyt4v9",
        "age1amlllllllllllllllllllllllllllllllllllllllllllllllllsam3fc4",
        "AGE1QQQQQQQQQQQQQQQQQQQQQQQQQQQQQQQQQQQQQQQQQQQQQQQQQQQQ5CU47Z",
    ]
    .iter()
    {
        let config = EncryptionConfig { identity_path: None, recipient: Some(r.to_string()) };
        assert!(try_encrypt_data(b"secret", &config).is_none(), "{}", r);
    }
    let none = EncryptionConfig { identity_path: None, recipient: Some("not-a-key".to_string()) };
    assert!(matches!(try_encrypt_data(b"secret", &none), Some(Err(EncryptionError::NoKey))));
    let good = EncryptionConfig { identity_path: None, recipient: Some(TEST_PK.to_string()) };
    assert!(matches!(try_encrypt_data(b"secret", &good), Some(Ok(_))));
}

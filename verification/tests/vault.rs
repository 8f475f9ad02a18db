use serde_json::Value;
use shush_vault_core::envelope::{
    decode_envelope, encrypt_vault_with, envelope_from_parts, ErrorKind, CIPHER_NAME, KDF_ITERATIONS, KDF_NAME,
};
use shush_vault_core::{decrypt_vault, encrypt_vault, EncryptedVault, SecretRecord, Vault, VaultError};

fn timestamp_text(t: shush_vault_core::Timestamp) -> String {
    chrono::DateTime::from_timestamp(t.seconds, t.nanos)
        .expect("valid time")
        .to_rfc3339()
}

/// The vault as JSON text, in the shape the applications store it.
fn vault_json(vault: &Vault) -> Vec<u8> {
    let mut records = Vec::new();
    for r in &vault.records {
        let mut m = serde_json::Map::new();
        m.insert("id".into(), Value::String(uuid::Uuid::from_u128(r.id).to_string()));
        m.insert("workspace".into(), Value::String(r.workspace.clone()));
        m.insert("name".into(), Value::String(r.name.clone()));
        m.insert("value".into(), Value::String(r.value.clone()));
        m.insert("environment".into(), Value::String(r.environment.clone()));
        m.insert("provider".into(), Value::String(r.provider.clone()));
        m.insert("notes".into(), Value::String(r.notes.clone()));
        m.insert("createdAt".into(), Value::String(timestamp_text(r.created_at)));
        m.insert("updatedAt".into(), Value::String(timestamp_text(r.updated_at)));
        m.insert("deletedAt".into(), Value::Null);
        records.push(Value::Object(m));
    }
    let mut top = serde_json::Map::new();
    top.insert("records".into(), Value::Array(records));
    serde_json::to_vec(&Value::Object(top)).unwrap()
}

fn envelope_json(e: &EncryptedVault) -> String {
    let mut m = serde_json::Map::new();
    m.insert("version".into(), Value::from(e.version));
    m.insert("kdf".into(), Value::String(e.kdf.clone()));
    m.insert("iterations".into(), Value::from(e.iterations));
    m.insert("cipher".into(), Value::String(e.cipher.clone()));
    m.insert("salt".into(), Value::String(e.salt.clone()));
    m.insert("nonce".into(), Value::String(e.nonce.clone()));
    m.insert("ciphertext".into(), Value::String(e.ciphertext.clone()));
    serde_json::to_string(&Value::Object(m)).unwrap()
}

#[test]
fn encrypts_and_decrypts_vault_without_plaintext_leakage() {
    let mut vault = Vault::default();
    vault.add(SecretRecord::create("Demo", "OPENAI_API_KEY", "sk-secret", "Dev", "OpenAI", "notes"));

    let encrypted = encrypt_vault(&vault_json(&vault), "correct horse battery staple").unwrap();
    let serialized = envelope_json(&encrypted);

    assert!(!serialized.contains("OPENAI_API_KEY"));
    assert!(!serialized.contains("sk-secret"));

    let decrypted = decrypt_vault(&encrypted, "correct horse battery staple").unwrap();
    let decrypted: Value = serde_json::from_slice(&decrypted).unwrap();
    assert_eq!(decrypted["records"][0]["name"], "OPENAI_API_KEY");
    assert_eq!(decrypted["records"][0]["value"], "sk-secret");
}

#[test]
fn rejects_wrong_passphrase() {
    let mut vault = Vault::default();
    vault.add(SecretRecord::create("Demo", "KEY", "value", "Dev", "", ""));
    let encrypted = encrypt_vault(&vault_json(&vault), "right").unwrap();

    assert!(matches!(
        decrypt_vault(&encrypted, "wrong"),
        Err(VaultError::DecryptionFailed)
    ));
}

#[test]
fn empty_passphrase_is_refused() {
    assert!(matches!(encrypt_vault(b"{}", ""), Err(VaultError::InvalidPassphrase)));
}

#[test]
fn envelope_header_is_the_single_profile() {
    let e = encrypt_vault(b"{\"records\":[]}", "pw").unwrap();
    assert_eq!(e.version, 1);
    assert_eq!(e.kdf, "pbkdf2-sha256");
    assert_eq!(e.iterations, 310_000);
    assert_eq!(e.cipher, "aes-256-gcm");
    assert_eq!(KDF_NAME, "pbkdf2-sha256");
    assert_eq!(CIPHER_NAME, "aes-256-gcm");
    assert_eq!(KDF_ITERATIONS, 310_000);
    // 16 salt bytes and 12 nonce bytes in padded base64.
    assert_eq!(e.salt.len(), 24);
    assert_eq!(e.nonce.len(), 16);
}

#[test]
fn fixed_salt_and_nonce_give_a_fixed_envelope() {
    let salt = [7u8; 16];
    let nonce = [9u8; 12];
    let a = encrypt_vault_with(b"hello", "pw", &salt, &nonce).unwrap();
    let b = encrypt_vault_with(b"hello", "pw", &salt, &nonce).unwrap();
    assert_eq!(a.ciphertext, b.ciphertext);
    assert_eq!(a.salt, "BwcHBwcHBwcHBwcHBwcHBw==");
    assert_eq!(a.nonce, "CQkJCQkJCQkJCQkJ");
    // 5 bytes of ciphertext and a 16-byte tag.
    assert_eq!(a.ciphertext.len(), 28);
    assert_eq!(decrypt_vault(&a, "pw").unwrap(), b"hello".to_vec());
}

#[test]
fn unsupported_header_is_refused_before_key_derivation() {
    let good = encrypt_vault(b"x", "pw").unwrap();
    let mut e = good;
    e.iterations = 1000;
    assert!(matches!(decrypt_vault(&e, "pw"), Err(VaultError::InvalidPayload)));
    let mut e = encrypt_vault(b"x", "pw").unwrap();
    e.version = 2;
    assert!(matches!(decrypt_vault(&e, "pw"), Err(VaultError::InvalidPayload)));
    let mut e = encrypt_vault(b"x", "pw").unwrap();
    e.kdf = "scrypt".to_string();
    assert!(matches!(decrypt_vault(&e, "pw"), Err(VaultError::InvalidPayload)));
    let mut e = encrypt_vault(b"x", "pw").unwrap();
    e.cipher = "chacha20".to_string();
    assert!(matches!(decrypt_vault(&e, "pw"), Err(VaultError::InvalidPayload)));
}

#[test]
fn bad_base64_and_bad_lengths() {
    let mut e = encrypt_vault(b"x", "pw").unwrap();
    e.salt = "not base64!".to_string();
    assert!(matches!(decrypt_vault(&e, "pw"), Err(VaultError::Base64(_))));
    let mut e = encrypt_vault(b"x", "pw").unwrap();
    e.nonce = "QQ=".to_string();
    assert!(matches!(decrypt_vault(&e, "pw"), Err(VaultError::Base64(_))));
    let mut e = encrypt_vault(b"x", "pw").unwrap();
    // "QQ==" is one byte: a salt of the wrong length.
    e.salt = "QQ==".to_string();
    assert!(matches!(decrypt_vault(&e, "pw"), Err(VaultError::InvalidPayload)));
    // Non-zero trailing bits are not canonical.
    let mut e = encrypt_vault(b"x", "pw").unwrap();
    e.ciphertext = "QR==".to_string();
    assert!(matches!(decrypt_vault(&e, "pw"), Err(VaultError::Base64(_))));
}

#[test]
fn tampered_ciphertext_fails_authentication() {
    let salt = [1u8; 16];
    let nonce = [2u8; 12];
    let e = encrypt_vault_with(b"secret", "pw", &salt, &nonce).unwrap();
    let parts = decode_envelope(&e).unwrap();
    let mut bytes = parts.ciphertext.clone();
    bytes[0] ^= 1;
    let tampered = envelope_from_parts(&parts.salt, &parts.nonce, &bytes);
    assert!(matches!(decrypt_vault(&tampered, "pw"), Err(VaultError::DecryptionFailed)));
    let untouched = envelope_from_parts(&parts.salt, &parts.nonce, &parts.ciphertext);
    assert_eq!(decrypt_vault(&untouched, "pw").unwrap(), b"secret".to_vec());
}

#[test]
fn derive_key_refuses_zero_rounds() {
    assert!(matches!(
        shush_vault_core::envelope::derive_key("pw", b"salt", 0),
        Err(VaultError::InvalidPayload)
    ));
    let a = shush_vault_core::envelope::derive_key("pw", b"salt", 1).unwrap();
    let b = shush_vault_core::envelope::derive_key("pw", b"salt", 1).unwrap();
    assert_eq!(a, b);
    let c = shush_vault_core::envelope::derive_key("pw", b"salt", 2).unwrap();
    assert_ne!(a, c);
}

#[test]
fn pbkdf2_matches_the_reference_vector() {
    // RFC 7914 / common PBKDF2-HMAC-SHA256 test vector: "password", "salt", 1 round.
    let k = shush_vault_core::envelope::derive_key("password", b"salt", 1).unwrap();
    assert_eq!(
        k[..8],
        [0x12, 0x0f, 0xb6, 0xcf, 0xfc, 0xf8, 0xb3, 0x2c]
    );
}

#[test]
fn error_kinds_are_distinct() {
    assert_ne!(ErrorKind::Base64, ErrorKind::InvalidPayload);
}

#[test]
fn envelope_parts_are_base64_fields() {
    let e = envelope_from_parts(&[1, 2, 3], &[0u8; 12], b"ct");
    assert_eq!(e.salt, "AQID");
    assert_eq!(e.nonce, "AAAAAAAAAAAAAAAA");
    assert_eq!(e.ciphertext, "Y3Q=");
    assert_eq!(e.version, 1);
    // A three-byte salt is the wrong length.
    assert!(matches!(decode_envelope(&e), Err(VaultError::InvalidPayload)));
    let e = envelope_from_parts(&[5u8; 16], &[6u8; 12], b"xyz");
    let parts = decode_envelope(&e).unwrap();
    assert_eq!(parts.salt, vec![5u8; 16]);
    assert_eq!(parts.nonce, vec![6u8; 12]);
    assert_eq!(parts.ciphertext, b"xyz".to_vec());
}

#[test]
fn ciphertext_is_plaintext_plus_tag() {
    // Each seal derives a key with the full round count, so few lengths are tried.
    for len in [0usize, 17, 1000] {
        let plaintext = vec![0x5au8; len];
        let e = encrypt_vault(&plaintext, "correct horse").unwrap();
        let parts = decode_envelope(&e).unwrap();
        assert_eq!(parts.salt.len(), 16);
        assert_eq!(parts.nonce.len(), 12);
        assert_eq!(parts.ciphertext.len(), len + 16);
    }
}

#[test]
fn any_non_empty_passphrase_seals() {
    for pass in [" ", "\u{1F511}"] {
        let e = encrypt_vault_with(b"{}", pass, &[1u8; 16], &[2u8; 12]).unwrap();
        assert_eq!(decode_envelope(&e).unwrap().ciphertext.len(), 2 + 16);
    }
}

use discrypt::app_store::AppStoreError;
use discrypt::appdb::{AppDbKeychain, MemoryAppDbKeychain};
use discrypt::production_keychain::{
    open_vault_entries, os_keychain_secret, production_keychain_degraded_vault_warning,
    production_keychain_delete_result, production_keychain_fallback_error,
    production_load_outcome, production_store_outcome, seal_vault_entries,
    seal_vault_entries_with, secret_to_wrapping_key, LinuxOsKeychain, PassphraseVaultEnvelope,
    ProductionAppDbKeychain, VAULT_FORMAT, VAULT_KDF,
};

/// Keychain whose every operation fails with one provider message.
struct FailingKeychain {
    message: &'static str,
}

impl AppDbKeychain for FailingKeychain {
    fn load_wrapping_key(&mut self, _key_id: &str) -> Result<Option<[u8; 32]>, AppStoreError> {
        Err(AppStoreError::Keychain(self.message.to_owned()))
    }

    fn store_wrapping_key(&mut self, _key_id: &str, _key: [u8; 32]) -> Result<(), AppStoreError> {
        Err(AppStoreError::Keychain(self.message.to_owned()))
    }

    fn delete_wrapping_key(&mut self, _key_id: &str) -> Result<(), AppStoreError> {
        Err(AppStoreError::Keychain(self.message.to_owned()))
    }
}

fn keychain_text(error: &AppStoreError) -> String {
    error.message()
}

#[test]
fn production_storage_exposes_linux_os_keychain_boundary() {
    let keychain = LinuxOsKeychain::discrypt_app_db();
    assert_eq!(keychain.service(), "discrypt.appdb");
    assert_eq!(keychain.target(), "default");
    assert_eq!(keychain.legacy_target(), "discrypt");
}

#[test]
fn linux_os_keychain_uses_the_given_service() {
    let keychain = LinuxOsKeychain::new("discrypt.appdb.e2e");
    assert_eq!(keychain.service(), "discrypt.appdb.e2e");
    assert_eq!(keychain.legacy_target(), "discrypt");
    assert_eq!(LinuxOsKeychain::default(), LinuxOsKeychain::discrypt_app_db());
}

#[test]
fn invalid_os_keychain_wrapping_key_length_is_rejected() {
    let error = secret_to_wrapping_key(vec![0x11; 31])
        .expect_err("short keyring material must fail closed");

    assert!(matches!(
        error,
        AppStoreError::Crypto("invalid OS keychain wrapping key length")
    ));
}

#[test]
fn os_keychain_secret_is_lower_hex_and_reads_back() {
    let key = [0xab; 32];
    let secret = os_keychain_secret(&key);
    assert_eq!(secret, "ab".repeat(32).into_bytes());
    assert_eq!(secret_to_wrapping_key(secret).expect("hex secret"), Some(key));

    let mut mixed = [0_u8; 32];
    for (i, byte) in mixed.iter_mut().enumerate() {
        *byte = i as u8 * 7;
    }
    let secret = os_keychain_secret(&mixed);
    assert_eq!(&secret[..6], b"00070e");
    assert_eq!(secret_to_wrapping_key(secret).expect("hex secret"), Some(mixed));
}

#[test]
fn os_keychain_secret_accepts_raw_and_upper_case_keys() {
    assert_eq!(
        secret_to_wrapping_key(vec![0x5a; 32]).expect("raw secret"),
        Some([0x5a; 32])
    );
    assert_eq!(
        secret_to_wrapping_key("AB".repeat(32).into_bytes()).expect("upper-case hex"),
        Some([0xab; 32])
    );
    let mut bad = "ab".repeat(32).into_bytes();
    bad[17] = b'g';
    assert!(matches!(
        secret_to_wrapping_key(bad),
        Err(AppStoreError::Crypto("invalid OS keychain wrapping key encoding"))
    ));
}

#[test]
fn production_keychain_fallback_error_preserves_both_failure_signals() {
    let error = production_keychain_fallback_error(
        "store",
        AppStoreError::Keychain("native provider locked".to_owned()),
        AppStoreError::Keychain("Discrypt vault passphrase must be at least 12 characters".to_owned()),
    );
    let rendered = error.message();

    assert!(rendered.contains("OS keychain store failed"));
    assert!(rendered.contains("native provider locked"));
    assert!(rendered.contains("configured encrypted vault fallback failed"));
    assert!(rendered.contains("at least 12 characters"));
}

#[test]
fn fallback_error_text_is_exact() {
    let error = production_keychain_fallback_error(
        "load",
        AppStoreError::Keychain("locked".to_owned()),
        AppStoreError::Crypto("app db decryption failed"),
    );
    assert_eq!(
        keychain_text(&error),
        "app store keychain error: OS keychain load failed (app store keychain error: locked); \
         configured encrypted vault fallback failed (app store crypto error: app db decryption failed)"
    );
}

#[test]
fn production_degraded_vault_warning_preserves_os_failure_signal() {
    let warning = production_keychain_degraded_vault_warning(
        "load",
        &AppStoreError::Keychain("native provider locked".to_owned()),
    );

    assert!(warning.contains("OS keychain load failed"));
    assert!(warning.contains("native provider locked"));
    assert!(warning.contains("explicitly configured encrypted vault fallback"));
}

#[test]
fn production_delete_preserves_os_keychain_failure_when_vault_delete_succeeds() {
    let error = production_keychain_delete_result(
        Err(AppStoreError::Keychain("native delete permission denied".to_owned())),
        Ok(()),
    )
    .expect_err("OS keychain delete failure must not be masked by vault cleanup success");

    let rendered = error.message();
    assert!(rendered.contains("native delete permission denied"));
}

#[test]
fn delete_result_combines_both_stores() {
    assert!(production_keychain_delete_result(Ok(()), Ok(())).is_ok());
    let vault_only = production_keychain_delete_result(Ok(()), Err(AppStoreError::LockPoisoned))
        .expect_err("vault failure is reported");
    assert!(matches!(vault_only, AppStoreError::LockPoisoned));
    let both = production_keychain_delete_result(
        Err(AppStoreError::Keychain("os".to_owned())),
        Err(AppStoreError::Keychain("vault".to_owned())),
    )
    .expect_err("both failures are reported");
    assert!(both.message().contains("OS keychain delete failed"));
}

#[test]
fn load_outcome_prefers_os_and_falls_back_to_vault() {
    let os_key = [1_u8; 32];
    let vault_key = [2_u8; 32];
    assert_eq!(production_load_outcome(Ok(Some(os_key)), None, "k").unwrap(), Some(os_key));
    assert_eq!(
        production_load_outcome(Ok(None), Some(Ok(Some(vault_key))), "k").unwrap(),
        Some(vault_key)
    );
    assert_eq!(production_load_outcome(Ok(None), None, "k").unwrap(), None);
    assert_eq!(
        production_load_outcome(
            Err(AppStoreError::Keychain("locked".to_owned())),
            Some(Ok(Some(vault_key))),
            "k"
        )
        .unwrap(),
        Some(vault_key)
    );
    let missing = production_load_outcome(
        Err(AppStoreError::Keychain("locked".to_owned())),
        Some(Ok(None)),
        "vault-key",
    )
    .expect_err("a failed OS keychain without a vault key fails closed");
    assert!(missing
        .message()
        .contains("configured encrypted vault has no wrapping key for vault-key"));
    let no_vault = production_load_outcome(Err(AppStoreError::LockPoisoned), None, "k")
        .expect_err("the OS failure stands without a vault");
    assert!(matches!(no_vault, AppStoreError::LockPoisoned));
}

#[test]
fn store_outcome_uses_vault_only_after_os_failure() {
    assert!(production_store_outcome(Ok(()), None).is_ok());
    assert!(production_store_outcome(Err(AppStoreError::LockPoisoned), Some(Ok(()))).is_ok());
    assert!(matches!(
        production_store_outcome(Err(AppStoreError::LockPoisoned), None),
        Err(AppStoreError::LockPoisoned)
    ));
    let both = production_store_outcome(
        Err(AppStoreError::Keychain("os".to_owned())),
        Some(Err(AppStoreError::Keychain("vault".to_owned()))),
    )
    .expect_err("both failures are reported");
    assert!(both.message().contains("OS keychain store failed"));
}

#[test]
fn production_keychain_falls_back_to_vault_when_os_fails() -> Result<(), AppStoreError> {
    let mut keychain = ProductionAppDbKeychain::new(
        FailingKeychain { message: "native provider locked" },
        Some(MemoryAppDbKeychain::new()),
    );
    keychain.store_wrapping_key("k", [9; 32])?;
    assert_eq!(keychain.load_wrapping_key("k")?, Some([9; 32]));
    let error = keychain
        .delete_wrapping_key("k")
        .expect_err("the OS keychain delete failure is reported");
    assert!(error.message().contains("native provider locked"));
    Ok(())
}

#[test]
fn production_keychain_uses_os_keychain_first() -> Result<(), AppStoreError> {
    let mut vault = MemoryAppDbKeychain::new();
    vault.insert_wrapping_key("k", [2; 32])?;
    let mut os = MemoryAppDbKeychain::new();
    os.insert_wrapping_key("k", [1; 32])?;
    let mut keychain = ProductionAppDbKeychain::new(os, Some(vault));
    assert_eq!(keychain.load_wrapping_key("k")?, Some([1; 32]));
    keychain.delete_wrapping_key("k")?;
    assert_eq!(keychain.load_wrapping_key("k")?, None);
    Ok(())
}

#[test]
fn production_keychain_without_vault_reports_os_failure() {
    let mut keychain: ProductionAppDbKeychain<FailingKeychain, MemoryAppDbKeychain> =
        ProductionAppDbKeychain::new(FailingKeychain { message: "native provider locked" }, None);
    let error = keychain.load_wrapping_key("k").expect_err("no fallback configured");
    assert_eq!(error.message(), "app store keychain error: native provider locked");
}

#[test]
fn vault_only_keychain_never_touches_os_keychain() -> Result<(), AppStoreError> {
    let mut keychain = ProductionAppDbKeychain::vault_only(
        FailingKeychain { message: "must not be used" },
        MemoryAppDbKeychain::new(),
    );
    keychain.store_wrapping_key("k", [4; 32])?;
    assert_eq!(keychain.load_wrapping_key("k")?, Some([4; 32]));
    keychain.delete_wrapping_key("k")?;
    assert_eq!(keychain.load_wrapping_key("k")?, None);
    Ok(())
}

#[test]
fn vault_envelope_round_trips_with_the_same_passphrase() -> Result<(), AppStoreError> {
    let plaintext = br#"{"vault-key":[7,7,7]}"#;
    let envelope = seal_vault_entries_with("correct horse battery staple", [3; 16], [5; 12], plaintext)?;
    assert_eq!(envelope.format, VAULT_FORMAT);
    assert_eq!(envelope.kdf, VAULT_KDF);
    assert_eq!(envelope.salt, [3; 16]);
    assert_eq!(envelope.nonce, [5; 12]);
    assert_eq!(envelope.ciphertext.len(), plaintext.len() + 16);
    assert_eq!(open_vault_entries(&envelope, "correct horse battery staple")?, plaintext.to_vec());
    assert!(matches!(
        open_vault_entries(&envelope, "wrong horse battery staple"),
        Err(AppStoreError::Crypto("app db decryption failed"))
    ));
    Ok(())
}

#[test]
fn vault_seal_uses_fresh_salt_and_opens() -> Result<(), AppStoreError> {
    let envelope = seal_vault_entries("correct horse battery staple", b"{}")?;
    assert_eq!(open_vault_entries(&envelope, "correct horse battery staple")?, b"{}".to_vec());
    Ok(())
}

#[test]
fn vault_refuses_short_passphrase() {
    let error = seal_vault_entries("too-short", b"{}").expect_err("short passphrase");
    assert!(error.message().contains("at least 12 characters"));
    assert!(matches!(
        seal_vault_entries_with("too-short", [0; 16], [0; 12], b"{}"),
        Err(AppStoreError::Keychain(_))
    ));
}

#[test]
fn vault_envelope_rejects_other_formats() {
    let envelope = PassphraseVaultEnvelope {
        format: "discrypt.appdb.vault.v0".to_owned(),
        kdf: VAULT_KDF.to_owned(),
        salt: [0; 16],
        nonce: [0; 12],
        ciphertext: Vec::new(),
    };
    assert!(matches!(
        open_vault_entries(&envelope, "correct horse battery staple"),
        Err(AppStoreError::Crypto("unsupported Discrypt vault format"))
    ));
    let envelope = PassphraseVaultEnvelope {
        format: VAULT_FORMAT.to_owned(),
        kdf: "scrypt".to_owned(),
        ..envelope
    };
    assert!(matches!(
        envelope.validate(),
        Err(AppStoreError::Crypto("unsupported Discrypt vault KDF"))
    ));
}

#[test]
fn app_store_error_messages_match_their_variants() {
    assert_eq!(AppStoreError::LockPoisoned.message(), "app store lock poisoned");
    assert_eq!(
        AppStoreError::Crypto("app db decryption failed").message(),
        "app store crypto error: app db decryption failed"
    );
    assert_eq!(
        AppStoreError::KeychainMissing("k".to_owned()).message(),
        "app store keychain key missing: k"
    );
    let io = AppStoreError::Io(std::io::Error::new(std::io::ErrorKind::Other, "disk full"));
    assert_eq!(io.message(), "app store I/O error: disk full");
}

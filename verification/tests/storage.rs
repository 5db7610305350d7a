use discrypt::app_store::{
    AppIdentityState, AppMessageState, AppMessageTombstoneState, AppState, AppStore,
    AppStoreError, MemoryAppStore,
};
use discrypt::author_log::{
    AuthorLogAppendOutcome, AuthorLogEntry, AuthorLogError, AuthorLogMergeReport,
};
use discrypt::local_store::LocalStore;
use discrypt::recipient_cache::{KeyState, LocalDecryptError, RecipientCacheEntry};
use discrypt::recovery::{
    export_account_backup, export_device_compromise_backup, lost_password_recovery_material,
    recover_account, recovery_code_material, restore_account_backup_after_device_rotation,
    restore_account_backup_export, restore_recovery_code_backup_export, seal_account_backup,
    AccountBackupRecoveryMethod, AccountRecovery, RecoveryCodeVerifier, RecoveryError,
    RecoveryMaterial, ACCOUNT_BACKUP_EXPORT_VERSION,
};
use discrypt::secure_delete::SecureDeleteSimulator;
use sha2::{Digest, Sha256};

fn xor_with_key(bytes: &[u8], key: &[u8; 32]) -> Vec<u8> {
    bytes
        .iter()
        .enumerate()
        .map(|(idx, byte)| byte ^ key[idx % key.len()])
        .collect()
}

fn rooms(names: &[&str]) -> Vec<String> {
    names.iter().map(|name| (*name).to_owned()).collect()
}

#[test]
fn memory_app_store_round_trips_app_state_bytes() -> Result<(), AppStoreError> {
    let mut store = MemoryAppStore::default();
    assert_eq!(store.load_app_state()?, None);
    store.save_app_state(br#"{"schema_version":2}"#)?;
    assert_eq!(
        store.load_app_state()?,
        Some(br#"{"schema_version":2}"#.to_vec())
    );
    Ok(())
}

#[test]
fn memory_app_store_save_replaces_previous_bytes() -> Result<(), AppStoreError> {
    let mut store = MemoryAppStore::new();
    store.save_app_state(b"first")?;
    store.save_app_state(b"second")?;
    assert_eq!(store.load_app_state()?, Some(b"second".to_vec()));
    Ok(())
}

#[test]
fn backup_excludes_content_keys() {
    let b = seal_account_backup(&[9; 32], rooms(&[" room ", "room"]), 0);
    assert_eq!(b.device_count, 1);
    assert_eq!(b.room_memberships, vec!["room"]);
    assert_eq!(b.identity_key_ciphertext.len(), 32);
}

#[test]
fn sealed_account_backup_is_domain_separated_from_raw_content_key_hashes() {
    let content_key = [9; 32];
    let b = seal_account_backup(&content_key, rooms(&["room"]), 2);
    assert_ne!(
        b.identity_key_ciphertext,
        Sha256::digest(content_key).to_vec()
    );
    assert_eq!(b.device_count, 2);
    assert_eq!(b.room_memberships, vec!["room"]);
    assert_eq!(b.identity_key_ciphertext.len(), 32);
}

#[test]
fn sealed_account_backup_hashes_domain_then_key() {
    let content_key = [5; 32];
    let b = seal_account_backup(&content_key, rooms(&["a"]), 1);
    let mut hasher = Sha256::new();
    hasher.update(b"discrypt:v1:sealed-account-backup");
    hasher.update(content_key);
    assert_eq!(b.identity_key_ciphertext, hasher.finalize().to_vec());
}

#[test]
fn account_backup_export_restore_persists_metadata_without_content_keys(
) -> Result<(), RecoveryError> {
    let export = export_account_backup(
        &[7; 32],
        rooms(&[" ops ", "ops", "engineering"]),
        2,
        "alice:laptop",
        AccountBackupRecoveryMethod::RecoveryCode,
        1_782_400_000_000,
    )?;

    assert_eq!(export.metadata.version, ACCOUNT_BACKUP_EXPORT_VERSION);
    assert_eq!(export.metadata.exported_by_device_id, "alice:laptop");
    assert_eq!(
        export.metadata.recovery_method,
        AccountBackupRecoveryMethod::RecoveryCode
    );
    assert!(!export.metadata.device_rotation_required);

    assert_eq!(
        restore_account_backup_export(export.clone()),
        Err(RecoveryError::RecoveryCodeRequired)
    );

    let verifier = RecoveryCodeVerifier::from_code("paper-coral-falcon")?;
    assert_eq!(
        restore_recovery_code_backup_export(export.clone(), "wrong", &verifier),
        Err(RecoveryError::InvalidRecoveryCode)
    );

    let recovered =
        restore_recovery_code_backup_export(export, " paper-coral-falcon ", &verifier)?;
    assert_eq!(
        recovered,
        AccountRecovery {
            account_access_restored: true,
            room_memberships: vec!["engineering".to_owned(), "ops".to_owned()],
            device_count: 2,
            content_keys_restored: false,
        }
    );

    let sealed_export = export_account_backup(
        &[3; 32],
        rooms(&["ops"]),
        1,
        "alice:laptop",
        AccountBackupRecoveryMethod::SealedBackup,
        1_782_400_000_100,
    )?;
    assert!(restore_account_backup_export(sealed_export)?.account_access_restored);
    Ok(())
}

#[test]
fn malformed_backup_restore_fails_closed_without_overwriting_existing_state(
) -> Result<(), RecoveryError> {
    let mut store = MemoryAppStore::default();
    store
        .save_app_state(br#"{"schema_version":2,"profile":"existing"}"#)
        .unwrap();

    let mut corrupt = export_account_backup(
        &[1; 32],
        rooms(&["room"]),
        1,
        "alice:laptop",
        AccountBackupRecoveryMethod::SealedBackup,
        1,
    )?;
    corrupt.backup.identity_key_ciphertext.truncate(8);
    assert_eq!(
        restore_account_backup_export(corrupt),
        Err(RecoveryError::InvalidBackupMetadata(
            "identity backup material must be 32 bytes".to_owned()
        ))
    );
    assert_eq!(
        store.load_app_state().unwrap(),
        Some(br#"{"schema_version":2,"profile":"existing"}"#.to_vec())
    );
    Ok(())
}

#[test]
fn export_rejects_blank_device_id() {
    assert_eq!(
        export_account_backup(
            &[1; 32],
            rooms(&["room"]),
            1,
            "  ",
            AccountBackupRecoveryMethod::SealedBackup,
            1,
        ),
        Err(RecoveryError::InvalidBackupMetadata(
            "device id is required".to_owned()
        ))
    );
}

#[test]
fn author_log_stable_message_id_is_canonical() {
    let entry = AuthorLogEntry::new_stable(7, "laptop", 3, 11, b"ciphertext".to_vec());
    assert!(entry.has_stable_message_id());
    assert_eq!(
        entry.message_id,
        AuthorLogEntry::stable_message_id(7, "laptop", 3, 11, b"ciphertext")
    );

    let same = AuthorLogEntry::new_stable(7, "laptop", 3, 11, b"ciphertext".to_vec());
    let other_device = AuthorLogEntry::new_stable(7, "phone", 3, 11, b"ciphertext".to_vec());
    assert_eq!(entry.message_id, same.message_id);
    assert_ne!(entry.message_id, other_device.message_id);
}

#[test]
fn stable_message_id_is_prefixed_lower_hex_digest() {
    let id = AuthorLogEntry::stable_message_id(7, "laptop", 3, 11, b"ciphertext");
    assert!(id.starts_with("msg_"));
    assert_eq!(id.len(), 4 + 64);
    assert!(id[4..]
        .chars()
        .all(|ch| ch.is_ascii_digit() || ('a'..='f').contains(&ch)));
    let custom = AuthorLogEntry::new(7, "laptop", 3, 11, "custom", b"ciphertext".to_vec());
    assert!(!custom.has_stable_message_id());
}

#[test]
fn author_logs_merge_across_devices_deterministically() -> Result<(), AuthorLogError> {
    let mut laptop = LocalStore::default();
    let laptop_entry = AuthorLogEntry::new_stable(1, "laptop", 1, 5, b"ciphertext-a".to_vec());
    let phone_entry = AuthorLogEntry::new_stable(1, "phone", 1, 5, b"ciphertext-b".to_vec());
    assert_eq!(
        laptop.append_sent(laptop_entry.clone())?,
        AuthorLogAppendOutcome::Inserted
    );
    let mut phone = LocalStore::default();
    phone.append_sent(phone_entry.clone())?;
    let report = laptop.merge_author_logs(phone.author_log_snapshot())?;
    assert_eq!(
        report,
        AuthorLogMergeReport {
            inserted: 1,
            duplicates: 0
        }
    );
    assert_eq!(
        laptop.merge_author_logs(vec![phone_entry.clone()])?,
        AuthorLogMergeReport {
            inserted: 0,
            duplicates: 1
        }
    );
    let mut expected_ids = vec![
        laptop_entry.message_id.clone(),
        phone_entry.message_id.clone(),
    ];
    expected_ids.sort();
    assert_eq!(laptop.author_message_ids(), expected_ids);
    assert_eq!(
        laptop.ordered_author_message_ids(),
        vec![laptop_entry.message_id, phone_entry.message_id]
    );
    assert_eq!(laptop.next_sequence_for_device(1, "laptop"), 2);
    assert_eq!(laptop.next_sequence_for_device(1, "phone"), 2);
    Ok(())
}

#[test]
fn append_of_same_entry_is_duplicate() -> Result<(), AuthorLogError> {
    let mut store = LocalStore::default();
    let entry = AuthorLogEntry::new_stable(2, "laptop", 4, 5, b"c".to_vec());
    assert_eq!(
        store.append_sent(entry.clone())?,
        AuthorLogAppendOutcome::Inserted
    );
    assert_eq!(
        store.append_sent(entry)?,
        AuthorLogAppendOutcome::Duplicate
    );
    assert_eq!(store.author_log_snapshot().len(), 1);
    assert_eq!(store.next_sequence_for_device(2, "laptop"), 5);
    assert_eq!(store.next_sequence_for_device(2, "phone"), 1);
    assert_eq!(store.author_log_for(2).len(), 1);
    assert!(store.author_log_for(3).is_empty());
    Ok(())
}

#[test]
fn author_log_rejects_sequence_forks_without_overwrite() -> Result<(), AuthorLogError> {
    let mut store = LocalStore::default();
    let original = AuthorLogEntry::new_stable(1, "laptop", 1, 5, b"ciphertext-a".to_vec());
    store.append_sent(original.clone())?;

    let fork = AuthorLogEntry::new_stable(1, "laptop", 1, 5, b"ciphertext-b".to_vec());
    assert_eq!(
        store.append_sent(fork),
        Err(AuthorLogError::SequenceFork {
            author_leaf: 1,
            device_id: "laptop".to_owned(),
            sequence: 1
        })
    );
    assert_eq!(store.author_log_snapshot(), vec![original]);
    Ok(())
}

#[test]
fn author_log_rejects_message_id_reuse_at_different_position() -> Result<(), AuthorLogError> {
    let mut store = LocalStore::default();
    let original = AuthorLogEntry::new(1, "laptop", 1, 5, "stable-id", b"ciphertext-a".to_vec());
    let reused = AuthorLogEntry::new(1, "phone", 1, 5, "stable-id", b"ciphertext-b".to_vec());
    store.append_sent(original.clone())?;

    assert_eq!(
        store.merge_author_logs(vec![reused]),
        Err(AuthorLogError::MessageIdReused {
            message_id: "stable-id".to_owned()
        })
    );
    assert_eq!(store.author_log_snapshot(), vec![original]);
    Ok(())
}

#[test]
fn author_log_atomic_merge_rejects_late_conflict_without_partial_insert(
) -> Result<(), AuthorLogError> {
    let mut store = LocalStore::default();
    let original = AuthorLogEntry::new_stable(1, "device-1", 2, 5, b"original-ciphertext".to_vec());
    store.append_sent(original.clone())?;

    let earlier = AuthorLogEntry::new_stable(1, "device-1", 1, 5, b"new-ciphertext".to_vec());
    let fork = AuthorLogEntry::new_stable(1, "device-1", 2, 5, b"different-ciphertext".to_vec());

    assert_eq!(
        store.merge_author_logs_atomic(vec![earlier, fork]),
        Err(AuthorLogError::SequenceFork {
            author_leaf: 1,
            device_id: "device-1".to_owned(),
            sequence: 2,
        })
    );
    assert_eq!(store.author_log_snapshot(), vec![original]);
    Ok(())
}

#[test]
fn remerging_a_snapshot_inserts_nothing() -> Result<(), AuthorLogError> {
    let mut store = LocalStore::default();
    store.append_sent(AuthorLogEntry::new_stable(1, "a", 1, 1, b"x".to_vec()))?;
    store.append_sent(AuthorLogEntry::new_stable(2, "b", 1, 1, b"y".to_vec()))?;
    let snapshot = store.author_log_snapshot();
    assert_eq!(
        store.merge_author_logs(snapshot)?,
        AuthorLogMergeReport {
            inserted: 0,
            duplicates: 2
        }
    );
    assert_eq!(store.author_log_snapshot().len(), 2);
    Ok(())
}

#[test]
fn recipient_cache_evicts_oldest_entry() {
    let mut store = LocalStore::with_recipient_cache_capacity(2);
    for idx in 0..3u8 {
        store.cache_received(RecipientCacheEntry::new(
            &format!("m-{idx}"),
            vec![idx],
            KeyState::Cached([idx; 32]),
            u64::from(idx),
        ));
    }
    assert_eq!(store.recipient_cache().len(), 2);
    assert!(store.recipient_cache().get("m-0").is_none());
    assert!(store.recipient_cache().get("m-2").is_some());
}

#[test]
fn crypto_shred_tombstone_blocks_cached_decrypt_without_deleting_ciphertext() {
    let key = [0xA5; 32];
    let plaintext = b"message plaintext";
    let ciphertext = xor_with_key(plaintext, &key);
    let mut store = LocalStore::default();
    store.cache_received(RecipientCacheEntry::new(
        "m-shred",
        ciphertext.clone(),
        KeyState::Cached(key),
        1,
    ));

    assert_eq!(
        store.decrypt_cached_message_for_harness("m-shred"),
        Ok(plaintext.to_vec())
    );
    store.cooperative_shred_message("m-shred");

    assert_eq!(
        store.decrypt_cached_message_for_harness("m-shred"),
        Err(LocalDecryptError::Shredded("m-shred".to_owned()))
    );
    assert_eq!(
        store
            .recipient_cache()
            .get("m-shred")
            .map(|entry| &entry.ciphertext),
        Some(&ciphertext)
    );
    assert_eq!(store.message_tombstones(), vec!["m-shred".to_owned()]);
}

#[test]
fn decrypt_of_unknown_message_is_missing() {
    let store = LocalStore::default();
    assert_eq!(
        store.decrypt_cached_message_for_harness("nope"),
        Err(LocalDecryptError::Missing("nope".to_owned()))
    );
}

#[test]
fn crypto_shred_tombstones_merge_and_apply_to_late_cache_entries() {
    let mut store = LocalStore::default();
    store.merge_message_tombstones(&["m1", "m2", "m1"]);
    store.cache_received(RecipientCacheEntry::new(
        "m1",
        b"ciphertext".to_vec(),
        KeyState::Cached([9; 32]),
        1,
    ));

    assert_eq!(
        store.message_tombstones(),
        vec!["m1".to_owned(), "m2".to_owned()]
    );
    assert_eq!(
        store.decrypt_cached_message_for_harness("m1"),
        Err(LocalDecryptError::Shredded("m1".to_owned()))
    );
    assert_eq!(
        store
            .recipient_cache()
            .get("m1")
            .map(|entry| &entry.key_state),
        Some(&KeyState::Shredded)
    );
}

#[test]
fn crypto_shred_tombstones_survive_app_state_restart_bytes() {
    let mut state = AppState::new(AppIdentityState::new(
        "alice",
        "Alice",
        "friend:alice",
        "device-a",
        "1111",
    ));
    state.messages.push(AppMessageState {
        message_id: "m1".to_owned(),
        group_id: "g1".to_owned(),
        channel_id: "c1".to_owned(),
        author_id: "alice-device".to_owned(),
        sequence: 1,
        epoch: 7,
        ciphertext: b"ciphertext-only".to_vec(),
        sent_at_ms: 1000,
    });
    state.record_message_tombstone(AppMessageTombstoneState::new(
        "m1",
        2000,
        "cooperative-shred",
    ));

    assert!(state.has_message_tombstone("m1"));
    assert!(!state.has_message_tombstone("m2"));
    assert_eq!(state.message_tombstone_ids(), vec!["m1".to_owned()]);
    assert_eq!(state.messages.len(), 1);
}

#[test]
fn app_state_tombstones_stay_sorted_and_unique() {
    let mut state = AppState::new(AppIdentityState::new("a", "A", "f", "d", "1"));
    state.record_message_tombstone(AppMessageTombstoneState::new("m3", 3, "r"));
    state.record_message_tombstone(AppMessageTombstoneState::new("m1", 1, "r"));
    state.merge_message_tombstones(vec![
        AppMessageTombstoneState::new("m2", 2, "r"),
        AppMessageTombstoneState::new("m1", 9, "r"),
    ]);
    assert_eq!(
        state.message_tombstone_ids(),
        vec!["m1".to_owned(), "m2".to_owned(), "m3".to_owned()]
    );
}

#[test]
fn crypto_shred_scan_removes_key_material_from_db_wal_and_key_store() {
    let key_material = b"content-key-material";
    let mut sim = SecureDeleteSimulator::default();
    sim.write("app-state.discrypt", b"ciphertext envelope only".to_vec());
    sim.write("app-state.discrypt-wal", Vec::new());
    sim.write("content-key.store", key_material.to_vec());
    assert!(sim.contains_material(key_material));

    sim.secure_delete(&["content-key.store", "app-state.discrypt-wal"]);

    assert!(!sim.contains_material(key_material));
    assert!(sim.deleted_all(&["content-key.store", "app-state.discrypt-wal"]));
}

#[test]
fn secure_delete_removes_material_and_snapshot_restores_on_failed_verify() {
    let mut sim = SecureDeleteSimulator::default();
    sim.write("db.sqlite", b"content-key".to_vec());
    sim.write("db.sqlite-wal", b"content-key wal".to_vec());
    sim.write("key.store", b"content-key store".to_vec());
    let snapshot = sim.snapshot();
    sim.secure_delete(&["db.sqlite", "db.sqlite-wal"]);
    assert!(sim.contains_material(b"content-key"));
    sim.restore(snapshot);
    assert!(sim.contains_material(b"content-key"));
    sim.secure_delete(&["db.sqlite", "db.sqlite-wal", "key.store"]);
    assert!(!sim.contains_material(b"content-key"));
    assert!(sim.deleted_all(&["db.sqlite", "db.sqlite-wal", "key.store"]));
}

#[test]
fn empty_needle_is_never_material() {
    let mut sim = SecureDeleteSimulator::new();
    sim.write("f", b"abc".to_vec());
    assert!(!sim.contains_material(b""));
    assert!(!sim.deleted_all(&["f"]));
}

#[test]
fn recovery_code_requires_verifier_and_never_restores_content_keys() -> Result<(), RecoveryError> {
    assert_eq!(
        RecoveryCodeVerifier::from_code("   "),
        Err(RecoveryError::EmptyRecoveryCode)
    );
    let verifier = RecoveryCodeVerifier::from_code(" paper-coral-falcon ")?;
    assert!(verifier.verifies("paper-coral-falcon"));
    assert!(verifier.verifies("  paper-coral-falcon  "));
    assert!(!verifier.verifies("paper-coral-falcon-wrong"));
    assert_eq!(
        recovery_code_material("wrong", &verifier, rooms(&["room"]), 2),
        Err(RecoveryError::InvalidRecoveryCode)
    );

    let material = recovery_code_material(
        "paper-coral-falcon",
        &verifier,
        rooms(&["room", "room", " "]),
        3,
    )?;
    let recovered = recover_account(material)?;
    assert_eq!(
        recovered,
        AccountRecovery {
            account_access_restored: true,
            room_memberships: vec!["room".to_owned()],
            device_count: 3,
            content_keys_restored: false,
        }
    );
    Ok(())
}

#[test]
fn lost_password_without_trust_material_is_not_recoverable() -> Result<(), RecoveryError> {
    assert_eq!(
        lost_password_recovery_material(None, None, rooms(&["room"]), 1),
        Err(RecoveryError::NoTrustMaterial)
    );

    let verifier = RecoveryCodeVerifier::from_code("paper-coral-falcon")?;
    assert_eq!(
        lost_password_recovery_material(Some("wrong"), Some(&verifier), rooms(&["room"]), 1),
        Err(RecoveryError::InvalidRecoveryCode)
    );

    let material = lost_password_recovery_material(
        Some(" paper-coral-falcon "),
        Some(&verifier),
        rooms(&["room"]),
        1,
    )?;
    let recovered = recover_account(material)?;
    assert!(recovered.account_access_restored);
    assert!(!recovered.content_keys_restored);
    Ok(())
}

#[test]
fn compromised_device_backup_requires_rotation_before_restore() -> Result<(), RecoveryError> {
    let export = export_device_compromise_backup(
        &[4; 32],
        rooms(&["room"]),
        2,
        "alice:laptop",
        "alice:phone",
        1_782_400_001_000,
    )?;

    assert_eq!(
        restore_account_backup_export(export.clone()),
        Err(RecoveryError::DeviceRotationRequired {
            compromised_device_id: "alice:phone".to_owned()
        })
    );
    assert_eq!(
        restore_account_backup_after_device_rotation(export.clone(), "alice:phone"),
        Err(RecoveryError::InvalidBackupMetadata(
            "replacement device must differ from compromised device".to_owned()
        ))
    );

    let recovered = restore_account_backup_after_device_rotation(export, "alice:tablet")?;
    assert_eq!(
        recovered,
        AccountRecovery {
            account_access_restored: true,
            room_memberships: vec!["room".to_owned()],
            device_count: 2,
            content_keys_restored: false,
        }
    );
    Ok(())
}

#[test]
fn recovery_requires_material_and_never_restores_content_keys() {
    assert_eq!(
        recover_account(RecoveryMaterial::NoMaterial),
        Err(RecoveryError::NoTrustMaterial)
    );
    let backup = seal_account_backup(&[1; 32], rooms(&["room"]), 2);
    let recovered = recover_account(RecoveryMaterial::SealedBackup(backup));
    assert!(matches!(
        recovered,
        Ok(AccountRecovery {
            account_access_restored: true,
            room_memberships,
            device_count: 2,
            content_keys_restored: false,
        }) if room_memberships == vec!["room".to_owned()]
    ));
}

#[test]
fn recovery_error_messages_name_the_failure() {
    assert_eq!(
        RecoveryError::NoTrustMaterial.message(),
        "account recovery requires trust material"
    );
    assert_eq!(
        RecoveryError::InvalidBackupMetadata("device id is required".to_owned()).message(),
        "account backup metadata is invalid: device id is required"
    );
    assert_eq!(
        RecoveryError::UnsupportedBackupVersion { version: 9 }.message(),
        "account backup version 9 is unsupported"
    );
}

#[test]
fn author_log_and_decrypt_error_messages_name_the_failure() {
    assert_eq!(
        AuthorLogError::SequenceFork {
            author_leaf: 1,
            device_id: "laptop".to_owned(),
            sequence: 7
        }
        .message(),
        "author log fork at author 1 device laptop sequence 7"
    );
    assert_eq!(
        LocalDecryptError::Shredded("m1".to_owned()).message(),
        "message content key has been shredded: m1"
    );
}

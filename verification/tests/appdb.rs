use std::sync::{Arc, Mutex};

use discrypt::app_store::AppStoreError;
use discrypt::appdb::{
    open_app_state, preflight_app_db_keychain, preflight_cleanup_check, preflight_reload_check,
    random_wrapping_key, require_wrapping_key, seal_app_state, seal_app_state_with,
    storage_keychain_decision, wrapping_key_step, AppDbKeychain, MemoryAppDbKeychain,
    WrappingKeyStep, DEFAULT_WRAPPING_KEY_ID, ENVELOPE_FORMAT,
};
use discrypt::appdb_schema::{
    validate_observed_schema, AppDbError, AppDbMigrationPlan, AppDbSchema, MigrationDirection,
    APP_DB_SCHEMA_VERSION, REQUIRED_TABLES,
};

#[test]
fn encrypted_app_db_exports_versioned_schema_contract() -> Result<(), AppDbError> {
    let plan = AppDbMigrationPlan::plan(0, APP_DB_SCHEMA_VERSION)?;
    assert_eq!(plan.direction, MigrationDirection::Forward);
    for required in REQUIRED_TABLES {
        assert!(AppDbSchema::current().table(required).is_some());
    }
    Ok(())
}

#[test]
fn storage_keychain_decision_covers_adr_006() {
    let decision = storage_keychain_decision();
    assert!(decision.covers_adr_006());
    assert!(decision
        .sqlite_schema_policy
        .contains("SQLite-compatible durable schema contract"));
    assert!(decision
        .platform_differences
        .iter()
        .any(|platform| platform.contains("macOS") && platform.contains("adapters")));
}

#[test]
fn migration_planner_rejects_future_versions_and_noops_current() -> Result<(), AppDbError> {
    let noop = AppDbMigrationPlan::plan(APP_DB_SCHEMA_VERSION, APP_DB_SCHEMA_VERSION)?;
    assert_eq!(noop.direction, MigrationDirection::Noop);
    assert!(noop.is_empty());

    assert!(matches!(
        AppDbMigrationPlan::plan(APP_DB_SCHEMA_VERSION, APP_DB_SCHEMA_VERSION + 1),
        Err(AppDbError::UnsupportedFutureVersion {
            version,
            current: APP_DB_SCHEMA_VERSION,
        }) if version == APP_DB_SCHEMA_VERSION + 1
    ));
    Ok(())
}

#[test]
fn migration_plan_describes_direction_and_size() -> Result<(), AppDbError> {
    let plan = AppDbMigrationPlan::plan(0, APP_DB_SCHEMA_VERSION)?;
    assert_eq!(plan.from_version, 0);
    assert_eq!(plan.to_version, APP_DB_SCHEMA_VERSION);
    assert_eq!(
        plan.describe(),
        format!("app DB migration 0 -> 1 (Forward, {} statements)", plan.statements.len())
    );
    Ok(())
}

#[test]
fn current_schema_has_all_phase_b_tables() {
    let schema = AppDbSchema::current();
    assert_eq!(schema.version, APP_DB_SCHEMA_VERSION);
    let table_names: Vec<&str> = schema.tables.iter().map(|table| table.name).collect();

    for required in REQUIRED_TABLES {
        assert!(table_names.contains(&required), "missing {required}");
    }
}

#[test]
fn unknown_table_lookup_is_none() {
    assert!(AppDbSchema::current().table("no_such_table").is_none());
}

#[test]
fn migration_from_empty_store_creates_required_schema() -> Result<(), AppDbError> {
    let plan = AppDbMigrationPlan::plan(0, APP_DB_SCHEMA_VERSION)?;
    assert_eq!(plan.direction, MigrationDirection::Forward);
    assert!(!plan.is_empty());
    for required in REQUIRED_TABLES {
        let needle = format!("CREATE TABLE IF NOT EXISTS {required}");
        assert!(
            plan.statements
                .iter()
                .any(|statement| statement.contains(&needle)),
            "missing migration statement for {required}"
        );
    }
    assert!(plan.statements.contains(&"PRAGMA user_version = 1"));
    Ok(())
}

#[test]
fn backward_migration_drops_required_schema_for_recovery_tests() -> Result<(), AppDbError> {
    let plan = AppDbMigrationPlan::plan(APP_DB_SCHEMA_VERSION, 0)?;
    assert_eq!(plan.direction, MigrationDirection::Backward);
    for required in REQUIRED_TABLES {
        let needle = format!("DROP TABLE IF EXISTS {required}");
        assert!(
            plan.statements
                .iter()
                .any(|statement| statement.contains(&needle)),
            "missing rollback statement for {required}"
        );
    }
    Ok(())
}

#[test]
fn schema_validation_reports_missing_table_and_column() {
    let schema = AppDbSchema::current();
    let profile_columns: Vec<&str> = schema
        .table("profiles")
        .expect("profiles table")
        .columns
        .iter()
        .map(|column| column.name)
        .collect();
    let missing_table = validate_observed_schema(&[("profiles", profile_columns)]);
    assert!(matches!(
        missing_table,
        Err(AppDbError::MissingRequiredTable { table: "devices" })
    ));

    let observed: Vec<(&str, Vec<&str>)> = schema
        .tables
        .iter()
        .map(|table| {
            let columns = table
                .columns
                .iter()
                .filter(|column| !(table.name == "devices" && column.name == "identity_key_ref"))
                .map(|column| column.name)
                .collect();
            (table.name, columns)
        })
        .collect();
    let missing_column = validate_observed_schema(&observed);
    assert!(matches!(
        missing_column,
        Err(AppDbError::MissingRequiredColumn {
            table: "devices",
            column: "identity_key_ref",
        })
    ));
}

#[test]
fn complete_observed_schema_validates() {
    let schema = AppDbSchema::current();
    let observed: Vec<(&str, Vec<&str>)> = schema
        .tables
        .iter()
        .map(|table| (table.name, table.columns.iter().map(|c| c.name).collect()))
        .collect();
    assert!(validate_observed_schema(&observed).is_ok());
}

#[test]
fn sensitive_fields_are_key_references_or_ciphertext_only() {
    let mut sensitive: Vec<String> = AppDbSchema::current()
        .sensitive_columns()
        .iter()
        .map(|(table, column)| format!("{table}.{}", column.name))
        .collect();
    sensitive.sort();
    sensitive.dedup();
    assert_eq!(
        sensitive,
        vec![
            "devices.identity_key_ref".to_owned(),
            "invites.password_gate".to_owned(),
            "message_envelopes.ciphertext".to_owned(),
            "retention_state.key_ref".to_owned(),
        ]
    );
}

#[test]
fn deterministic_memory_keychain_is_available_for_tests_and_local_dev_fallbacks(
) -> Result<(), AppStoreError> {
    let mut keychain = MemoryAppDbKeychain::new();
    keychain.store_wrapping_key("local-dev-key", [3; 32])?;
    assert_eq!(keychain.load_wrapping_key("local-dev-key")?, Some([3; 32]));
    keychain.delete_wrapping_key("local-dev-key")?;
    assert_eq!(keychain.load_wrapping_key("local-dev-key")?, None);
    Ok(())
}

#[test]
fn memory_keychain_snapshot_lists_stored_keys() -> Result<(), AppStoreError> {
    let mut keychain = MemoryAppDbKeychain::new();
    keychain.insert_wrapping_key("b", [2; 32])?;
    keychain.insert_wrapping_key("a", [1; 32])?;
    let mut snapshot = keychain.snapshot_wrapping_keys()?;
    snapshot.sort();
    assert_eq!(
        snapshot,
        vec![("a".to_owned(), [1; 32]), ("b".to_owned(), [2; 32])]
    );
    Ok(())
}

#[derive(Clone, Debug)]
struct PreflightTestKeychain {
    state: Arc<Mutex<PreflightTestKeychainState>>,
}

#[derive(Clone, Debug)]
struct PreflightTestKeychainState {
    stored: Option<[u8; 32]>,
    load_override: Option<Option<[u8; 32]>>,
    load_errors: bool,
    delete_removes_key: bool,
}

impl PreflightTestKeychain {
    fn build(
        load_override: Option<Option<[u8; 32]>>,
        load_errors: bool,
        delete_removes_key: bool,
    ) -> Self {
        Self {
            state: Arc::new(Mutex::new(PreflightTestKeychainState {
                stored: None,
                load_override,
                load_errors,
                delete_removes_key,
            })),
        }
    }

    fn new() -> Self {
        Self::build(None, false, true)
    }

    fn with_load_override(load_override: Option<[u8; 32]>) -> Self {
        Self::build(Some(load_override), false, true)
    }

    fn with_load_error() -> Self {
        Self::build(None, true, true)
    }

    fn with_delete_failure() -> Self {
        Self::build(None, false, false)
    }

    fn stored_key(&self) -> Result<Option<[u8; 32]>, AppStoreError> {
        self.state
            .lock()
            .map_err(|_| AppStoreError::LockPoisoned)
            .map(|state| state.stored)
    }
}

impl AppDbKeychain for PreflightTestKeychain {
    fn load_wrapping_key(&mut self, _key_id: &str) -> Result<Option<[u8; 32]>, AppStoreError> {
        self.state
            .lock()
            .map_err(|_| AppStoreError::LockPoisoned)
            .and_then(|state| {
                if state.load_errors {
                    Err(AppStoreError::Keychain("reload failed".to_owned()))
                } else {
                    Ok(state.load_override.unwrap_or(state.stored))
                }
            })
    }

    fn store_wrapping_key(&mut self, _key_id: &str, key: [u8; 32]) -> Result<(), AppStoreError> {
        self.state
            .lock()
            .map_err(|_| AppStoreError::LockPoisoned)?
            .stored = Some(key);
        Ok(())
    }

    fn delete_wrapping_key(&mut self, _key_id: &str) -> Result<(), AppStoreError> {
        let mut state = self.state.lock().map_err(|_| AppStoreError::LockPoisoned)?;
        if state.delete_removes_key {
            state.stored = None;
        }
        Ok(())
    }
}

#[test]
fn keychain_preflight_round_trips_and_removes_probe_key() -> Result<(), AppStoreError> {
    let keychain = PreflightTestKeychain::new();
    let mut probe = keychain.clone();

    preflight_app_db_keychain(&mut probe, "probe-key", [0x42; 32])?;

    assert_eq!(keychain.stored_key()?, None);
    Ok(())
}

#[test]
fn keychain_preflight_rejects_wrong_wrapping_key_and_cleans_probe() -> Result<(), AppStoreError> {
    let keychain = PreflightTestKeychain::with_load_override(Some([0x24; 32]));
    let mut probe = keychain.clone();

    assert!(matches!(
        preflight_app_db_keychain(&mut probe, "probe-key", [0x42; 32]),
        Err(AppStoreError::Crypto(
            "OS keyring preflight returned a different wrapping key"
        ))
    ));
    assert_eq!(keychain.stored_key()?, None);
    Ok(())
}

#[test]
fn keychain_preflight_rejects_missing_loaded_key_and_cleans_probe() -> Result<(), AppStoreError> {
    let keychain = PreflightTestKeychain::with_load_override(None);
    let mut probe = keychain.clone();

    assert!(matches!(
        preflight_app_db_keychain(&mut probe, "probe-key", [0x42; 32]),
        Err(AppStoreError::KeychainMissing(ref key_id)) if key_id == "probe-key"
    ));
    assert_eq!(keychain.stored_key()?, None);
    Ok(())
}

#[test]
fn keychain_preflight_cleans_probe_when_reload_errors() -> Result<(), AppStoreError> {
    let keychain = PreflightTestKeychain::with_load_error();
    let mut probe = keychain.clone();

    assert!(matches!(
        preflight_app_db_keychain(&mut probe, "probe-key", [0x42; 32]),
        Err(AppStoreError::Keychain(ref error)) if error == "reload failed"
    ));
    assert_eq!(keychain.stored_key()?, None);
    Ok(())
}

#[test]
fn keychain_preflight_rejects_probe_key_that_survives_delete() -> Result<(), AppStoreError> {
    let keychain = PreflightTestKeychain::with_delete_failure();
    let mut probe = keychain.clone();

    assert!(matches!(
        preflight_app_db_keychain(&mut probe, "probe-key", [0x42; 32]),
        Err(AppStoreError::Crypto(
            "OS keyring preflight probe key remained after delete"
        ))
    ));
    assert_eq!(keychain.stored_key()?, Some([0x42; 32]));
    Ok(())
}

#[test]
fn preflight_checks_decide_on_reloaded_values() {
    assert!(preflight_reload_check(Ok(Some([1; 32])), "k", [1; 32]).is_ok());
    assert!(matches!(
        preflight_reload_check(Ok(None), "k", [1; 32]),
        Err(AppStoreError::KeychainMissing(ref id)) if id == "k"
    ));
    assert!(preflight_cleanup_check(Ok(None)).is_ok());
    assert!(preflight_cleanup_check(Ok(Some([1; 32]))).is_err());
}

#[test]
fn sealed_app_state_round_trips_without_plaintext() -> Result<(), AppStoreError> {
    let wrapping_key = [7; 32];
    let plaintext = br#"{"schema_version":2,"secret":"hello world"}"#;
    let envelope = seal_app_state_with(
        &wrapping_key,
        DEFAULT_WRAPPING_KEY_ID,
        [9; 32],
        [1; 12],
        [2; 12],
        plaintext,
    )?;
    assert_eq!(envelope.format, ENVELOPE_FORMAT);
    assert_eq!(envelope.key_id, DEFAULT_WRAPPING_KEY_ID);
    assert_eq!(envelope.ciphertext.len(), plaintext.len() + 16);
    assert!(!envelope
        .ciphertext
        .windows(b"hello world".len())
        .any(|window| window == b"hello world"));
    assert_eq!(open_app_state(&envelope, &wrapping_key)?, plaintext.to_vec());

    let random = seal_app_state(&wrapping_key, DEFAULT_WRAPPING_KEY_ID, plaintext)?;
    assert_eq!(open_app_state(&random, &wrapping_key)?, plaintext.to_vec());
    Ok(())
}

#[test]
fn encrypted_app_db_rejects_wrong_wrapping_key() -> Result<(), AppStoreError> {
    let envelope = seal_app_state_with(&[7; 32], "k", [9; 32], [1; 12], [2; 12], b"state")?;
    assert!(matches!(
        open_app_state(&envelope, &[8; 32]),
        Err(AppStoreError::Crypto("app db decryption failed"))
    ));
    let mut foreign = envelope.clone();
    foreign.format = "other".to_owned();
    assert!(matches!(
        open_app_state(&foreign, &[7; 32]),
        Err(AppStoreError::Crypto("unsupported encrypted app db envelope"))
    ));
    Ok(())
}

#[test]
fn wrapping_key_steps_follow_keychain_results() {
    assert!(matches!(
        wrapping_key_step(Ok(Some([5; 32])), true, "k"),
        WrappingKeyStep::Use(key) if key == [5; 32]
    ));
    assert!(matches!(
        wrapping_key_step(Ok(None), false, "k"),
        WrappingKeyStep::Create
    ));
    assert!(matches!(
        wrapping_key_step(Ok(None), true, "k"),
        WrappingKeyStep::Fail(AppStoreError::KeychainMissing(ref id)) if id == "k"
    ));
    assert!(matches!(
        wrapping_key_step(Err(AppStoreError::Keychain("locked".to_owned())), true, "k"),
        WrappingKeyStep::Fail(AppStoreError::Keychain(_))
    ));
    assert!(matches!(
        require_wrapping_key(Ok(None), "k"),
        Err(AppStoreError::KeychainMissing(_))
    ));
    assert!(random_wrapping_key().is_some());
}

#[test]
fn wrapping_key_step_reports_the_load_error_for_an_existing_store() {
    match wrapping_key_step(
        Err(AppStoreError::Keychain("native provider locked".to_owned())),
        true,
        DEFAULT_WRAPPING_KEY_ID,
    ) {
        WrappingKeyStep::Fail(AppStoreError::Keychain(m)) => assert_eq!(m, "native provider locked"),
        other => panic!("unexpected step {other:?}"),
    }
    assert!(matches!(
        wrapping_key_step(Err(AppStoreError::LockPoisoned), false, DEFAULT_WRAPPING_KEY_ID),
        WrappingKeyStep::Create
    ));
}

#[test]
fn preflight_checks_pass_keychain_errors_through() {
    assert!(matches!(
        preflight_reload_check(Err(AppStoreError::Keychain("locked".to_owned())), "probe", [1; 32]),
        Err(AppStoreError::Keychain(m)) if m == "locked"
    ));
    assert!(matches!(
        preflight_cleanup_check(Err(AppStoreError::Keychain("gone".to_owned()))),
        Err(AppStoreError::Keychain(m)) if m == "gone"
    ));
}

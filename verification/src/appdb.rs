//! Encrypted local application database: the launch storage/keychain
//! decision, the keychain boundary, and the sealed on-disk envelope.
//!
//! The envelope holds only a wrapped data key, nonces and ciphertext; the
//! wrapping key stays behind the keychain.
use vstd::prelude::*;
use crate::aead::{aes256gcm_decrypt, aes256gcm_encrypt, aes256gcm_open, aes256gcm_seal, os_random_bytes, AES_GCM_MAX_INPUT};
use crate::app_store::AppStoreError;
use crate::control_lane::nonce_array;
use crate::keyed::{KeyedList, key_index, lemma_key_index};
use crate::text::{contains_str, str_contains, str_equal, text};

verus! {

/// Format tag of the encrypted envelope.
pub const ENVELOPE_FORMAT: &'static str = "discrypt.appdb.encrypted.v1";

/// Wrapping-key id used when none is given.
pub const DEFAULT_WRAPPING_KEY_ID: &'static str = "local-appdb-wrapping-key-v1";

// ---------------------------------------------------------------------------
// Launch decision.
// ---------------------------------------------------------------------------

/// Launch storage/keychain decision.
#[derive(Clone, Debug, Eq, PartialEq)]
pub struct StorageKeychainDecision {
    /// Runtime storage format for app-level state.
    pub app_store_runtime: &'static str,
    /// SQLite compatibility boundary and schema policy.
    pub sqlite_schema_policy: &'static str,
    /// Crates that implement the encrypted store envelope.
    pub encrypted_store_crates: Vec<&'static str>,
    /// Crate and provider selected for production keychain integration.
    pub keychain_crate: &'static str,
    /// WAL, SHM, journal, and temp-file handling policy.
    pub wal_journal_policy: &'static str,
    /// Data-key wrapping and envelope policy.
    pub key_wrapping: &'static str,
    /// Versioned schema migration policy.
    pub schema_migrations: &'static str,
    /// Explicit secure-delete limitation statement.
    pub secure_delete_limits: &'static str,
    /// Platform-specific storage differences and launch gates.
    pub platform_differences: Vec<&'static str>,
}

/// Some entry of `list` is exactly `item`.
pub open spec fn lists(list: Seq<&'static str>, item: Seq<char>) -> bool {
    exists|i: int| 0 <= i < list.len() && (#[trigger] list[i])@ == item
}

/// Some entry of `list` contains both `a` and `b`.
pub open spec fn mentions_both(list: Seq<&'static str>, a: Seq<char>, b: Seq<char>) -> bool {
    exists|i: int| 0 <= i < list.len() && contains_str((#[trigger] list[i])@, a) && contains_str(list[i]@, b)
}

/// The decision covers every launch axis: the named components, policies and
/// platform gates each appear in the field that owns them.
pub open spec fn decision_covers(d: StorageKeychainDecision) -> bool {
    &&& contains_str(d.app_store_runtime@, "EncryptedAppDb"@)
    &&& contains_str(d.app_store_runtime@, "AES-256-GCM"@)
    &&& contains_str(d.app_store_runtime@, "not persist plaintext SQLite pages"@)
    &&& contains_str(d.sqlite_schema_policy@, "AppDbSchema"@)
    &&& contains_str(d.sqlite_schema_policy@, "VERSION_1_DDL"@)
    &&& contains_str(d.sqlite_schema_policy@, "openmls_sqlite_storage"@)
    &&& lists(d.encrypted_store_crates@, "aes-gcm"@)
    &&& lists(d.encrypted_store_crates@, "serde_json"@)
    &&& lists(d.encrypted_store_crates@, "zeroize"@)
    &&& contains_str(d.keychain_crate@, "keyring 3.6.3"@)
    &&& contains_str(d.keychain_crate@, "LinuxOsKeychain"@)
    &&& contains_str(d.wal_journal_policy@, "sqlite_wal_path"@)
    &&& contains_str(d.wal_journal_policy@, "quarantine_corrupt_store"@)
    &&& contains_str(d.key_wrapping@, "wrapped_data_key"@)
    &&& contains_str(d.key_wrapping@, "data key zeroized"@)
    &&& contains_str(d.schema_migrations@, "AppDbMigrationPlan"@)
    &&& contains_str(d.schema_migrations@, "validate_observed_schema"@)
    &&& contains_str(d.secure_delete_limits@, "best-effort"@)
    &&& contains_str(d.secure_delete_limits@, "SSD"@)
    &&& contains_str(d.secure_delete_limits@, "cloud snapshot"@)
    &&& mentions_both(d.platform_differences@, "Linux"@, "Secret Service"@)
    &&& mentions_both(d.platform_differences@, "MemoryAppDbKeychain"@, "non-production"@)
}

fn list_has(list: &Vec<&'static str>, item: &str) -> (b: bool)
    ensures
        b == lists(list@, item@),
{
    let n = list.len();
    let mut i: usize = 0;
    while i < n
        invariant
            n == list@.len(),
            i <= n,
            forall|k: int| 0 <= k < i ==> (#[trigger] list@[k])@ != item@,
        decreases n - i,
    {
        if str_equal(list[i], item) {
            return true;
        }
        i = i + 1;
    }
    false
}

fn any_mentions_both(list: &Vec<&'static str>, a: &str, b: &str) -> (r: bool)
    ensures
        r == mentions_both(list@, a@, b@),
{
    let n = list.len();
    let mut i: usize = 0;
    while i < n
        invariant
            n == list@.len(),
            i <= n,
            forall|k: int| 0 <= k < i ==> !(contains_str((#[trigger] list@[k])@, a@) && contains_str(list@[k]@, b@)),
        decreases n - i,
    {
        if str_contains(list[i], a) && str_contains(list[i], b) {
            return true;
        }
        i = i + 1;
    }
    false
}

impl StorageKeychainDecision {
    /// True when this decision covers every launch axis.
    pub fn covers_adr_006(&self) -> (b: bool)
        ensures
            b == decision_covers(*self),
    {
        str_contains(self.app_store_runtime, "EncryptedAppDb") && str_contains(self.app_store_runtime, "AES-256-GCM")
            && str_contains(self.app_store_runtime, "not persist plaintext SQLite pages") && str_contains(
            self.sqlite_schema_policy,
            "AppDbSchema",
        ) && str_contains(self.sqlite_schema_policy, "VERSION_1_DDL") && str_contains(
            self.sqlite_schema_policy,
            "openmls_sqlite_storage",
        ) && list_has(&self.encrypted_store_crates, "aes-gcm") && list_has(&self.encrypted_store_crates, "serde_json")
            && list_has(&self.encrypted_store_crates, "zeroize") && str_contains(self.keychain_crate, "keyring 3.6.3")
            && str_contains(self.keychain_crate, "LinuxOsKeychain") && str_contains(
            self.wal_journal_policy,
            "sqlite_wal_path",
        ) && str_contains(self.wal_journal_policy, "quarantine_corrupt_store") && str_contains(
            self.key_wrapping,
            "wrapped_data_key",
        ) && str_contains(self.key_wrapping, "data key zeroized") && str_contains(
            self.schema_migrations,
            "AppDbMigrationPlan",
        ) && str_contains(self.schema_migrations, "validate_observed_schema") && str_contains(
            self.secure_delete_limits,
            "best-effort",
        ) && str_contains(self.secure_delete_limits, "SSD") && str_contains(self.secure_delete_limits, "cloud snapshot")
            && any_mentions_both(&self.platform_differences, "Linux", "Secret Service") && any_mentions_both(
            &self.platform_differences,
            "MemoryAppDbKeychain",
            "non-production",
        )
    }
}

/// Return the launch storage/keychain decision.
pub fn storage_keychain_decision() -> (r: StorageKeychainDecision)
    ensures
        r.app_store_runtime@ == "EncryptedAppDb persists a serde_json envelope encrypted with AES-256-GCM; app DB does not persist plaintext SQLite pages."@,
        r.sqlite_schema_policy@ == "AppDbSchema and VERSION_1_DDL define the SQLite-compatible durable schema contract; OpenMLS protocol state uses openmls_sqlite_storage separately."@,
        r.encrypted_store_crates@.map_values(|s: &'static str| s@) == seq!["aes-gcm"@, "serde_json"@, "zeroize"@, "sha2"@, "hex"@],
        r.keychain_crate@ == "keyring 3.6.3 is optional behind production-storage; LinuxOsKeychain uses the default Secret Service sync provider; ProductionAppDbKeychain may use an Argon2id/AES-GCM PassphraseVaultKeychain when the user chooses password-vault storage or an explicit operator passphrase is configured; MemoryAppDbKeychain is restricted to tests/local/non-production builds."@,
        r.wal_journal_policy@ == "Encrypted envelope writes use temp-file plus rename; sqlite_wal_path, -shm, and -journal sidecars are leakage-checked or moved by quarantine_corrupt_store; no plaintext WAL is expected for EncryptedAppDb."@,
        r.key_wrapping@ == "A random data key encrypts payload bytes; the AppDbKeychain wrapping key wraps that data key into wrapped_data_key with nonces in the envelope; the data key zeroized after wrapping/decryption."@,
        r.schema_migrations@ == "AppDbMigrationPlan supports 0<->1 forward/backward/noop transitions, rejects future versions, and validate_observed_schema checks tables and columns before opening state."@,
        r.secure_delete_limits@ == "Secure delete is best-effort enumeration plus verification for local files/keychain entries and cannot promise erasure from SSD wear-leveling, backups, or cloud snapshot copies."@,
        r.platform_differences@.map_values(|s: &'static str| s@) == seq![
            "Linux production-storage uses keyring default Secret Service through LinuxOsKeychain when keyring mode is selected, or a user-unlocked PassphraseVaultKeychain when password-vault mode is selected."@,
            "Tests, harnesses, local-dev, and non-production builds may use MemoryAppDbKeychain only as a non-production boundary."@,
            "macOS, Windows, Android, and iOS require platform keychain adapters before any production-storage claim."@,
        ],
{
    let crates = vec!["aes-gcm", "serde_json", "zeroize", "sha2", "hex"];
    let platforms = vec![
        "Linux production-storage uses keyring default Secret Service through LinuxOsKeychain when keyring mode is selected, or a user-unlocked PassphraseVaultKeychain when password-vault mode is selected.",
        "Tests, harnesses, local-dev, and non-production builds may use MemoryAppDbKeychain only as a non-production boundary.",
        "macOS, Windows, Android, and iOS require platform keychain adapters before any production-storage claim.",
    ];
    let r = StorageKeychainDecision {
        app_store_runtime: "EncryptedAppDb persists a serde_json envelope encrypted with AES-256-GCM; app DB does not persist plaintext SQLite pages.",
        sqlite_schema_policy: "AppDbSchema and VERSION_1_DDL define the SQLite-compatible durable schema contract; OpenMLS protocol state uses openmls_sqlite_storage separately.",
        encrypted_store_crates: crates,
        keychain_crate: "keyring 3.6.3 is optional behind production-storage; LinuxOsKeychain uses the default Secret Service sync provider; ProductionAppDbKeychain may use an Argon2id/AES-GCM PassphraseVaultKeychain when the user chooses password-vault storage or an explicit operator passphrase is configured; MemoryAppDbKeychain is restricted to tests/local/non-production builds.",
        wal_journal_policy: "Encrypted envelope writes use temp-file plus rename; sqlite_wal_path, -shm, and -journal sidecars are leakage-checked or moved by quarantine_corrupt_store; no plaintext WAL is expected for EncryptedAppDb.",
        key_wrapping: "A random data key encrypts payload bytes; the AppDbKeychain wrapping key wraps that data key into wrapped_data_key with nonces in the envelope; the data key zeroized after wrapping/decryption.",
        schema_migrations: "AppDbMigrationPlan supports 0<->1 forward/backward/noop transitions, rejects future versions, and validate_observed_schema checks tables and columns before opening state.",
        secure_delete_limits: "Secure delete is best-effort enumeration plus verification for local files/keychain entries and cannot promise erasure from SSD wear-leveling, backups, or cloud snapshot copies.",
        platform_differences: platforms,
    };
    assert(r.encrypted_store_crates@.map_values(|s: &'static str| s@) =~= seq!["aes-gcm"@, "serde_json"@, "zeroize"@, "sha2"@, "hex"@]);
    assert(r.platform_differences@.map_values(|s: &'static str| s@) =~= seq![
        "Linux production-storage uses keyring default Secret Service through LinuxOsKeychain when keyring mode is selected, or a user-unlocked PassphraseVaultKeychain when password-vault mode is selected."@,
        "Tests, harnesses, local-dev, and non-production builds may use MemoryAppDbKeychain only as a non-production boundary."@,
        "macOS, Windows, Android, and iOS require platform keychain adapters before any production-storage claim."@,
    ]);
    r
}

// ---------------------------------------------------------------------------
// Keychain boundary.
// ---------------------------------------------------------------------------

/// Local keychain boundary used by the encrypted app DB.
///
/// Implementations keep the wrapping key in an OS/platform keychain or an
/// equivalent local-device secret store.
///
/// A keychain that keeps its keys as a plain map of ids to keys, and never
/// fails, says so through `is_plain_store`; its operations then act on
/// `held_keys` as a map does.
pub trait AppDbKeychain: Sized {
    /// Whether this keychain is a plain, infallible map of wrapping keys;
    /// keychains that say nothing are not.
    open spec fn is_plain_store(&self) -> bool {
        false
    }

    /// The wrapping keys by id, where this keychain is a plain store.
    open spec fn held_keys(&self) -> Map<Seq<char>, [u8; 32]> {
        Map::empty()
    }

    /// Load a wrapping key by stable key id.
    fn load_wrapping_key(&mut self, key_id: &str) -> (r: Result<Option<[u8; 32]>, AppStoreError>)
        ensures
            old(self).is_plain_store() ==> final(self).is_plain_store() && final(self).held_keys() == old(
                self,
            ).held_keys() && r == Ok::<Option<[u8; 32]>, AppStoreError>(key_lookup(old(self).held_keys(), key_id@)),
    ;

    /// Store a wrapping key by stable key id.
    fn store_wrapping_key(&mut self, key_id: &str, key: [u8; 32]) -> (r: Result<(), AppStoreError>)
        ensures
            old(self).is_plain_store() ==> final(self).is_plain_store() && r is Ok && final(self).held_keys()
                == old(self).held_keys().insert(key_id@, key),
    ;

    /// Delete a wrapping key by stable key id.
    fn delete_wrapping_key(&mut self, key_id: &str) -> (r: Result<(), AppStoreError>)
        ensures
            old(self).is_plain_store() ==> final(self).is_plain_store() && r is Ok && final(self).held_keys()
                == old(self).held_keys().remove(key_id@),
    ;
}

/// The key `m` holds under `id`, if any.
pub open spec fn key_lookup(m: Map<Seq<char>, [u8; 32]>, id: Seq<char>) -> Option<[u8; 32]> {
    if m.contains_key(id) {
        Some(m[id])
    } else {
        None
    }
}

/// Judge the reload step of a keychain preflight: the probe key must come
/// back byte for byte.
pub fn preflight_reload_check(loaded: Result<Option<[u8; 32]>, AppStoreError>, key_id: &str, test_key: [u8; 32]) -> (r: Result<(), AppStoreError>)
    ensures
        match loaded {
            Ok(Some(k)) => if k@ == test_key@ {
                r is Ok
            } else {
                r matches Err(AppStoreError::Crypto(m)) && m@ == "OS keyring preflight returned a different wrapping key"@
            },
            Ok(None) => r matches Err(AppStoreError::KeychainMissing(id)) && id@ == key_id@,
            Err(e) => r == Err::<(), AppStoreError>(e),
        },
{
    match loaded {
        Err(error) => Err(error),
        Ok(Some(k)) => {
            if crate::order::slice_eq(&k, &test_key) {
                Ok(())
            } else {
                Err(AppStoreError::Crypto("OS keyring preflight returned a different wrapping key"))
            }
        },
        Ok(None) => Err(AppStoreError::KeychainMissing(text(key_id))),
    }
}

/// Judge the final step of a keychain preflight: the probe key must be gone.
pub fn preflight_cleanup_check(reloaded: Result<Option<[u8; 32]>, AppStoreError>) -> (r: Result<(), AppStoreError>)
    ensures
        match reloaded {
            Ok(None) => r is Ok,
            Ok(Some(_)) => r matches Err(AppStoreError::Crypto(m)) && m@ == "OS keyring preflight probe key remained after delete"@,
            Err(e) => r == Err::<(), AppStoreError>(e),
        },
{
    match reloaded {
        Ok(None) => Ok(()),
        Ok(Some(_)) => Err(AppStoreError::Crypto("OS keyring preflight probe key remained after delete")),
        Err(error) => Err(error),
    }
}

/// Prove that a keychain can persist and reload a wrapping key: store a probe
/// key, reload and compare it, delete it, then check it is gone. A failed
/// reload still deletes the probe.
///
/// On a plain store the preflight succeeds and leaves the keychain as it was,
/// less any key it held under `key_id`.
pub fn preflight_app_db_keychain<K: AppDbKeychain>(keychain: &mut K, key_id: &str, test_key: [u8; 32]) -> (r: Result<(), AppStoreError>)
    ensures
        old(keychain).is_plain_store() ==> r is Ok && final(keychain).is_plain_store() && final(keychain).held_keys()
            == old(keychain).held_keys().remove(key_id@),
{
    match keychain.store_wrapping_key(key_id, test_key) {
        Ok(()) => {},
        Err(error) => {
            return Err(error);
        },
    }
    let loaded = keychain.load_wrapping_key(key_id);
    match preflight_reload_check(loaded, key_id, test_key) {
        Ok(()) => {},
        Err(error) => {
            let _ = keychain.delete_wrapping_key(key_id);
            return Err(error);
        },
    }
    match keychain.delete_wrapping_key(key_id) {
        Ok(()) => {},
        Err(error) => {
            return Err(error);
        },
    }
    let reloaded = keychain.load_wrapping_key(key_id);
    preflight_cleanup_check(reloaded)
}

/// In-memory keychain adapter for tests, harnesses and local development.
#[derive(Debug)]
pub struct MemoryAppDbKeychain {
    keys: KeyedList<[u8; 32]>,
}

impl MemoryAppDbKeychain {
    #[verifier::type_invariant]
    spec fn keychain_inv(self) -> bool {
        self.keys.wf()
    }

    /// Stored keys by id.
    pub closed spec fn key_map(&self) -> Map<Seq<char>, [u8; 32]> {
        self.keys.view_map()
    }

    /// An empty keychain.
    pub fn new() -> (r: Self)
        ensures
            r.key_map() == Map::<Seq<char>, [u8; 32]>::empty(),
    {
        let r = MemoryAppDbKeychain { keys: KeyedList::new() };
        assert(r.key_map() =~= Map::<Seq<char>, [u8; 32]>::empty());
        r
    }

    /// Insert or replace a wrapping key.
    pub fn insert_wrapping_key(&mut self, key_id: &str, key: [u8; 32]) -> (r: Result<(), AppStoreError>)
        ensures
            r is Ok,
            final(self).key_map() == old(self).key_map().insert(key_id@, key),
    {
        proof {
            use_type_invariant(&*self);
        }
        let mut keys = KeyedList::new();
        std::mem::swap(&mut keys, &mut self.keys);
        keys.upsert(text(key_id), key);
        self.keys = keys;
        Ok(())
    }

    /// The stored keys, as (id, key) pairs.
    pub fn snapshot_wrapping_keys(&self) -> (r: Result<Vec<(String, [u8; 32])>, AppStoreError>)
        ensures
            r matches Ok(v) && v@.len() == self.key_map().dom().len() && (forall|i: int| 0 <= i < v@.len() ==> self.key_map().contains_key(
                (#[trigger] v@[i]).0@,
            ) && self.key_map()[v@[i].0@] == v@[i].1) && (forall|k: Seq<char>| #[trigger] self.key_map().contains_key(k)
                ==> exists|i: int| 0 <= i < v@.len() && (#[trigger] v@[i]).0@ == k),
    {
        proof {
            use_type_invariant(self);
        }
        let mut out: Vec<(String, [u8; 32])> = Vec::new();
        let n = self.keys.items.len();
        let mut i: usize = 0;
        while i < n
            invariant
                n == self.keys.items@.len(),
                i <= n,
                out@.len() == i,
                forall|k: int| 0 <= k < i ==> (#[trigger] out@[k]).0@ == self.keys.items@[k].0@ && out@[k].1
                    == self.keys.items@[k].1,
            decreases n - i,
        {
            let key = self.keys.items[i].1;
            out.push((self.keys.items[i].0.clone(), key));
            i = i + 1;
        }
        proof {
            crate::keyed::lemma_view_map_len(&self.keys);
            assert forall|i: int| 0 <= i < out@.len() implies self.key_map().contains_key((#[trigger] out@[i]).0@)
                && self.key_map()[out@[i].0@] == out@[i].1 by {
                lemma_key_index(self.keys.items@, out@[i].0@);
                assert(self.keys.items@[i].0@ == out@[i].0@);
            }
            assert forall|k: Seq<char>| #[trigger] self.key_map().contains_key(k) implies exists|i: int| 0 <= i < out@.len()
                && (#[trigger] out@[i]).0@ == k by {
                let j = choose|j: int| 0 <= j < self.keys.items@.len() && (#[trigger] self.keys.items@[j]).0@ == k;
                assert(out@[j].0@ == k);
            }
        }
        Ok(out)
    }
}

impl AppDbKeychain for MemoryAppDbKeychain {
    open spec fn is_plain_store(&self) -> bool {
        true
    }

    open spec fn held_keys(&self) -> Map<Seq<char>, [u8; 32]> {
        self.key_map()
    }

    fn load_wrapping_key(&mut self, key_id: &str) -> (r: Result<Option<[u8; 32]>, AppStoreError>)
        ensures
            final(self).key_map() == old(self).key_map(),
            r matches Ok(v) && (if old(self).key_map().contains_key(key_id@) {
                v == Some(old(self).key_map()[key_id@])
            } else {
                v is None
            }),
    {
        proof {
            use_type_invariant(&*self);
        }
        match self.keys.get(key_id) {
            Some(k) => Ok(Some(*k)),
            None => Ok(None),
        }
    }

    fn store_wrapping_key(&mut self, key_id: &str, key: [u8; 32]) -> (r: Result<(), AppStoreError>)
        ensures
            r is Ok,
            final(self).key_map() == old(self).key_map().insert(key_id@, key),
    {
        proof {
            use_type_invariant(&*self);
        }
        let mut keys = KeyedList::new();
        std::mem::swap(&mut keys, &mut self.keys);
        keys.upsert(text(key_id), key);
        self.keys = keys;
        Ok(())
    }

    fn delete_wrapping_key(&mut self, key_id: &str) -> (r: Result<(), AppStoreError>)
        ensures
            r is Ok,
            final(self).key_map() == old(self).key_map().remove(key_id@),
    {
        proof {
            use_type_invariant(&*self);
        }
        let mut keys = KeyedList::new();
        std::mem::swap(&mut keys, &mut self.keys);
        let ghost before = keys;
        match keys.position(key_id) {
            Some(i) => {
                keys.remove_at(i);
                proof {
                    lemma_remove_view_map(before, i as int, keys);
                }
            },
            None => {
                assert(keys.view_map() =~= before.view_map().remove(key_id@));
            },
        }
        self.keys = keys;
        Ok(())
    }
}

proof fn lemma_remove_view_map(before: KeyedList<[u8; 32]>, i: int, after: KeyedList<[u8; 32]>)
    requires
        before.wf(),
        after.wf(),
        0 <= i < before.items@.len(),
        after.items@ == before.items@.remove(i),
    ensures
        after.view_map() == before.view_map().remove(before.items@[i].0@),
{
    let k0 = before.items@[i].0@;
    assert forall|k: Seq<char>| #[trigger] after.has(k) == (before.has(k) && k != k0) by {
        if after.has(k) {
            let j = choose|j: int| 0 <= j < after.items@.len() && (#[trigger] after.items@[j]).0@ == k;
            let jj = if j < i { j } else { j + 1 };
            assert(before.items@[jj].0@ == k);
        }
        if before.has(k) && k != k0 {
            let j = choose|j: int| 0 <= j < before.items@.len() && (#[trigger] before.items@[j]).0@ == k;
            assert(j != i);
            if j < i {
                assert(after.items@[j].0@ == k);
            } else {
                assert(after.items@[j - 1].0@ == k);
            }
        }
    }
    assert forall|k: Seq<char>| after.has(k) implies #[trigger] after.at(k) == before.at(k) by {
        lemma_key_index(after.items@, k);
        lemma_key_index(before.items@, k);
        let j = key_index(after.items@, k);
        let jj = if j < i { j } else { j + 1 };
        assert(before.items@[jj] == after.items@[j]);
    }
    assert(after.view_map() =~= before.view_map().remove(k0));
}

// ---------------------------------------------------------------------------
// Sealed envelope.
// ---------------------------------------------------------------------------

/// Encrypted envelope persisted on disk: format tag, key id, the wrapped data
/// key with its nonce, and the ciphertext with its nonce.
#[derive(Clone, Debug, Eq, PartialEq)]
pub struct EncryptedAppDbEnvelope {
    /// Envelope format tag.
    pub format: String,
    /// Keychain id of the wrapping key.
    pub key_id: String,
    /// Nonce of the wrapped data key.
    pub wrapped_key_nonce: [u8; 12],
    /// Data key sealed under the wrapping key.
    pub wrapped_data_key: Vec<u8>,
    /// Nonce of the ciphertext.
    pub data_nonce: [u8; 12],
    /// App state sealed under the data key.
    pub ciphertext: Vec<u8>,
}

/// Why an envelope is refused before decryption.
pub open spec fn envelope_fault(e: EncryptedAppDbEnvelope) -> Option<Seq<char>> {
    if e.format@ != ENVELOPE_FORMAT@ {
        Some("unsupported encrypted app db envelope"@)
    } else if e.key_id@.len() == 0 {
        Some("encrypted app db envelope has no key id"@)
    } else {
        None
    }
}

/// `r` is the crypto error with message `m`.
pub open spec fn crypto_error<T>(r: Result<T, AppStoreError>, m: Seq<char>) -> bool {
    r matches Err(AppStoreError::Crypto(x)) && x@ == m
}

impl EncryptedAppDbEnvelope {
    /// Check the format tag and that a key id is present.
    pub fn validate(&self) -> (r: Result<(), AppStoreError>)
        ensures
            match envelope_fault(*self) {
                None => r is Ok,
                Some(m) => crypto_error(r, m),
            },
    {
        if !str_equal(self.format.as_str(), ENVELOPE_FORMAT) {
            return Err(AppStoreError::Crypto("unsupported encrypted app db envelope"));
        }
        if self.key_id.unicode_len() == 0 {
            return Err(AppStoreError::Crypto("encrypted app db envelope has no key id"));
        }
        Ok(())
    }
}

/// What opening an envelope under a wrapping key gives: the state bytes, or
/// the refusal's message.
pub open spec fn open_app_state_result(e: EncryptedAppDbEnvelope, wrapping_key: Seq<u8>) -> Result<Seq<u8>, Seq<char>> {
    match envelope_fault(e) {
        Some(m) => Err(m),
        None => match aes256gcm_open(wrapping_key, e.wrapped_key_nonce@, e.wrapped_data_key@, Seq::empty()) {
            None => Err("app db decryption failed"@),
            Some(data_key) => if data_key.len() != 32 {
                Err("invalid encryption key"@)
            } else {
                match aes256gcm_open(data_key, e.data_nonce@, e.ciphertext@, Seq::empty()) {
                    None => Err("app db decryption failed"@),
                    Some(p) => Ok(p),
                }
            },
        },
    }
}

pub(crate) fn key_array(v: &Vec<u8>) -> (r: [u8; 32])
    requires
        v@.len() == 32,
    ensures
        r@ == v@,
{
    let a = [
        v[0], v[1], v[2], v[3], v[4], v[5], v[6], v[7], v[8], v[9], v[10], v[11], v[12], v[13], v[14], v[15],
        v[16], v[17], v[18], v[19], v[20], v[21], v[22], v[23], v[24], v[25], v[26], v[27], v[28], v[29], v[30],
        v[31],
    ];
    assert(a@ =~= v@);
    a
}

/// Open an envelope with the wrapping key and return the app-state bytes.
pub fn open_app_state(envelope: &EncryptedAppDbEnvelope, wrapping_key: &[u8; 32]) -> (r: Result<Vec<u8>, AppStoreError>)
    ensures
        match open_app_state_result(*envelope, wrapping_key@) {
            Ok(p) => r matches Ok(v) && v@ == p,
            Err(m) => crypto_error(r, m),
        },
{
    match envelope.validate() {
        Ok(()) => {},
        Err(e) => {
            return Err(e);
        },
    }
    let empty: Vec<u8> = Vec::new();
    assert(empty@ =~= Seq::<u8>::empty());
    let data_key = match aes256gcm_decrypt(
        wrapping_key,
        &envelope.wrapped_key_nonce,
        envelope.wrapped_data_key.as_slice(),
        empty.as_slice(),
    ) {
        Some(k) => k,
        None => {
            return Err(AppStoreError::Crypto("app db decryption failed"));
        },
    };
    if data_key.len() != 32 {
        return Err(AppStoreError::Crypto("invalid encryption key"));
    }
    let data_key = key_array(&data_key);
    match aes256gcm_decrypt(&data_key, &envelope.data_nonce, envelope.ciphertext.as_slice(), empty.as_slice()) {
        Some(p) => Ok(p),
        None => Err(AppStoreError::Crypto("app db decryption failed")),
    }
}

/// Seal app-state bytes with a given data key and nonces.
///
/// The data key is wrapped under the wrapping key; the bytes are sealed under
/// the data key. State beyond AES-GCM's input limit fails. Whatever is sealed
/// opens again to the same bytes under the same wrapping key.
pub fn seal_app_state_with(
    wrapping_key: &[u8; 32],
    key_id: &str,
    data_key: [u8; 32],
    wrapped_key_nonce: [u8; 12],
    data_nonce: [u8; 12],
    bytes: &[u8],
) -> (r: Result<EncryptedAppDbEnvelope, AppStoreError>)
    ensures
        r is Ok <==> bytes@.len() <= AES_GCM_MAX_INPUT,
        r is Err ==> crypto_error(r, "app db encryption failed"@),
        r matches Ok(e) ==> {
            &&& e.format@ == ENVELOPE_FORMAT@
            &&& e.key_id@ == key_id@
            &&& e.wrapped_key_nonce == wrapped_key_nonce
            &&& e.data_nonce == data_nonce
            &&& e.wrapped_data_key@ == aes256gcm_seal(wrapping_key@, wrapped_key_nonce@, data_key@, Seq::empty())
            &&& e.ciphertext@ == aes256gcm_seal(data_key@, data_nonce@, bytes@, Seq::empty())
        },
        r is Ok && key_id@.len() > 0 ==> open_app_state_result(r->Ok_0, wrapping_key@) == Ok::<Seq<u8>, Seq<char>>(bytes@),
{
    let empty: Vec<u8> = Vec::new();
    assert(empty@ =~= Seq::<u8>::empty());
    let wrapped = match aes256gcm_encrypt(wrapping_key, &wrapped_key_nonce, &data_key, empty.as_slice()) {
        Some(c) => c,
        None => {
            return Err(AppStoreError::Crypto("app db encryption failed"));
        },
    };
    let ciphertext = match aes256gcm_encrypt(&data_key, &data_nonce, bytes, empty.as_slice()) {
        Some(c) => c,
        None => {
            return Err(AppStoreError::Crypto("app db encryption failed"));
        },
    };
    let e = EncryptedAppDbEnvelope {
        format: text(ENVELOPE_FORMAT),
        key_id: text(key_id),
        wrapped_key_nonce,
        wrapped_data_key: wrapped,
        data_nonce,
        ciphertext,
    };
    Ok(e)
}

/// Seal app-state bytes with a fresh random data key and nonces.
///
/// Besides the refusal of [`seal_app_state_with`], sealing fails when the
/// operating-system generator yields no key material.
pub fn seal_app_state(wrapping_key: &[u8; 32], key_id: &str, bytes: &[u8]) -> (r: Result<EncryptedAppDbEnvelope, AppStoreError>)
    ensures
        r is Ok ==> bytes@.len() <= AES_GCM_MAX_INPUT,
        bytes@.len() > AES_GCM_MAX_INPUT ==> r is Err,
        r matches Ok(e) ==> e.format@ == ENVELOPE_FORMAT@ && e.key_id@ == key_id@,
        r is Ok && key_id@.len() > 0 ==> open_app_state_result(r->Ok_0, wrapping_key@) == Ok::<Seq<u8>, Seq<char>>(bytes@),
        r is Err ==> crypto_error(r, "app db random generator failed"@) || crypto_error(r, "app db encryption failed"@),
{
    let data_key = match os_random_bytes(32) {
        Some(v) => key_array(&v),
        None => {
            return Err(AppStoreError::Crypto("app db random generator failed"));
        },
    };
    let wrapped_key_nonce = match os_random_bytes(12) {
        Some(v) => nonce_array(&v),
        None => {
            return Err(AppStoreError::Crypto("app db random generator failed"));
        },
    };
    let data_nonce = match os_random_bytes(12) {
        Some(v) => nonce_array(&v),
        None => {
            return Err(AppStoreError::Crypto("app db random generator failed"));
        },
    };
    seal_app_state_with(wrapping_key, key_id, data_key, wrapped_key_nonce, data_nonce, bytes)
}

/// What to do about the wrapping key before saving.
#[derive(Debug)]
pub enum WrappingKeyStep {
    /// Use the key the keychain returned.
    Use([u8; 32]),
    /// No key exists and no store exists yet: create and store a fresh key.
    Create,
    /// Fail: an existing store cannot be re-keyed silently.
    Fail(AppStoreError),
}

/// Decide the wrapping key for a save from the keychain's answer and whether
/// an encrypted store already exists on disk.
pub fn wrapping_key_step(loaded: Result<Option<[u8; 32]>, AppStoreError>, store_exists: bool, key_id: &str) -> (r: WrappingKeyStep)
    ensures
        match loaded {
            Ok(Some(k)) => r matches WrappingKeyStep::Use(x) && x == k,
            Ok(None) => if store_exists {
                r matches WrappingKeyStep::Fail(AppStoreError::KeychainMissing(id)) && id@ == key_id@
            } else {
                r is Create
            },
            Err(e) => if store_exists {
                r == WrappingKeyStep::Fail(e)
            } else {
                r is Create
            },
        },
{
    match loaded {
        Ok(Some(key)) => WrappingKeyStep::Use(key),
        Ok(None) => if store_exists {
            WrappingKeyStep::Fail(AppStoreError::KeychainMissing(text(key_id)))
        } else {
            WrappingKeyStep::Create
        },
        Err(error) => if store_exists {
            WrappingKeyStep::Fail(error)
        } else {
            WrappingKeyStep::Create
        },
    }
}

/// Require the wrapping key an envelope names.
pub fn require_wrapping_key(loaded: Result<Option<[u8; 32]>, AppStoreError>, key_id: &str) -> (r: Result<[u8; 32], AppStoreError>)
    ensures
        match loaded {
            Ok(Some(k)) => r matches Ok(x) && x == k,
            Ok(None) => r matches Err(AppStoreError::KeychainMissing(id)) && id@ == key_id@,
            Err(e) => r == Err::<[u8; 32], AppStoreError>(e),
        },
{
    match loaded {
        Ok(Some(key)) => Ok(key),
        Ok(None) => Err(AppStoreError::KeychainMissing(text(key_id))),
        Err(error) => Err(error),
    }
}

/// A fresh random wrapping key, or `None` when the generator fails.
pub fn random_wrapping_key() -> (r: Option<[u8; 32]>)
{
    match os_random_bytes(32) {
        Some(v) => Some(key_array(&v)),
        None => None,
    }
}

} // verus!

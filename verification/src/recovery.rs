//! Sealed account-continuity backups and account recovery.
//!
//! Recovery restores identity continuity (rooms, device count) and never
//! archival content keys; it always requires trust material.
use vstd::prelude::*;
use vstd::utf8::*;
use crate::digest::{be64, push_be64, push_bytes, push_str_bytes, sha256, sha256_of};
use crate::order::slice_eq;
use crate::text::{all_ws, decimal, decimal_spec, join2, only_ws, str_equal, text, trim_spec, trim_text, lemma_trim_empty, lemma_trim_idempotent};
use crate::text_set::{insert_sorted_unique, string_set, strings_sorted};

verus! {

/// Domain separator of sealed account backups.
pub const SEALED_ACCOUNT_BACKUP_DOMAIN: &'static str = "discrypt:v1:sealed-account-backup";

/// Domain separator of recovery-code hashes.
pub const RECOVERY_CODE_DOMAIN: &'static str = "discrypt:v1:account-recovery-code";

/// Backup envelope version written by this library.
pub const ACCOUNT_BACKUP_EXPORT_VERSION: u16 = 1;

/// Recovery errors.
#[derive(Clone, Debug, Eq, PartialEq)]
pub enum RecoveryError {
    /// No authorized device, recovery code, or backup exists.
    NoTrustMaterial,
    /// Empty recovery codes are rejected before hashing.
    EmptyRecoveryCode,
    /// The supplied recovery code does not match the stored verifier.
    InvalidRecoveryCode,
    /// This backup requires the explicit recovery-code restore path.
    RecoveryCodeRequired,
    /// Serialized backup bytes could not be parsed.
    MalformedBackup {
        /// Parse or shape error.
        reason: String,
    },
    /// Backup envelope version is not supported.
    UnsupportedBackupVersion {
        /// Unsupported envelope version.
        version: u16,
    },
    /// Backup metadata is missing required backend evidence.
    InvalidBackupMetadata(String),
    /// The backup came from a compromised-device flow and requires rotation.
    DeviceRotationRequired {
        /// Device id that must be evicted/rotated before restore.
        compromised_device_id: String,
    },
}

impl RecoveryError {
    /// Human-readable description of the error.
    pub fn message(&self) -> (r: String)
        ensures
            self is NoTrustMaterial ==> r@ == "account recovery requires trust material"@,
            self is EmptyRecoveryCode ==> r@ == "recovery code cannot be empty"@,
            self is InvalidRecoveryCode ==> r@ == "recovery code did not match account verifier"@,
            self is RecoveryCodeRequired ==> r@ == "recovery code is required before restoring this backup"@,
            self matches RecoveryError::MalformedBackup { reason } ==> r@ == "account backup is malformed: "@ + reason@,
            self matches RecoveryError::UnsupportedBackupVersion { version } ==> r@ == "account backup version "@
                + decimal_spec(version as nat) + " is unsupported"@,
            self matches RecoveryError::InvalidBackupMetadata(m) ==> r@ == "account backup metadata is invalid: "@ + m@,
            self matches RecoveryError::DeviceRotationRequired { compromised_device_id } ==> r@
                == "device rotation is required before recovery: "@ + compromised_device_id@,
    {
        match self {
            RecoveryError::NoTrustMaterial => text("account recovery requires trust material"),
            RecoveryError::EmptyRecoveryCode => text("recovery code cannot be empty"),
            RecoveryError::InvalidRecoveryCode => text("recovery code did not match account verifier"),
            RecoveryError::RecoveryCodeRequired => text("recovery code is required before restoring this backup"),
            RecoveryError::MalformedBackup { reason } => join2("account backup is malformed: ", reason.as_str()),
            RecoveryError::UnsupportedBackupVersion { version } => {
                let digits = decimal(*version as u64);
                let mut r = join2("account backup version ", digits.as_str());
                r.append(" is unsupported");
                r
            },
            RecoveryError::InvalidBackupMetadata(m) => join2("account backup metadata is invalid: ", m.as_str()),
            RecoveryError::DeviceRotationRequired { compromised_device_id } => join2(
                "device rotation is required before recovery: ",
                compromised_device_id.as_str(),
            ),
        }
    }
}

/// Why a restore or recovery is refused.
pub enum RecoveryFault {
    NoTrustMaterial,
    EmptyRecoveryCode,
    InvalidRecoveryCode,
    RecoveryCodeRequired,
    UnsupportedBackupVersion(u16),
    InvalidBackupMetadata(Seq<char>),
    DeviceRotationRequired(Seq<char>),
}

/// `r` is the error that reports `f`.
pub open spec fn reports_recovery<T>(r: Result<T, RecoveryError>, f: RecoveryFault) -> bool {
    match f {
        RecoveryFault::NoTrustMaterial => r matches Err(RecoveryError::NoTrustMaterial),
        RecoveryFault::EmptyRecoveryCode => r matches Err(RecoveryError::EmptyRecoveryCode),
        RecoveryFault::InvalidRecoveryCode => r matches Err(RecoveryError::InvalidRecoveryCode),
        RecoveryFault::RecoveryCodeRequired => r matches Err(RecoveryError::RecoveryCodeRequired),
        RecoveryFault::UnsupportedBackupVersion(v) => r matches Err(RecoveryError::UnsupportedBackupVersion { version })
            && version == v,
        RecoveryFault::InvalidBackupMetadata(m) => r matches Err(RecoveryError::InvalidBackupMetadata(x)) && x@ == m,
        RecoveryFault::DeviceRotationRequired(d) => r matches Err(RecoveryError::DeviceRotationRequired { compromised_device_id })
            && compromised_device_id@ == d,
    }
}

/// Sealed account-continuity backup (no content keys).
#[derive(Clone, Debug, Eq, PartialEq)]
pub struct AccountBackup {
    /// Wrapped identity key bytes.
    pub identity_key_ciphertext: Vec<u8>,
    /// Room memberships restored for account continuity.
    pub room_memberships: Vec<String>,
    /// Device count in the backed-up device set.
    pub device_count: usize,
}

/// User-visible account-continuity backup recovery method.
#[derive(Clone, Copy, Debug, Eq, PartialEq, Structural)]
pub enum AccountBackupRecoveryMethod {
    /// Another already-authorized own device exported the backup.
    ExistingDevice,
    /// User-held recovery code is required before the backup is restored.
    RecoveryCode,
    /// The backup itself is the sealed account-continuity trust material.
    SealedBackup,
}

/// Persisted backup metadata that survives export/import and restart.
#[derive(Clone, Debug, Eq, PartialEq)]
pub struct AccountBackupMetadata {
    /// Backup envelope version.
    pub version: u16,
    /// Creation time recorded by the backend caller.
    pub created_at_ms: u64,
    /// Backend-proven own device that exported the backup.
    pub exported_by_device_id: String,
    /// Recovery method required by this backup.
    pub recovery_method: AccountBackupRecoveryMethod,
    /// Compromised device that must be rotated before account continuity is restored.
    pub compromised_device_id: Option<String>,
    /// True when restore must fail until caller supplies device-rotation evidence.
    pub device_rotation_required: bool,
}

/// Versioned account-continuity backup export.
#[derive(Clone, Debug, Eq, PartialEq)]
pub struct AccountBackupExport {
    /// Persisted recovery metadata.
    pub metadata: AccountBackupMetadata,
    /// Sealed account-continuity backup. This never contains archival content keys.
    pub backup: AccountBackup,
}

/// Persistable verifier for a user-held recovery code; the raw code is not stored.
#[derive(Clone, Copy, Debug, Eq, PartialEq)]
pub struct RecoveryCodeVerifier {
    /// Domain-separated hash of the normalized recovery code.
    pub code_hash: [u8; 32],
}

/// Recovery material available to a user.
#[derive(Clone, Debug, Eq, PartialEq)]
pub enum RecoveryMaterial {
    /// Existing authorized device participates.
    ExistingDevice { device_id: String },
    /// User-held recovery code has been verified against a stored verifier.
    RecoveryCode {
        /// Matched recovery-code hash. The raw code is never stored.
        code_hash: [u8; 32],
        /// Room memberships restored for account continuity.
        room_memberships: Vec<String>,
        /// Device count in the recovered device set.
        device_count: usize,
    },
    /// Sealed account-continuity backup.
    SealedBackup(AccountBackup),
    /// No remaining trust material.
    NoMaterial,
}

/// Account-continuity recovery result.
#[derive(Clone, Debug, Eq, PartialEq)]
pub struct AccountRecovery {
    /// Identity/device-set continuity is restored.
    pub account_access_restored: bool,
    /// Room memberships restored.
    pub room_memberships: Vec<String>,
    /// Device count from continuity material.
    pub device_count: usize,
    /// Content keys are deliberately not restored.
    pub content_keys_restored: bool,
}

// ---------------------------------------------------------------------------
// Normalization.
// ---------------------------------------------------------------------------

/// Trimmed room names that are not empty.
pub open spec fn room_set(rooms: Seq<String>) -> Set<Seq<char>> {
    rooms.map_values(|r: String| trim_spec(r@)).to_set().filter(|t: Seq<char>| t.len() > 0)
}

/// A device count of at least one.
pub open spec fn at_least_one(n: usize) -> usize {
    if n == 0 { 1 } else { n }
}

/// `rooms` is the sorted, duplicate-free list of the trimmed non-empty names.
pub open spec fn normalized_rooms(out: Seq<String>, rooms: Seq<String>) -> bool {
    strings_sorted(out) && string_set(out) == room_set(rooms)
}

fn normalize_account_continuity(rooms: Vec<String>, device_count: usize) -> (r: (Vec<String>, usize))
    ensures
        normalized_rooms(r.0@, rooms@),
        r.1 == at_least_one(device_count),
{
    let mut out: Vec<String> = Vec::new();
    let n = rooms.len();
    let mut i: usize = 0;
    assert(rooms@.take(0).map_values(|r: String| trim_spec(r@)).to_set() =~= Set::<Seq<char>>::empty());
    assert(string_set(out@) =~= room_set(rooms@.take(0)));
    while i < n
        invariant
            n == rooms@.len(),
            i <= n,
            strings_sorted(out@),
            string_set(out@) == room_set(rooms@.take(i as int)),
        decreases n - i,
    {
        let t = trim_text(rooms[i].as_str());
        let ghost pre = rooms@.take(i as int);
        let ghost tv = trim_spec(rooms@[i as int]@);
        proof {
            let f = |r: String| trim_spec(r@);
            assert(rooms@.take(i + 1) =~= pre.push(rooms@[i as int]));
            assert(rooms@.take(i + 1).map_values(f) =~= pre.map_values(f) + seq![tv]);
            Seq::lemma_to_set_insert_commutes(pre.map_values(f), tv);
        }
        if t.unicode_len() > 0 {
            insert_sorted_unique(&mut out, t.as_str());
            assert(string_set(out@) =~= room_set(rooms@.take(i + 1)));
        } else {
            assert(string_set(out@) =~= room_set(rooms@.take(i + 1)));
        }
        i = i + 1;
    }
    assert(rooms@.take(n as int) =~= rooms@);
    (out, if device_count == 0 { 1 } else { device_count })
}

/// Normalizing already normalized rooms changes nothing.
pub proof fn lemma_renormalize(x: Seq<String>, rooms: Seq<String>)
    requires
        normalized_rooms(x, rooms),
    ensures
        room_set(x) == room_set(rooms),
{
    let f = |r: String| trim_spec(r@);
    let g = |y: String| y@;
    assert(room_set(x) =~= string_set(x)) by {
        assert forall|t: Seq<char>| room_set(x).contains(t) == string_set(x).contains(t) by {
            if x.map_values(f).contains(t) {
                let k = choose|k: int| 0 <= k < x.len() && #[trigger] x.map_values(f)[k] == t;
                let v = x[k]@;
                assert(x.map_values(g)[k] == v);
                assert(room_set(rooms).contains(v));
                let j = choose|j: int| 0 <= j < rooms.len() && #[trigger] rooms.map_values(f)[j] == v;
                lemma_trim_idempotent(rooms[j]@);
                assert(t == v);
            }
            if string_set(x).contains(t) {
                let xs = x.map_values(g);
                let k = choose|k: int| 0 <= k < x.len() && #[trigger] xs[k] == t;
                assert(room_set(rooms).contains(t));
                let j = choose|j: int| 0 <= j < rooms.len() && #[trigger] rooms.map_values(f)[j] == t;
                lemma_trim_idempotent(rooms[j]@);
                assert(x.map_values(f)[k] == t);
            }
        }
    }
}

/// `r` restores continuity for `rooms` and `device_count`, without content keys.
pub open spec fn restores(r: AccountRecovery, rooms: Seq<String>, device_count: usize) -> bool {
    &&& r.account_access_restored
    &&& !r.content_keys_restored
    &&& normalized_rooms(r.room_memberships@, rooms)
    &&& r.device_count == at_least_one(device_count)
}

fn account_continuity_recovery(rooms: Vec<String>, device_count: usize) -> (r: AccountRecovery)
    ensures
        restores(r, rooms@, device_count),
{
    let (room_memberships, device_count) = normalize_account_continuity(rooms, device_count);
    AccountRecovery { account_access_restored: true, room_memberships, device_count, content_keys_restored: false }
}

/// Trimmed, required device id.
fn normalize_required_id(id: &str) -> (r: Result<String, RecoveryError>)
    ensures
        all_ws(id@) ==> reports_recovery(r, RecoveryFault::InvalidBackupMetadata("device id is required"@)),
        !all_ws(id@) ==> (r matches Ok(s) && s@ == trim_spec(id@)),
{
    let t = trim_text(id);
    proof {
        lemma_trim_empty(id@);
    }
    if t.unicode_len() == 0 {
        return Err(RecoveryError::InvalidBackupMetadata(text("device id is required")));
    }
    Ok(t)
}

// ---------------------------------------------------------------------------
// Recovery codes.
// ---------------------------------------------------------------------------

/// Bytes hashed for a recovery-code verifier: domain, byte length of the
/// trimmed code (big-endian u64), then the trimmed code.
pub open spec fn recovery_hash_input(code: Seq<char>) -> Seq<u8> {
    encode_utf8(RECOVERY_CODE_DOMAIN@) + be64(encode_utf8(trim_spec(code)).len() as u64) + encode_utf8(trim_spec(code))
}

/// The verifier hash of a recovery code.
pub open spec fn recovery_hash(code: Seq<char>) -> Seq<u8> {
    sha256_of(recovery_hash_input(code))
}

fn hash_recovery_code(code: &str) -> (r: Result<[u8; 32], RecoveryError>)
    ensures
        all_ws(code@) ==> r matches Err(RecoveryError::EmptyRecoveryCode),
        !all_ws(code@) ==> (r matches Ok(h) && h@ == recovery_hash(code@)),
{
    let normalized = trim_text(code);
    proof {
        lemma_trim_empty(code@);
    }
    if normalized.unicode_len() == 0 {
        return Err(RecoveryError::EmptyRecoveryCode);
    }
    let mut input: Vec<u8> = Vec::new();
    push_str_bytes(&mut input, RECOVERY_CODE_DOMAIN);
    let len = normalized.as_str().as_bytes().len();
    push_be64(&mut input, len as u64);
    push_str_bytes(&mut input, normalized.as_str());
    assert(input@ =~= recovery_hash_input(code@));
    Ok(sha256(input.as_slice()))
}

impl RecoveryCodeVerifier {
    /// Build a recovery-code verifier without retaining the raw code.
    pub fn from_code(code: &str) -> (r: Result<Self, RecoveryError>)
        ensures
            all_ws(code@) ==> r matches Err(RecoveryError::EmptyRecoveryCode),
            !all_ws(code@) ==> (r matches Ok(v) && v.code_hash@ == recovery_hash(code@)),
    {
        match hash_recovery_code(code) {
            Ok(h) => Ok(RecoveryCodeVerifier { code_hash: h }),
            Err(e) => Err(e),
        }
    }

    /// Check whether a user-supplied code matches this verifier.
    pub fn verifies(&self, code: &str) -> (b: bool)
        ensures
            b == (!all_ws(code@) && recovery_hash(code@) == self.code_hash@),
    {
        match hash_recovery_code(code) {
            Ok(h) => slice_eq(&h, &self.code_hash),
            Err(_) => false,
        }
    }
}

/// Build verified recovery material from a user-held code and persisted verifier.
///
/// The material carries account-continuity metadata only; content keys are
/// not accepted here and so can never be restored.
pub fn recovery_code_material(code: &str, verifier: &RecoveryCodeVerifier, rooms: Vec<String>, device_count: usize) -> (r: Result<RecoveryMaterial, RecoveryError>)
    ensures
        !(!all_ws(code@) && recovery_hash(code@) == verifier.code_hash@) ==> reports_recovery(r, RecoveryFault::InvalidRecoveryCode),
        (!all_ws(code@) && recovery_hash(code@) == verifier.code_hash@) ==> (r matches Ok(RecoveryMaterial::RecoveryCode {
            code_hash,
            room_memberships,
            device_count: count,
        }) && code_hash == verifier.code_hash && normalized_rooms(room_memberships@, rooms@) && count == at_least_one(device_count)),
{
    if !verifier.verifies(code) {
        return Err(RecoveryError::InvalidRecoveryCode);
    }
    let (room_memberships, device_count) = normalize_account_continuity(rooms, device_count);
    Ok(RecoveryMaterial::RecoveryCode { code_hash: verifier.code_hash, room_memberships, device_count })
}

/// Build recovery material for an explicit lost-password flow.
///
/// Without both a stored verifier and a user-supplied recovery code, account
/// recovery fails closed.
pub fn lost_password_recovery_material(
    code: Option<&str>,
    verifier: Option<&RecoveryCodeVerifier>,
    rooms: Vec<String>,
    device_count: usize,
) -> (r: Result<RecoveryMaterial, RecoveryError>)
    ensures
        (code is None || verifier is None) ==> reports_recovery(r, RecoveryFault::NoTrustMaterial),
        (code matches Some(c) && verifier matches Some(v) && !(!all_ws(c@) && recovery_hash(c@) == v.code_hash@))
            ==> reports_recovery(r, RecoveryFault::InvalidRecoveryCode),
        (code is Some && verifier is Some && !all_ws(code->Some_0@) && recovery_hash(code->Some_0@)
            == verifier->Some_0.code_hash@) ==> (r matches Ok(RecoveryMaterial::RecoveryCode {
            code_hash,
            room_memberships,
            device_count: count,
        }) && code_hash == verifier->Some_0.code_hash && normalized_rooms(room_memberships@, rooms@) && count
            == at_least_one(device_count)),
{
    match (code, verifier) {
        (Some(code), Some(verifier)) => recovery_code_material(code, verifier, rooms, device_count),
        _ => Err(RecoveryError::NoTrustMaterial),
    }
}

/// What recovering from `m` restores, or `None` when it holds no trust material.
pub open spec fn recovery_outcome(r: Result<AccountRecovery, RecoveryError>, m: RecoveryMaterial) -> bool {
    match m {
        RecoveryMaterial::NoMaterial => reports_recovery(r, RecoveryFault::NoTrustMaterial),
        RecoveryMaterial::ExistingDevice { .. } => r matches Ok(a) && restores(a, Seq::empty(), 1),
        RecoveryMaterial::RecoveryCode { room_memberships, device_count, .. } => r matches Ok(a) && restores(
            a,
            room_memberships@,
            device_count,
        ),
        RecoveryMaterial::SealedBackup(b) => r matches Ok(a) && restores(a, b.room_memberships@, b.device_count),
    }
}

/// Recover account continuity without restoring archival content keys.
pub fn recover_account(material: RecoveryMaterial) -> (r: Result<AccountRecovery, RecoveryError>)
    ensures
        recovery_outcome(r, material),
        r matches Ok(a) ==> a.account_access_restored && !a.content_keys_restored,
{
    match material {
        RecoveryMaterial::NoMaterial => Err(RecoveryError::NoTrustMaterial),
        RecoveryMaterial::ExistingDevice { .. } => Ok(account_continuity_recovery(Vec::new(), 1)),
        RecoveryMaterial::RecoveryCode { room_memberships, device_count, .. } => Ok(
            account_continuity_recovery(room_memberships, device_count),
        ),
        RecoveryMaterial::SealedBackup(backup) => Ok(
            account_continuity_recovery(backup.room_memberships, backup.device_count),
        ),
    }
}

// ---------------------------------------------------------------------------
// Sealed backups and exports.
// ---------------------------------------------------------------------------

/// Bytes hashed into the sealed identity material.
pub open spec fn sealed_backup_input(key: Seq<u8>) -> Seq<u8> {
    encode_utf8(SEALED_ACCOUNT_BACKUP_DOMAIN@) + key
}

/// Seal account-continuity data without content keys.
pub fn seal_account_backup(key: &[u8; 32], rooms: Vec<String>, device_count: usize) -> (r: AccountBackup)
    ensures
        r.identity_key_ciphertext@ == sha256_of(sealed_backup_input(key@)),
        r.identity_key_ciphertext@.len() == 32,
        normalized_rooms(r.room_memberships@, rooms@),
        r.device_count == at_least_one(device_count),
{
    let mut input: Vec<u8> = Vec::new();
    push_str_bytes(&mut input, SEALED_ACCOUNT_BACKUP_DOMAIN);
    push_bytes(&mut input, key);
    assert(input@ =~= sealed_backup_input(key@));
    let digest = sha256(input.as_slice());
    let mut identity: Vec<u8> = Vec::new();
    push_bytes(&mut identity, &digest);
    assert(identity@ =~= digest@);
    let (room_memberships, device_count) = normalize_account_continuity(rooms, device_count);
    AccountBackup { identity_key_ciphertext: identity, room_memberships, device_count }
}

/// Create a versioned account-continuity backup export without content keys.
pub fn export_account_backup(
    key: &[u8; 32],
    rooms: Vec<String>,
    device_count: usize,
    exported_by_device_id: &str,
    recovery_method: AccountBackupRecoveryMethod,
    created_at_ms: u64,
) -> (r: Result<AccountBackupExport, RecoveryError>)
    ensures
        all_ws(exported_by_device_id@) ==> reports_recovery(r, RecoveryFault::InvalidBackupMetadata("device id is required"@)),
        !all_ws(exported_by_device_id@) ==> (r matches Ok(e) && {
            &&& e.metadata.version == ACCOUNT_BACKUP_EXPORT_VERSION
            &&& e.metadata.created_at_ms == created_at_ms
            &&& e.metadata.exported_by_device_id@ == trim_spec(exported_by_device_id@)
            &&& e.metadata.recovery_method == recovery_method
            &&& e.metadata.compromised_device_id is None
            &&& !e.metadata.device_rotation_required
            &&& e.backup.identity_key_ciphertext@ == sha256_of(sealed_backup_input(key@))
            &&& normalized_rooms(e.backup.room_memberships@, rooms@)
            &&& e.backup.device_count == at_least_one(device_count)
        }),
{
    let exported_by_device_id = match normalize_required_id(exported_by_device_id) {
        Ok(id) => id,
        Err(e) => {
            return Err(e);
        },
    };
    Ok(AccountBackupExport {
        metadata: AccountBackupMetadata {
            version: ACCOUNT_BACKUP_EXPORT_VERSION,
            created_at_ms,
            exported_by_device_id,
            recovery_method,
            compromised_device_id: None,
            device_rotation_required: false,
        },
        backup: seal_account_backup(key, rooms, device_count),
    })
}

/// Create a backup export for a compromised-device recovery path.
///
/// Restoring it fails closed until the caller supplies replacement-device
/// rotation evidence through [`restore_account_backup_after_device_rotation`].
pub fn export_device_compromise_backup(
    key: &[u8; 32],
    rooms: Vec<String>,
    device_count: usize,
    exported_by_device_id: &str,
    compromised_device_id: &str,
    created_at_ms: u64,
) -> (r: Result<AccountBackupExport, RecoveryError>)
    ensures
        (all_ws(exported_by_device_id@) || all_ws(compromised_device_id@)) ==> reports_recovery(
            r,
            RecoveryFault::InvalidBackupMetadata("device id is required"@),
        ),
        !all_ws(exported_by_device_id@) && !all_ws(compromised_device_id@) ==> (r matches Ok(e) && {
            &&& e.metadata.version == ACCOUNT_BACKUP_EXPORT_VERSION
            &&& e.metadata.created_at_ms == created_at_ms
            &&& e.metadata.exported_by_device_id@ == trim_spec(exported_by_device_id@)
            &&& e.metadata.recovery_method == AccountBackupRecoveryMethod::ExistingDevice
            &&& e.metadata.compromised_device_id matches Some(c) && c@ == trim_spec(compromised_device_id@)
            &&& e.metadata.device_rotation_required
            &&& e.backup.identity_key_ciphertext@ == sha256_of(sealed_backup_input(key@))
            &&& normalized_rooms(e.backup.room_memberships@, rooms@)
            &&& e.backup.device_count == at_least_one(device_count)
        }),
{
    let mut export = match export_account_backup(
        key,
        rooms,
        device_count,
        exported_by_device_id,
        AccountBackupRecoveryMethod::ExistingDevice,
        created_at_ms,
    ) {
        Ok(e) => e,
        Err(e) => {
            return Err(e);
        },
    };
    let compromised = match normalize_required_id(compromised_device_id) {
        Ok(id) => id,
        Err(e) => {
            return Err(e);
        },
    };
    export.metadata.compromised_device_id = Some(compromised);
    export.metadata.device_rotation_required = true;
    Ok(export)
}

/// The refusal an export meets before any restore, if any.
pub open spec fn export_fault(e: AccountBackupExport) -> Option<RecoveryFault> {
    if e.metadata.version != ACCOUNT_BACKUP_EXPORT_VERSION {
        Some(RecoveryFault::UnsupportedBackupVersion(e.metadata.version))
    } else if all_ws(e.metadata.exported_by_device_id@) {
        Some(RecoveryFault::InvalidBackupMetadata("device id is required"@))
    } else if e.backup.identity_key_ciphertext@.len() != 32 {
        Some(RecoveryFault::InvalidBackupMetadata("identity backup material must be 32 bytes"@))
    } else if e.metadata.device_rotation_required && !(e.metadata.compromised_device_id matches Some(c) && !all_ws(c@)) {
        Some(RecoveryFault::InvalidBackupMetadata("compromised device id is required when rotation is required"@))
    } else {
        None
    }
}

fn validate_backup_export(export: &AccountBackupExport) -> (r: Result<(), RecoveryError>)
    ensures
        match export_fault(*export) {
            Some(f) => reports_recovery(r, f),
            None => r is Ok,
        },
{
    if export.metadata.version != ACCOUNT_BACKUP_EXPORT_VERSION {
        return Err(RecoveryError::UnsupportedBackupVersion { version: export.metadata.version });
    }
    if only_ws(export.metadata.exported_by_device_id.as_str()) {
        return Err(RecoveryError::InvalidBackupMetadata(text("device id is required")));
    }
    if export.backup.identity_key_ciphertext.len() != 32 {
        return Err(RecoveryError::InvalidBackupMetadata(text("identity backup material must be 32 bytes")));
    }
    if export.metadata.device_rotation_required {
        let missing = match &export.metadata.compromised_device_id {
            Some(id) => only_ws(id.as_str()),
            None => true,
        };
        if missing {
            return Err(RecoveryError::InvalidBackupMetadata(
                text("compromised device id is required when rotation is required"),
            ));
        }
    }
    Ok(())
}

/// The device a rotation-gated export names, as its error reports it.
pub open spec fn rotation_device(e: AccountBackupExport) -> Seq<char> {
    match e.metadata.compromised_device_id {
        Some(c) => c@,
        None => "unknown"@,
    }
}

fn rotation_required_error(export: &AccountBackupExport) -> (r: RecoveryError)
    ensures
        r matches RecoveryError::DeviceRotationRequired { compromised_device_id } && compromised_device_id@
            == rotation_device(*export),
{
    let compromised_device_id = match &export.metadata.compromised_device_id {
        Some(id) => id.clone(),
        None => text("unknown"),
    };
    RecoveryError::DeviceRotationRequired { compromised_device_id }
}

/// Restore a backup export that needs neither compromised-device rotation nor a recovery code.
pub fn restore_account_backup_export(export: AccountBackupExport) -> (r: Result<AccountRecovery, RecoveryError>)
    ensures
        match export_fault(export) {
            Some(f) => reports_recovery(r, f),
            None => if export.metadata.device_rotation_required {
                reports_recovery(r, RecoveryFault::DeviceRotationRequired(rotation_device(export)))
            } else if export.metadata.recovery_method == AccountBackupRecoveryMethod::RecoveryCode {
                reports_recovery(r, RecoveryFault::RecoveryCodeRequired)
            } else {
                r matches Ok(a) && restores(a, export.backup.room_memberships@, export.backup.device_count)
            },
        },
{
    match validate_backup_export(&export) {
        Ok(()) => {},
        Err(e) => {
            return Err(e);
        },
    }
    if export.metadata.device_rotation_required {
        return Err(rotation_required_error(&export));
    }
    if export.metadata.recovery_method == AccountBackupRecoveryMethod::RecoveryCode {
        return Err(RecoveryError::RecoveryCodeRequired);
    }
    recover_account(RecoveryMaterial::SealedBackup(export.backup))
}

/// Restore a recovery-code-gated backup only after verifying the user-held code.
pub fn restore_recovery_code_backup_export(export: AccountBackupExport, code: &str, verifier: &RecoveryCodeVerifier) -> (r: Result<AccountRecovery, RecoveryError>)
    ensures
        match export_fault(export) {
            Some(f) => reports_recovery(r, f),
            None => if export.metadata.device_rotation_required {
                reports_recovery(r, RecoveryFault::DeviceRotationRequired(rotation_device(export)))
            } else if export.metadata.recovery_method != AccountBackupRecoveryMethod::RecoveryCode {
                reports_recovery(r, RecoveryFault::InvalidBackupMetadata("backup does not require recovery code"@))
            } else if !(!all_ws(code@) && recovery_hash(code@) == verifier.code_hash@) {
                reports_recovery(r, RecoveryFault::InvalidRecoveryCode)
            } else {
                r matches Ok(a) && restores(a, export.backup.room_memberships@, export.backup.device_count)
            },
        },
{
    match validate_backup_export(&export) {
        Ok(()) => {},
        Err(e) => {
            return Err(e);
        },
    }
    if export.metadata.device_rotation_required {
        return Err(rotation_required_error(&export));
    }
    if export.metadata.recovery_method != AccountBackupRecoveryMethod::RecoveryCode {
        return Err(RecoveryError::InvalidBackupMetadata(text("backup does not require recovery code")));
    }
    let ghost backup_rooms = export.backup.room_memberships@;
    let material = match recovery_code_material(
        code,
        verifier,
        export.backup.room_memberships,
        export.backup.device_count,
    ) {
        Ok(m) => m,
        Err(e) => {
            return Err(e);
        },
    };
    proof {
        if material is RecoveryCode {
            lemma_renormalize(material->RecoveryCode_room_memberships@, backup_rooms);
        }
    }
    recover_account(material)
}

/// Restore a compromised-device backup after explicit replacement-device evidence.
pub fn restore_account_backup_after_device_rotation(export: AccountBackupExport, replacement_device_id: &str) -> (r: Result<AccountRecovery, RecoveryError>)
    ensures
        match export_fault(export) {
            Some(f) => reports_recovery(r, f),
            None => if !export.metadata.device_rotation_required {
                reports_recovery(r, RecoveryFault::InvalidBackupMetadata("backup does not require device rotation"@))
            } else if all_ws(replacement_device_id@) {
                reports_recovery(r, RecoveryFault::InvalidBackupMetadata("device id is required"@))
            } else if export.metadata.compromised_device_id matches Some(c) && c@ == trim_spec(replacement_device_id@) {
                reports_recovery(
                    r,
                    RecoveryFault::InvalidBackupMetadata("replacement device must differ from compromised device"@),
                )
            } else {
                r matches Ok(a) && restores(a, export.backup.room_memberships@, export.backup.device_count)
            },
        },
{
    match validate_backup_export(&export) {
        Ok(()) => {},
        Err(e) => {
            return Err(e);
        },
    }
    if !export.metadata.device_rotation_required {
        return Err(RecoveryError::InvalidBackupMetadata(text("backup does not require device rotation")));
    }
    let replacement = match normalize_required_id(replacement_device_id) {
        Ok(id) => id,
        Err(e) => {
            return Err(e);
        },
    };
    let same = match &export.metadata.compromised_device_id {
        Some(id) => str_equal(id.as_str(), replacement.as_str()),
        None => false,
    };
    if same {
        return Err(RecoveryError::InvalidBackupMetadata(text("replacement device must differ from compromised device")));
    }
    recover_account(RecoveryMaterial::SealedBackup(export.backup))
}

} // verus!

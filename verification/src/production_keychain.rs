//! Production keychain strategy for app DB wrapping keys: the Linux OS
//! keychain's naming and secret encoding, the passphrase vault's sealed
//! envelope, and the fallback rules between the OS keychain and the vault.
use vstd::prelude::*;
use vstd::string::StringSliceAdditionalSpecFns;
use crate::aead::{aes256gcm_decrypt, aes256gcm_encrypt, aes256gcm_open, aes256gcm_seal, os_random_bytes, AES_GCM_MAX_INPUT};
use crate::app_store::{store_error_text, AppStoreError};
use crate::appdb::{crypto_error, key_array, key_lookup, AppDbKeychain};
use crate::control_lane::nonce_array;
use crate::text::{join2, str_equal, text};

verus! {

// ---------------------------------------------------------------------------
// Linux OS keychain.
// ---------------------------------------------------------------------------

/// Linux platform keychain entry naming: the Secret Service namespace of the
/// app DB wrapping keys and the legacy collection target of earlier builds.
#[derive(Clone, Debug, Eq, PartialEq)]
pub struct LinuxOsKeychain {
    service: String,
    legacy_target: String,
}

impl LinuxOsKeychain {
    /// Service namespace of the keychain entries.
    pub closed spec fn service_name(&self) -> Seq<char> {
        self.service@
    }

    /// Legacy collection target.
    pub closed spec fn legacy_target_name(&self) -> Seq<char> {
        self.legacy_target@
    }

    /// A Linux platform keychain adapter for wrapping keys under `service`.
    pub fn new(service: &str) -> (r: Self)
        ensures
            r.service_name() == service@,
            r.legacy_target_name() == "discrypt"@,
    {
        LinuxOsKeychain { service: text(service), legacy_target: text("discrypt") }
    }

    /// The default Discrypt app DB keychain adapter.
    pub fn discrypt_app_db() -> (r: Self)
        ensures
            r.service_name() == "discrypt.appdb"@,
            r.legacy_target_name() == "discrypt"@,
    {
        Self::new("discrypt.appdb")
    }

    /// Service namespace used for OS keychain entries.
    pub fn service(&self) -> (r: &str)
        ensures
            r@ == self.service_name(),
    {
        self.service.as_str()
    }

    /// Production writes use the desktop's default Secret Service collection.
    pub fn target(&self) -> (r: &'static str)
        ensures
            r@ == "default"@,
    {
        "default"
    }

    /// Legacy custom collection target, read and cleaned up for keys that
    /// earlier builds wrote there.
    pub fn legacy_target(&self) -> (r: &str)
        ensures
            r@ == self.legacy_target_name(),
    {
        self.legacy_target.as_str()
    }
}

impl Default for LinuxOsKeychain {
    fn default() -> (r: Self)
        ensures
            r.service_name() == "discrypt.appdb"@,
            r.legacy_target_name() == "discrypt"@,
    {
        Self::discrypt_app_db()
    }
}

// ---------------------------------------------------------------------------
// Wrapping keys as keychain secrets.
// ---------------------------------------------------------------------------

/// ASCII byte of the lower-case hex digit for `v` below 16.
pub open spec fn hex_digit_byte(v: int) -> u8 {
    if v < 10 {
        (v + 48) as u8
    } else {
        (v + 87) as u8
    }
}

/// Lower-case hex text of `b`, as ASCII bytes: two per byte, high nibble first.
pub open spec fn hex_text_bytes(b: Seq<u8>) -> Seq<u8> {
    Seq::new(
        2 * b.len(),
        |j: int|
            if j % 2 == 0 {
                hex_digit_byte((b[j / 2] / 16) as int)
            } else {
                hex_digit_byte((b[j / 2] % 16) as int)
            },
    )
}

/// Value of one hex digit, either case.
pub open spec fn hex_nibble(c: u8) -> Option<u8> {
    if 48 <= c <= 57 {
        Some((c - 48) as u8)
    } else if 97 <= c <= 102 {
        Some((c - 87) as u8)
    } else if 65 <= c <= 70 {
        Some((c - 55) as u8)
    } else {
        None
    }
}

/// Whether every byte of `s` is a hex digit.
pub open spec fn all_hex_bytes(s: Seq<u8>) -> bool {
    forall|j: int| 0 <= j < s.len() ==> (#[trigger] hex_nibble(s[j])) is Some
}

/// The bytes that hex text `s` spells, two digits per byte.
pub open spec fn hex_decoded(s: Seq<u8>) -> Seq<u8> {
    Seq::new(
        s.len() / 2,
        |i: int| (hex_nibble(s[2 * i])->Some_0 * 16 + hex_nibble(s[2 * i + 1])->Some_0) as u8,
    )
}

/// The wrapping key a keychain secret holds, or why it holds none: raw
/// 32-byte secrets are taken as they are, 64-byte secrets as hex text.
pub open spec fn os_secret_outcome(secret: Seq<u8>) -> Result<Seq<u8>, Seq<char>> {
    if secret.len() == 32 {
        Ok(secret)
    } else if secret.len() == 64 {
        if all_hex_bytes(secret) {
            Ok(hex_decoded(secret))
        } else {
            Err("invalid OS keychain wrapping key encoding"@)
        }
    } else {
        Err("invalid OS keychain wrapping key length"@)
    }
}

fn hex_nibble_of(c: u8) -> (r: Option<u8>)
    ensures
        r == hex_nibble(c),
{
    if 48 <= c && c <= 57 {
        Some(c - 48)
    } else if 97 <= c && c <= 102 {
        Some(c - 87)
    } else if 65 <= c && c <= 70 {
        Some(c - 55)
    } else {
        None
    }
}

/// Read a wrapping key out of an OS keychain secret: 32 raw bytes, or 64 hex
/// digits of either case.
pub fn secret_to_wrapping_key(secret: Vec<u8>) -> (r: Result<Option<[u8; 32]>, AppStoreError>)
    ensures
        match os_secret_outcome(secret@) {
            Ok(k) => r matches Ok(Some(x)) && x@ == k,
            Err(m) => crypto_error(r, m),
        },
{
    if secret.len() == 32 {
        return Ok(Some(key_array(&secret)));
    }
    if secret.len() != 64 {
        return Err(AppStoreError::Crypto("invalid OS keychain wrapping key length"));
    }
    let mut out: Vec<u8> = Vec::new();
    let mut i: usize = 0;
    while i < 32
        invariant
            secret@.len() == 64,
            i <= 32,
            out@.len() == i,
            forall|j: int| 0 <= j < 2 * i ==> (#[trigger] hex_nibble(secret@[j])) is Some,
            forall|k: int| 0 <= k < i ==> (#[trigger] out@[k]) == (hex_nibble(secret@[2 * k])->Some_0 * 16
                + hex_nibble(secret@[2 * k + 1])->Some_0) as u8,
        decreases 32 - i,
    {
        let hi = hex_nibble_of(secret[2 * i]);
        let lo = hex_nibble_of(secret[2 * i + 1]);
        match (hi, lo) {
            (Some(h), Some(l)) => {
                assert(h < 16 && l < 16);
                out.push(h * 16 + l);
            },
            _ => {
                proof {
                    assert(!all_hex_bytes(secret@)) by {
                        if hi is None {
                            assert(hex_nibble(secret@[2 * i as int]) is None);
                        } else {
                            assert(hex_nibble(secret@[2 * i as int + 1]) is None);
                        }
                    }
                }
                return Err(AppStoreError::Crypto("invalid OS keychain wrapping key encoding"));
            },
        }
        i = i + 1;
    }
    assert(all_hex_bytes(secret@));
    assert(out@ =~= hex_decoded(secret@));
    Ok(Some(key_array(&out)))
}

/// The secret the OS keychain stores for `key`: its lower-case hex text,
/// which Secret Service stacks round-trip more reliably than raw bytes.
pub fn os_keychain_secret(key: &[u8; 32]) -> (r: Vec<u8>)
    ensures
        r@ == hex_text_bytes(key@),
{
    let mut out: Vec<u8> = Vec::new();
    let mut i: usize = 0;
    while i < 32
        invariant
            i <= 32,
            out@.len() == 2 * i,
            forall|j: int| 0 <= j < 2 * i ==> (#[trigger] out@[j]) == hex_text_bytes(key@)[j],
        decreases 32 - i,
    {
        let b = key[i];
        let hi = b / 16;
        let lo = b % 16;
        let hi_c: u8 = if hi < 10 { hi + 48 } else { hi + 87 };
        let lo_c: u8 = if lo < 10 { lo + 48 } else { lo + 87 };
        out.push(hi_c);
        out.push(lo_c);
        proof {
            assert forall|j: int| 0 <= j < 2 * (i + 1) implies (#[trigger] out@[j]) == hex_text_bytes(key@)[j] by {
                if j >= 2 * i {
                    assert(j / 2 == i);
                }
            }
        }
        i = i + 1;
    }
    assert(out@ =~= hex_text_bytes(key@));
    out
}

/// Keychain secrets that the OS keychain writes read back as the same
/// wrapping key.
pub proof fn law_os_keychain_secret_round_trips(key: Seq<u8>)
    requires
        key.len() == 32,
    ensures
        os_secret_outcome(hex_text_bytes(key)) == Ok::<Seq<u8>, Seq<char>>(key),
{
    let s = hex_text_bytes(key);
    assert forall|j: int| 0 <= j < s.len() implies (#[trigger] hex_nibble(s[j])) is Some by {
        if j % 2 == 0 {
            assert(key[j / 2] / 16 < 16);
        } else {
            assert(key[j / 2] % 16 < 16);
        }
    }
    assert forall|i: int| 0 <= i < 32 implies #[trigger] hex_decoded(s)[i] == key[i] by {
        let b = key[i];
        assert((2 * i) / 2 == i);
        assert((2 * i + 1) / 2 == i);
        assert((2 * i) % 2 == 0);
        assert((2 * i + 1) % 2 == 1);
        assert(hex_nibble(s[2 * i]) == Some((b / 16) as u8));
        assert(hex_nibble(s[2 * i + 1]) == Some((b % 16) as u8));
        assert((b / 16) * 16 + b % 16 == b);
    }
    assert(hex_decoded(s) =~= key);
}

// ---------------------------------------------------------------------------
// Passphrase vault envelope.
// ---------------------------------------------------------------------------

/// Format tag of the passphrase vault file.
pub const VAULT_FORMAT: &'static str = "discrypt.appdb.vault.v1";

/// Key-derivation tag of the passphrase vault file.
pub const VAULT_KDF: &'static str = "argon2id-v0.5-default";

/// Shortest passphrase, in bytes, that a vault is sealed with.
pub const VAULT_MIN_PASSPHRASE_BYTES: usize = 12;

/// Longest password, in bytes, that the key derivation accepts.
pub const VAULT_MAX_PASSPHRASE_BYTES: u64 = 0xFFFF_FFFF;

/// Sealed vault file: format and key-derivation tags, the salt and nonce, and
/// the entries sealed under the passphrase-derived key.
#[derive(Clone, Debug, Eq, PartialEq)]
pub struct PassphraseVaultEnvelope {
    /// Vault format tag.
    pub format: String,
    /// Key-derivation tag.
    pub kdf: String,
    /// Key-derivation salt.
    pub salt: [u8; 16],
    /// AES-GCM nonce.
    pub nonce: [u8; 12],
    /// Serialized entries sealed under the derived key.
    pub ciphertext: Vec<u8>,
}

/// Why a vault envelope is refused before its key is derived.
pub open spec fn vault_envelope_fault(e: PassphraseVaultEnvelope) -> Option<Seq<char>> {
    if e.format@ != VAULT_FORMAT@ {
        Some("unsupported Discrypt vault format"@)
    } else if e.kdf@ != VAULT_KDF@ {
        Some("unsupported Discrypt vault KDF"@)
    } else {
        None
    }
}

impl PassphraseVaultEnvelope {
    /// Accept only the current vault format and key derivation.
    pub fn validate(&self) -> (r: Result<(), AppStoreError>)
        ensures
            match vault_envelope_fault(*self) {
                None => r is Ok,
                Some(m) => crypto_error(r, m),
            },
    {
        if !str_equal(self.format.as_str(), VAULT_FORMAT) {
            return Err(AppStoreError::Crypto("unsupported Discrypt vault format"));
        }
        if !str_equal(self.kdf.as_str(), VAULT_KDF) {
            return Err(AppStoreError::Crypto("unsupported Discrypt vault KDF"));
        }
        Ok(())
    }
}

/// The 32-byte Argon2id key (version 0x13, the crate's default cost
/// parameters) of `password` and `salt`.
pub uninterp spec fn argon2id_default_key(password: Seq<u8>, salt: Seq<u8>) -> Seq<u8>;

/// Calls `argon2::Argon2::default().hash_password_into` for a 32-byte key.
/// Trusted: per the crate's source the call fails only for a password longer
/// than `0xFFFF_FFFF` bytes (a 16-byte salt and a 32-byte output are within
/// its limits), and the key is a function of password and salt alone.
#[verifier::external_body]
fn derive_vault_key(passphrase: &[u8], salt: &[u8; 16]) -> (r: Option<[u8; 32]>)
    ensures
        r is Some <==> passphrase@.len() <= VAULT_MAX_PASSPHRASE_BYTES,
        r matches Some(k) ==> k@ == argon2id_default_key(passphrase@, salt@),
{
    let mut key = [0_u8; 32];
    argon2::Argon2::default().hash_password_into(passphrase, salt, &mut key).ok().map(|_| key)
}

/// What opening vault `e` with `passphrase` gives: the serialized entries, or
/// the refusal's message.
pub open spec fn vault_open_result(e: PassphraseVaultEnvelope, passphrase: Seq<u8>) -> Result<Seq<u8>, Seq<char>> {
    match vault_envelope_fault(e) {
        Some(m) => Err(m),
        None => if passphrase.len() > VAULT_MAX_PASSPHRASE_BYTES {
            Err("Discrypt vault key derivation failed"@)
        } else {
            match aes256gcm_open(argon2id_default_key(passphrase, e.salt@), e.nonce@, e.ciphertext@, Seq::empty()) {
                Some(p) => Ok(p),
                None => Err("app db decryption failed"@),
            }
        },
    }
}

/// Open a vault envelope with the user's passphrase.
pub fn open_vault_entries(envelope: &PassphraseVaultEnvelope, passphrase: &str) -> (r: Result<Vec<u8>, AppStoreError>)
    ensures
        match vault_open_result(*envelope, passphrase.spec_bytes()) {
            Ok(p) => r matches Ok(v) && v@ == p,
            Err(m) => crypto_error(r, m),
        },
{
    match envelope.validate() {
        Ok(()) => {},
        Err(e) => {
            return Err(e);
        },
    }
    let key = match derive_vault_key(passphrase.as_bytes(), &envelope.salt) {
        Some(k) => k,
        None => {
            return Err(AppStoreError::Crypto("Discrypt vault key derivation failed"));
        },
    };
    let empty: Vec<u8> = Vec::new();
    assert(empty@ =~= Seq::<u8>::empty());
    match aes256gcm_decrypt(&key, &envelope.nonce, envelope.ciphertext.as_slice(), empty.as_slice()) {
        Some(p) => Ok(p),
        None => Err(AppStoreError::Crypto("app db decryption failed")),
    }
}

/// The passphrase refusal of a vault seal.
pub open spec fn short_passphrase_error<T>(r: Result<T, AppStoreError>) -> bool {
    r matches Err(AppStoreError::Keychain(m)) && m@ == "Discrypt vault passphrase must be at least 12 characters"@
}

/// Seal serialized vault entries with the user's passphrase, a given salt and
/// a given nonce. A passphrase shorter than twelve bytes is refused; whatever
/// is sealed opens again with the same passphrase.
pub fn seal_vault_entries_with(
    passphrase: &str,
    salt: [u8; 16],
    nonce: [u8; 12],
    plaintext: &[u8],
) -> (r: Result<PassphraseVaultEnvelope, AppStoreError>)
    ensures
        passphrase.spec_bytes().len() < VAULT_MIN_PASSPHRASE_BYTES ==> short_passphrase_error(r),
        VAULT_MIN_PASSPHRASE_BYTES <= passphrase.spec_bytes().len() && passphrase.spec_bytes().len()
            > VAULT_MAX_PASSPHRASE_BYTES ==> crypto_error(r, "Discrypt vault key derivation failed"@),
        VAULT_MIN_PASSPHRASE_BYTES <= passphrase.spec_bytes().len() <= VAULT_MAX_PASSPHRASE_BYTES
            && plaintext@.len() > AES_GCM_MAX_INPUT ==> crypto_error(r, "app db encryption failed"@),
        r is Ok <==> (VAULT_MIN_PASSPHRASE_BYTES <= passphrase.spec_bytes().len() <= VAULT_MAX_PASSPHRASE_BYTES
            && plaintext@.len() <= AES_GCM_MAX_INPUT),
        r matches Ok(e) ==> {
            &&& e.format@ == VAULT_FORMAT@
            &&& e.kdf@ == VAULT_KDF@
            &&& e.salt == salt
            &&& e.nonce == nonce
            &&& e.ciphertext@ == aes256gcm_seal(
                argon2id_default_key(passphrase.spec_bytes(), salt@),
                nonce@,
                plaintext@,
                Seq::empty(),
            )
        },
        r matches Ok(e) ==> vault_open_result(e, passphrase.spec_bytes()) == Ok::<Seq<u8>, Seq<char>>(plaintext@),
{
    if passphrase.as_bytes().len() < VAULT_MIN_PASSPHRASE_BYTES {
        return Err(AppStoreError::Keychain(text("Discrypt vault passphrase must be at least 12 characters")));
    }
    let key = match derive_vault_key(passphrase.as_bytes(), &salt) {
        Some(k) => k,
        None => {
            return Err(AppStoreError::Crypto("Discrypt vault key derivation failed"));
        },
    };
    let empty: Vec<u8> = Vec::new();
    assert(empty@ =~= Seq::<u8>::empty());
    let ciphertext = match aes256gcm_encrypt(&key, &nonce, plaintext, empty.as_slice()) {
        Some(c) => c,
        None => {
            return Err(AppStoreError::Crypto("app db encryption failed"));
        },
    };
    Ok(PassphraseVaultEnvelope {
        format: text(VAULT_FORMAT),
        kdf: text(VAULT_KDF),
        salt,
        nonce,
        ciphertext,
    })
}

fn salt_array(v: &Vec<u8>) -> (r: [u8; 16])
    requires
        v@.len() == 16,
    ensures
        r@ == v@,
{
    let a = [v[0], v[1], v[2], v[3], v[4], v[5], v[6], v[7], v[8], v[9], v[10], v[11], v[12], v[13], v[14], v[15]];
    assert(a@ =~= v@);
    a
}

/// Seal serialized vault entries with the user's passphrase under a fresh
/// random salt and nonce. Besides the refusals of
/// [`seal_vault_entries_with`], the seal fails when the operating-system
/// generator yields no salt or nonce.
pub fn seal_vault_entries(passphrase: &str, plaintext: &[u8]) -> (r: Result<PassphraseVaultEnvelope, AppStoreError>)
    ensures
        passphrase.spec_bytes().len() < VAULT_MIN_PASSPHRASE_BYTES ==> short_passphrase_error(r),
        r is Ok ==> (VAULT_MIN_PASSPHRASE_BYTES <= passphrase.spec_bytes().len() <= VAULT_MAX_PASSPHRASE_BYTES
            && plaintext@.len() <= AES_GCM_MAX_INPUT),
        r matches Ok(e) ==> e.format@ == VAULT_FORMAT@ && e.kdf@ == VAULT_KDF@,
        r matches Ok(e) ==> vault_open_result(e, passphrase.spec_bytes()) == Ok::<Seq<u8>, Seq<char>>(plaintext@),
{
    if passphrase.as_bytes().len() < VAULT_MIN_PASSPHRASE_BYTES {
        return Err(AppStoreError::Keychain(text("Discrypt vault passphrase must be at least 12 characters")));
    }
    let salt = match os_random_bytes(16) {
        Some(v) => salt_array(&v),
        None => {
            return Err(AppStoreError::Crypto("app db random generator failed"));
        },
    };
    let nonce = match os_random_bytes(12) {
        Some(v) => nonce_array(&v),
        None => {
            return Err(AppStoreError::Crypto("app db random generator failed"));
        },
    };
    seal_vault_entries_with(passphrase, salt, nonce, plaintext)
}

// ---------------------------------------------------------------------------
// OS keychain with encrypted vault fallback.
// ---------------------------------------------------------------------------

/// The message of a keychain error, if `e` is one.
pub open spec fn keychain_message(e: AppStoreError) -> Option<Seq<char>> {
    match e {
        AppStoreError::Keychain(m) => Some(m@),
        _ => None,
    }
}

/// Text of the error when both the OS keychain and the vault fail `op`.
pub open spec fn fallback_text(op: Seq<char>, os_text: Seq<char>, vault_text: Seq<char>) -> Seq<char> {
    "OS keychain "@ + op + " failed ("@ + os_text + "); configured encrypted vault fallback failed ("@ + vault_text
        + ")"@
}

/// Whether `r` is the fallback error of `op` after `os_error` and a vault
/// failure with text `vault_text`: a keychain error, whose text names both
/// failures where their texts are known.
pub open spec fn is_fallback_error_with(r: AppStoreError, op: Seq<char>, os_error: AppStoreError, vault_text: Option<Seq<char>>) -> bool {
    &&& keychain_message(r) is Some
    &&& (store_error_text(os_error) is Some && vault_text is Some) ==> keychain_message(r) == Some(
        fallback_text(op, store_error_text(os_error)->Some_0, vault_text->Some_0),
    )
}

/// Whether `r` is the fallback error of `op` for these two failures.
pub open spec fn is_fallback_error(r: AppStoreError, op: Seq<char>, os_error: AppStoreError, vault_error: AppStoreError) -> bool {
    is_fallback_error_with(r, op, os_error, store_error_text(vault_error))
}

/// The error reported when the OS keychain and the configured vault both fail
/// one operation; it keeps both failure texts.
pub fn production_keychain_fallback_error(operation: &str, os_error: AppStoreError, vault_error: AppStoreError) -> (r: AppStoreError)
    ensures
        is_fallback_error(r, operation@, os_error, vault_error),
{
    let os_text = os_error.message();
    let vault_text = vault_error.message();
    let mut m = join2("OS keychain ", operation);
    m.append(" failed (");
    m.append(os_text.as_str());
    m.append("); configured encrypted vault fallback failed (");
    m.append(vault_text.as_str());
    m.append(")");
    AppStoreError::Keychain(m)
}

/// The warning for an operation that the vault completed after the OS
/// keychain failed it.
pub fn production_keychain_degraded_vault_warning(operation: &str, os_error: &AppStoreError) -> (r: String)
    ensures
        store_error_text(*os_error) matches Some(t) ==> r@ == "OS keychain "@ + operation@ + " failed ("@ + t
            + "); continuing with explicitly configured encrypted vault fallback"@,
{
    let os_text = os_error.message();
    let mut r = join2("OS keychain ", operation);
    r.append(" failed (");
    r.append(os_text.as_str());
    r.append("); continuing with explicitly configured encrypted vault fallback");
    r
}

/// Combine a delete from both stores: any single failure is reported as it
/// is, both failures together as the fallback error.
pub fn production_keychain_delete_result(os_result: Result<(), AppStoreError>, vault_result: Result<(), AppStoreError>) -> (r: Result<(), AppStoreError>)
    ensures
        os_result is Ok && vault_result is Ok ==> r is Ok,
        os_result is Err && vault_result is Ok ==> r == os_result,
        os_result is Ok && vault_result is Err ==> r == vault_result,
        os_result is Err && vault_result is Err ==> (r is Err && is_fallback_error(
            r->Err_0,
            "delete"@,
            os_result->Err_0,
            vault_result->Err_0,
        )),
{
    match (os_result, vault_result) {
        (Ok(()), Ok(())) => Ok(()),
        (Err(os_error), Ok(())) => Err(os_error),
        (Ok(()), Err(vault_error)) => Err(vault_error),
        (Err(os_error), Err(vault_error)) => Err(production_keychain_fallback_error("delete", os_error, vault_error)),
    }
}

/// What a load returns, given the OS keychain's answer and, where the vault
/// was consulted, the vault's answer (`None`: no vault is configured).
pub open spec fn production_load_spec(
    os: Result<Option<[u8; 32]>, AppStoreError>,
    vault: Option<Result<Option<[u8; 32]>, AppStoreError>>,
    key_id: Seq<char>,
    r: Result<Option<[u8; 32]>, AppStoreError>,
) -> bool {
    match os {
        Ok(Some(_)) => r == os,
        Ok(None) => match vault {
            Some(v) => r == v,
            None => r == Ok::<Option<[u8; 32]>, AppStoreError>(None),
        },
        Err(os_error) => match vault {
            None => r == os,
            Some(Ok(Some(_))) => r == vault->Some_0,
            Some(Ok(None)) => r is Err && is_fallback_error_with(
                r->Err_0,
                "load"@,
                os_error,
                Some("app store keychain key missing: "@ + ("configured encrypted vault has no wrapping key for "@ + key_id)),
            ),
            Some(Err(vault_error)) => r is Err && is_fallback_error(r->Err_0, "load"@, os_error, vault_error),
        },
    }
}

/// Decide a load from the OS keychain's answer and the vault's answer.
pub fn production_load_outcome(
    os: Result<Option<[u8; 32]>, AppStoreError>,
    vault: Option<Result<Option<[u8; 32]>, AppStoreError>>,
    key_id: &str,
) -> (r: Result<Option<[u8; 32]>, AppStoreError>)
    ensures
        production_load_spec(os, vault, key_id@, r),
{
    match os {
        Ok(Some(key)) => Ok(Some(key)),
        Ok(None) => match vault {
            Some(v) => v,
            None => Ok(None),
        },
        Err(os_error) => match vault {
            None => Err(os_error),
            Some(Ok(Some(key))) => Ok(Some(key)),
            Some(Ok(None)) => Err(production_keychain_fallback_error(
                "load",
                os_error,
                AppStoreError::KeychainMissing(join2("configured encrypted vault has no wrapping key for ", key_id)),
            )),
            Some(Err(vault_error)) => Err(production_keychain_fallback_error("load", os_error, vault_error)),
        },
    }
}

/// What a store returns, given the OS keychain's answer and, where the vault
/// was consulted, the vault's answer (`None`: no vault is configured).
pub open spec fn production_store_spec(
    os: Result<(), AppStoreError>,
    vault: Option<Result<(), AppStoreError>>,
    r: Result<(), AppStoreError>,
) -> bool {
    match os {
        Ok(()) => r is Ok,
        Err(os_error) => match vault {
            None => r == os,
            Some(Ok(())) => r is Ok,
            Some(Err(vault_error)) => r is Err && is_fallback_error(r->Err_0, "store"@, os_error, vault_error),
        },
    }
}

/// Decide a store from the OS keychain's answer and the vault's answer.
pub fn production_store_outcome(os: Result<(), AppStoreError>, vault: Option<Result<(), AppStoreError>>) -> (r: Result<(), AppStoreError>)
    ensures
        production_store_spec(os, vault, r),
{
    match os {
        Ok(()) => Ok(()),
        Err(os_error) => match vault {
            None => Err(os_error),
            Some(Ok(())) => Ok(()),
            Some(Err(vault_error)) => Err(production_keychain_fallback_error("store", os_error, vault_error)),
        },
    }
}

/// The refusal of a vault-only keychain whose vault is not unlocked.
pub open spec fn vault_locked_error<T>(r: Result<T, AppStoreError>) -> bool {
    r matches Err(AppStoreError::KeychainMissing(m)) && m@ == "user password vault is not unlocked"@
}

fn vault_locked<T>() -> (r: Result<T, AppStoreError>)
    ensures
        vault_locked_error(r),
{
    Err(AppStoreError::KeychainMissing(text("user password vault is not unlocked")))
}

/// Production keychain strategy: the OS keychain `O` first, with an
/// optional encrypted vault `V` as explicitly configured fallback; or, for
/// vault-only mode, the vault alone.
#[derive(Clone, Debug)]
pub struct ProductionAppDbKeychain<O, V> {
    os: O,
    vault: Option<V>,
    use_os: bool,
}

impl<O, V> ProductionAppDbKeychain<O, V> {
    /// The OS keychain.
    pub closed spec fn os_keychain(&self) -> O {
        self.os
    }

    /// The configured vault, if any.
    pub closed spec fn vault_keychain(&self) -> Option<V> {
        self.vault
    }

    /// Whether the OS keychain is used at all.
    pub closed spec fn uses_os(&self) -> bool {
        self.use_os
    }

    /// A production keychain with optional encrypted vault fallback.
    pub fn new(os: O, vault: Option<V>) -> (r: Self)
        ensures
            r.os_keychain() == os,
            r.vault_keychain() == vault,
            r.uses_os(),
    {
        ProductionAppDbKeychain { os, vault, use_os: true }
    }

    /// A production keychain that requires the user-supplied encrypted vault
    /// and never reads or writes the OS keychain `os`.
    pub fn vault_only(os: O, vault: V) -> (r: Self)
        ensures
            r.os_keychain() == os,
            r.vault_keychain() == Some(vault),
            !r.uses_os(),
    {
        ProductionAppDbKeychain { os, vault: Some(vault), use_os: false }
    }
}

/// Whether the configured vault, if any, is a plain store.
pub open spec fn vault_is_plain<V: AppDbKeychain>(vault: Option<V>) -> bool {
    match vault {
        Some(v) => v.is_plain_store(),
        None => true,
    }
}

/// The vault's answer to a load of `key_id` where it is a plain store and is
/// consulted; `None` where no vault is configured or the OS keychain had the key.
pub open spec fn plain_vault_answer<V: AppDbKeychain>(vault: Option<V>, os_found: bool, key_id: Seq<char>) -> Option<
    Result<Option<[u8; 32]>, AppStoreError>,
> {
    if os_found {
        None
    } else {
        match vault {
            Some(v) => Some(Ok::<Option<[u8; 32]>, AppStoreError>(key_lookup(v.held_keys(), key_id))),
            None => None,
        }
    }
}

/// The held keys of the configured vault, if any.
pub open spec fn vault_held<V: AppDbKeychain>(vault: Option<V>) -> Option<Map<Seq<char>, [u8; 32]>> {
    match vault {
        Some(v) => Some(v.held_keys()),
        None => None,
    }
}

/// Whether `after` is `before` with the held keys changed by `f`, staying plain.
pub open spec fn vault_changed<V: AppDbKeychain>(
    before: Option<V>,
    after: Option<V>,
    f: spec_fn(Map<Seq<char>, [u8; 32]>) -> Map<Seq<char>, [u8; 32]>,
) -> bool {
    match before {
        Some(b) => after matches Some(a) && a.is_plain_store() && a.held_keys() == f(b.held_keys()),
        None => after is None,
    }
}

impl<O: AppDbKeychain, V: AppDbKeychain> AppDbKeychain for ProductionAppDbKeychain<O, V> {
    /// Vault-only mode asks the vault alone. Otherwise the OS keychain is
    /// asked first and the vault only when the OS keychain has no key or
    /// fails; the answer is then decided by [`production_load_outcome`].
    fn load_wrapping_key(&mut self, key_id: &str) -> (r: Result<Option<[u8; 32]>, AppStoreError>)
        ensures
            !old(self).uses_os() && old(self).vault_keychain() is None ==> vault_locked_error(r),
            !old(self).uses_os() && old(self).vault_keychain() is Some && vault_is_plain(old(self).vault_keychain()) ==> r
                == Ok::<Option<[u8; 32]>, AppStoreError>(
                key_lookup(old(self).vault_keychain()->Some_0.held_keys(), key_id@),
            ),
            old(self).uses_os() && old(self).os_keychain().is_plain_store() && vault_is_plain(old(self).vault_keychain())
                ==> production_load_spec(
                Ok(key_lookup(old(self).os_keychain().held_keys(), key_id@)),
                plain_vault_answer(
                    old(self).vault_keychain(),
                    key_lookup(old(self).os_keychain().held_keys(), key_id@) is Some,
                    key_id@,
                ),
                key_id@,
                r,
            ),
    {
        if !self.use_os {
            return match &mut self.vault {
                Some(vault) => vault.load_wrapping_key(key_id),
                None => vault_locked(),
            };
        }
        let os = self.os.load_wrapping_key(key_id);
        let consult = match &os {
            Ok(Some(_)) => false,
            _ => true,
        };
        let vault = if consult {
            match &mut self.vault {
                Some(vault) => Some(vault.load_wrapping_key(key_id)),
                None => None,
            }
        } else {
            None
        };
        production_load_outcome(os, vault, key_id)
    }

    /// Vault-only mode stores in the vault alone. Otherwise the OS keychain
    /// stores first and the vault only when the OS keychain fails; the answer
    /// is then decided by [`production_store_outcome`].
    fn store_wrapping_key(&mut self, key_id: &str, key: [u8; 32]) -> (r: Result<(), AppStoreError>)
        ensures
            !old(self).uses_os() && old(self).vault_keychain() is None ==> vault_locked_error(r),
            !old(self).uses_os() && vault_is_plain(old(self).vault_keychain()) && old(self).vault_keychain() is Some
                ==> r is Ok && !final(self).uses_os() && vault_changed(
                old(self).vault_keychain(),
                final(self).vault_keychain(),
                |m: Map<Seq<char>, [u8; 32]>| m.insert(key_id@, key),
            ),
            old(self).uses_os() && old(self).os_keychain().is_plain_store() ==> r is Ok && final(self).uses_os()
                && final(self).os_keychain().is_plain_store() && final(self).os_keychain().held_keys() == old(self).os_keychain().held_keys().insert(key_id@, key) && final(self).vault_keychain() == old(self).vault_keychain(),
    {
        if !self.use_os {
            return match &mut self.vault {
                Some(vault) => vault.store_wrapping_key(key_id, key),
                None => vault_locked(),
            };
        }
        let os = self.os.store_wrapping_key(key_id, key);
        let vault = if os.is_err() {
            match &mut self.vault {
                Some(vault) => Some(vault.store_wrapping_key(key_id, key)),
                None => None,
            }
        } else {
            None
        };
        production_store_outcome(os, vault)
    }

    /// Vault-only mode deletes from the vault alone. Otherwise the key is
    /// deleted from the OS keychain and, where one is configured, from the
    /// vault too; [`production_keychain_delete_result`] combines the two.
    fn delete_wrapping_key(&mut self, key_id: &str) -> (r: Result<(), AppStoreError>)
        ensures
            !old(self).uses_os() && old(self).vault_keychain() is None ==> vault_locked_error(r),
            !old(self).uses_os() && vault_is_plain(old(self).vault_keychain()) && old(self).vault_keychain() is Some
                ==> r is Ok && !final(self).uses_os() && vault_changed(
                old(self).vault_keychain(),
                final(self).vault_keychain(),
                |m: Map<Seq<char>, [u8; 32]>| m.remove(key_id@),
            ),
            old(self).uses_os() && old(self).os_keychain().is_plain_store() && vault_is_plain(old(self).vault_keychain())
                ==> r is Ok && final(self).uses_os() && final(self).os_keychain().is_plain_store() && final(self).os_keychain().held_keys() == old(self).os_keychain().held_keys().remove(key_id@) && vault_changed(
                old(self).vault_keychain(),
                final(self).vault_keychain(),
                |m: Map<Seq<char>, [u8; 32]>| m.remove(key_id@),
            ),
    {
        if !self.use_os {
            return match &mut self.vault {
                Some(vault) => vault.delete_wrapping_key(key_id),
                None => vault_locked(),
            };
        }
        let os_result = self.os.delete_wrapping_key(key_id);
        match &mut self.vault {
            Some(vault) => {
                let vault_result = vault.delete_wrapping_key(key_id);
                production_keychain_delete_result(os_result, vault_result)
            },
            None => os_result,
        }
    }
}

} // verus!

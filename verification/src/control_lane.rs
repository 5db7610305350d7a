//! Broker control lane: sealed, versioned control frames ferried over rendezvous rooms.
//!
//! Every frame is AES-256-GCM sealed under a key derived from invite-shared
//! material; the provider sees the versioned envelope and ciphertext only.
use vstd::prelude::*;
use vstd::utf8::*;
use crate::digest::{push_bytes, push_str_bytes, sha256, sha256_of};
use crate::peer_overlay::SignalingPeerId;
use crate::text::{decimal, decimal_spec, join2, lower_hex, lower_hex_spec, str_equal, text};
use crate::transport::TransportError;
use crate::aead::{aes256gcm_decrypt, aes256gcm_encrypt, aes256gcm_open, aes256gcm_seal, os_random_bytes, AES_GCM_MAX_INPUT};
use base64::Engine;

verus! {

/// Current broker control-lane envelope schema.
pub const BROKER_CONTROL_LANE_SCHEMA_VERSION: u8 = 1;

/// Key-derivation domain separator for the control-lane AEAD key.
pub const BROKER_CONTROL_LANE_KEY_DOMAIN: &'static str = "discrypt-broker-control-lane-key-v1";

// ---------------------------------------------------------------------------
// Outside computations.
// ---------------------------------------------------------------------------

/// The unpadded URL-safe base64 text of `bytes`.
pub uninterp spec fn base64url_encode(bytes: Seq<u8>) -> Seq<char>;

/// The bytes that unpadded URL-safe base64 `text` decodes to, if it is valid.
pub uninterp spec fn base64url_decode(text: Seq<u8>) -> Option<Seq<u8>>;

/// Calls `base64::Engine::encode` on the `URL_SAFE_NO_PAD` engine. Trusted:
/// the text is the encoding of `bytes`, and decoding it gives `bytes` back.
/// The crate panics when the encoded length overflows `usize`; `requires`
/// leaves those lengths out.
#[verifier::external_body]
pub(crate) fn base64url_encode_bytes(bytes: &[u8]) -> (r: String)
    requires
        bytes@.len() / 3 * 4 + 3 <= usize::MAX,
    ensures
        r@ == base64url_encode(bytes@),
        base64url_decode(encode_utf8(r@)) == Some(bytes@),
{
    base64::engine::general_purpose::URL_SAFE_NO_PAD.encode(bytes)
}

/// Calls `base64::Engine::decode` on the `URL_SAFE_NO_PAD` engine. Trusted:
/// the result is the decoding of `text`. The crate panics when the chunk count
/// of the input overflows `usize`; `requires` leaves those lengths out.
#[verifier::external_body]
pub(crate) fn base64url_decode_bytes(text: &[u8]) -> (r: Option<Vec<u8>>)
    requires
        text@.len() + 4 <= usize::MAX,
    ensures
        match r {
            Some(v) => base64url_decode(text@) == Some(v@),
            None => base64url_decode(text@) is None,
        },
{
    base64::engine::general_purpose::URL_SAFE_NO_PAD.decode(text).ok()
}

// ---------------------------------------------------------------------------
// Key, digest and associated data.
// ---------------------------------------------------------------------------

/// Bytes hashed to derive the lane key: domain, a zero byte, then the material.
pub open spec fn key_derivation_input(material: Seq<u8>) -> Seq<u8> {
    encode_utf8(BROKER_CONTROL_LANE_KEY_DOMAIN@) + seq![0u8] + material
}

fn signaling_error(message: &str) -> (e: TransportError)
    ensures
        e matches TransportError::SignalingAdapter(m) && m@ == message@,
{
    TransportError::SignalingAdapter(text(message))
}

/// Derive the shared AEAD key for a control lane from invite-shared material.
///
/// Material shorter than 32 bytes is refused.
pub fn broker_control_lane_key(shared_material: &[u8]) -> (r: Result<[u8; 32], TransportError>)
    ensures
        r is Err <==> shared_material@.len() < 32,
        r matches Err(e) ==> (e matches TransportError::SignalingAdapter(m)
            && m@ == "broker control lane key material must be at least 32 bytes"@),
        r matches Ok(k) ==> k@ == sha256_of(key_derivation_input(shared_material@)),
{
    if shared_material.len() < 32 {
        return Err(signaling_error("broker control lane key material must be at least 32 bytes"));
    }
    let mut input: Vec<u8> = Vec::new();
    push_str_bytes(&mut input, BROKER_CONTROL_LANE_KEY_DOMAIN);
    input.push(0u8);
    push_bytes(&mut input, shared_material);
    assert(input@ =~= key_derivation_input(shared_material@));
    Ok(sha256(input.as_slice()))
}

/// Lower-case hex of the SHA-256 of a frame.
pub open spec fn frame_digest_hex(frame: Seq<u8>) -> Seq<char> {
    lower_hex_spec(sha256_of(frame))
}

fn frame_sha256_hex(frame: &[u8]) -> (r: String)
    ensures
        r@ == frame_digest_hex(frame@),
        sha256_of(frame@).len() == 32,
{
    let digest = sha256(frame);
    lower_hex(&digest)
}

/// Associated data bound into every seal: version, 0, sender, 0, frame digest hex.
pub open spec fn associated_data_spec(schema_version: u8, from_peer: Seq<char>, digest_hex: Seq<char>) -> Seq<u8> {
    seq![schema_version, 0u8] + encode_utf8(from_peer) + seq![0u8] + encode_utf8(digest_hex)
}

fn associated_data(schema_version: u8, from_peer: &str, digest_hex: &str) -> (r: Vec<u8>)
    ensures
        r@ == associated_data_spec(schema_version, from_peer@, digest_hex@),
{
    let mut aad: Vec<u8> = Vec::new();
    aad.push(schema_version);
    aad.push(0u8);
    push_str_bytes(&mut aad, from_peer);
    aad.push(0u8);
    push_str_bytes(&mut aad, digest_hex);
    assert(aad@ =~= associated_data_spec(schema_version, from_peer@, digest_hex@));
    aad
}

// ---------------------------------------------------------------------------
// Envelope.
// ---------------------------------------------------------------------------

/// Versioned sealed envelope carried over a rendezvous room's control topic.
#[derive(Clone, Debug, Eq, PartialEq)]
pub struct BrokerControlEnvelope {
    /// Envelope schema version.
    pub schema_version: u8,
    /// Sender peer id; receivers skip their own echoed broadcasts.
    pub from_peer: String,
    /// SHA-256 of the plaintext frame, bound as AEAD associated data.
    pub frame_sha256_hex: String,
    /// Base64url AES-GCM nonce.
    pub nonce_b64: String,
    /// Base64url AES-256-GCM ciphertext of the frame bytes.
    pub ciphertext_b64: String,
}

/// What opening `e` under `key` gives: the frame, or the refusal's message.
pub open spec fn open_result(key: Seq<u8>, e: BrokerControlEnvelope) -> Result<Seq<u8>, Seq<char>> {
    let nonce = base64url_decode(encode_utf8(e.nonce_b64@));
    let sealed = base64url_decode(encode_utf8(e.ciphertext_b64@));
    if !(nonce matches Some(n) && n.len() == 12) {
        Err("broker control lane envelope nonce is invalid"@)
    } else if sealed is None {
        Err("broker control lane envelope ciphertext is invalid"@)
    } else {
        let aad = associated_data_spec(e.schema_version, e.from_peer@, e.frame_sha256_hex@);
        match aes256gcm_open(key, nonce->0, sealed->0, aad) {
            None => Err("broker control lane envelope failed authentication"@),
            Some(frame) => if frame_digest_hex(frame) == e.frame_sha256_hex@ {
                Ok(frame)
            } else {
                Err("broker control lane envelope frame digest mismatch"@)
            },
        }
    }
}

/// Whether `e` is the envelope that sealing `frame` from `from_peer` under
/// `key` with `nonce` produces.
pub open spec fn sealed_with(key: Seq<u8>, from_peer: Seq<char>, frame: Seq<u8>, nonce: Seq<u8>, e: BrokerControlEnvelope) -> bool {
    &&& e.schema_version == BROKER_CONTROL_LANE_SCHEMA_VERSION
    &&& e.from_peer@ == from_peer
    &&& e.frame_sha256_hex@ == frame_digest_hex(frame)
    &&& e.nonce_b64@ == base64url_encode(nonce)
    &&& e.ciphertext_b64@ == base64url_encode(aes256gcm_seal(
        key,
        nonce,
        frame,
        associated_data_spec(BROKER_CONTROL_LANE_SCHEMA_VERSION, from_peer, frame_digest_hex(frame)),
    ))
}

/// Associated-data length of a seal from `from_peer`.
pub open spec fn seal_aad_len(from_peer: Seq<char>) -> nat {
    3 + encode_utf8(from_peer).len() + 64
}

/// Seal one control frame with a given nonce.
///
/// An empty frame is refused; a frame or sender id beyond AES-GCM's input limit
/// fails the seal. Whatever is sealed opens again to the same frame.
pub fn seal_broker_control_frame_with_nonce(
    key: &[u8; 32],
    from_peer: &SignalingPeerId,
    frame_bytes: &[u8],
    nonce: [u8; 12],
) -> (r: Result<BrokerControlEnvelope, TransportError>)
    requires
        (frame_bytes@.len() + 16) / 3 * 4 + 3 <= usize::MAX,
    ensures
        frame_bytes@.len() == 0 ==> (r matches Err(TransportError::SignalingAdapter(m))
            && m@ == "broker control lane frame must not be empty"@),
        frame_bytes@.len() > 0 && (frame_bytes@.len() > AES_GCM_MAX_INPUT
            || seal_aad_len(from_peer.0@) > AES_GCM_MAX_INPUT) ==> (r matches Err(
            TransportError::SignalingAdapter(m),
        ) && m@ == "broker control lane seal failed"@),
        r is Ok <==> (frame_bytes@.len() > 0 && frame_bytes@.len() <= AES_GCM_MAX_INPUT
            && seal_aad_len(from_peer.0@) <= AES_GCM_MAX_INPUT),
        r matches Ok(e) ==> sealed_with(key@, from_peer.0@, frame_bytes@, nonce@, e),
        r matches Ok(e) ==> open_result(key@, e) == Ok::<Seq<u8>, Seq<char>>(frame_bytes@),
{
    if frame_bytes.len() == 0 {
        return Err(signaling_error("broker control lane frame must not be empty"));
    }
    let digest_hex = frame_sha256_hex(frame_bytes);
    proof {
        crate::text::lemma_lower_hex_len(sha256_of(frame_bytes@));
        crate::text::lemma_lower_hex_ascii(sha256_of(frame_bytes@));
        lemma_ascii_hex_utf8_len(digest_hex@);
    }
    let aad = associated_data(BROKER_CONTROL_LANE_SCHEMA_VERSION, from_peer.0.as_str(), digest_hex.as_str());
    assert(aad@.len() == seal_aad_len(from_peer.0@));
    let sealed = aes256gcm_encrypt(key, &nonce, frame_bytes, aad.as_slice());
    let sealed = match sealed {
        Some(c) => c,
        None => {
            return Err(signaling_error("broker control lane seal failed"));
        },
    };
    let nonce_b64 = base64url_encode_bytes(&nonce);
    let ciphertext_b64 = base64url_encode_bytes(sealed.as_slice());
    let envelope = BrokerControlEnvelope {
        schema_version: BROKER_CONTROL_LANE_SCHEMA_VERSION,
        from_peer: from_peer.0.clone(),
        frame_sha256_hex: digest_hex,
        nonce_b64,
        ciphertext_b64,
    };
    proof {
        let e = envelope;
        assert(base64url_decode(encode_utf8(e.nonce_b64@)) == Some(nonce@));
        assert(base64url_decode(encode_utf8(e.ciphertext_b64@)) == Some(sealed@));
        assert(associated_data_spec(e.schema_version, e.from_peer@, e.frame_sha256_hex@) == aad@);
    }
    Ok(envelope)
}

proof fn lemma_ascii_hex_utf8_len(s: Seq<char>)
    requires
        forall|i: int| 0 <= i < s.len() ==> (#[trigger] s[i]) as u32 <= 0x7f,
    ensures
        encode_utf8(s).len() == s.len(),
    decreases s.len(),
{
    if s.len() > 0 {
        lemma_ascii_hex_utf8_len(s.drop_first());
    }
}

/// Seal one control frame into a versioned envelope with a fresh random nonce.
///
/// Besides the refusals of [`seal_broker_control_frame_with_nonce`], the seal
/// fails when the operating-system generator yields no nonce.
pub fn seal_broker_control_frame(
    key: &[u8; 32],
    from_peer: &SignalingPeerId,
    frame_bytes: &[u8],
) -> (r: Result<BrokerControlEnvelope, TransportError>)
    requires
        (frame_bytes@.len() + 16) / 3 * 4 + 3 <= usize::MAX,
    ensures
        frame_bytes@.len() == 0 ==> (r matches Err(TransportError::SignalingAdapter(m))
            && m@ == "broker control lane frame must not be empty"@),
        r is Ok ==> (frame_bytes@.len() > 0 && frame_bytes@.len() <= AES_GCM_MAX_INPUT
            && seal_aad_len(from_peer.0@) <= AES_GCM_MAX_INPUT),
        r matches Ok(e) ==> exists|nonce: Seq<u8>| nonce.len() == 12
            && #[trigger] sealed_with(key@, from_peer.0@, frame_bytes@, nonce, e),
        r matches Ok(e) ==> open_result(key@, e) == Ok::<Seq<u8>, Seq<char>>(frame_bytes@),
{
    if frame_bytes.len() == 0 {
        return Err(signaling_error("broker control lane frame must not be empty"));
    }
    match random_nonce() {
        Some(nonce) => {
            let r = seal_broker_control_frame_with_nonce(key, from_peer, frame_bytes, nonce);
            proof {
                if r is Ok {
                    assert(sealed_with(key@, from_peer.0@, frame_bytes@, nonce@, r->Ok_0));
                }
            }
            r
        },
        None => Err(signaling_error("broker control lane seal failed")),
    }
}

/// Accept a decoded envelope only in the current schema version.
pub fn check_broker_control_envelope(envelope: BrokerControlEnvelope) -> (r: Result<BrokerControlEnvelope, TransportError>)
    ensures
        envelope.schema_version == BROKER_CONTROL_LANE_SCHEMA_VERSION ==> r == Ok::<BrokerControlEnvelope, TransportError>(envelope),
        envelope.schema_version != BROKER_CONTROL_LANE_SCHEMA_VERSION ==> (r matches Err(TransportError::SignalingAdapter(m))
            && m@ == "broker control lane envelope schema "@ + decimal_spec(envelope.schema_version as nat) + " is unsupported"@),
{
    if envelope.schema_version != BROKER_CONTROL_LANE_SCHEMA_VERSION {
        let mut m = text("broker control lane envelope schema ");
        let v = decimal(envelope.schema_version as u64);
        m.append(v.as_str());
        m.append(" is unsupported");
        return Err(TransportError::SignalingAdapter(m));
    }
    Ok(envelope)
}

fn random_nonce() -> (r: Option<[u8; 12]>) {
    match os_random_bytes(12) {
        Some(v) => Some(nonce_array(&v)),
        None => None,
    }
}

pub(crate) fn nonce_array(v: &Vec<u8>) -> (r: [u8; 12])
    requires
        v@.len() == 12,
    ensures
        r@ == v@,
{
    let a = [v[0], v[1], v[2], v[3], v[4], v[5], v[6], v[7], v[8], v[9], v[10], v[11]];
    assert(a@ =~= v@);
    a
}

/// Open a decoded envelope and return the plaintext frame bytes.
pub fn open_broker_control_frame(key: &[u8; 32], envelope: &BrokerControlEnvelope) -> (r: Result<Vec<u8>, TransportError>)
    requires
        encode_utf8(envelope.nonce_b64@).len() + 4 <= usize::MAX,
        encode_utf8(envelope.ciphertext_b64@).len() + 4 <= usize::MAX,
    ensures
        match open_result(key@, *envelope) {
            Ok(frame) => r matches Ok(v) && v@ == frame,
            Err(message) => r matches Err(TransportError::SignalingAdapter(m)) && m@ == message,
        },
{
    let nonce = match base64url_decode_bytes(envelope.nonce_b64.as_str().as_bytes()) {
        Some(v) => if v.len() == 12 {
            nonce_array(&v)
        } else {
            return Err(signaling_error("broker control lane envelope nonce is invalid"));
        },
        None => {
            return Err(signaling_error("broker control lane envelope nonce is invalid"));
        },
    };
    let sealed = match base64url_decode_bytes(envelope.ciphertext_b64.as_str().as_bytes()) {
        Some(v) => v,
        None => {
            return Err(signaling_error("broker control lane envelope ciphertext is invalid"));
        },
    };
    let aad = associated_data(
        envelope.schema_version,
        envelope.from_peer.as_str(),
        envelope.frame_sha256_hex.as_str(),
    );
    let frame = match aes256gcm_decrypt(key, &nonce, sealed.as_slice(), aad.as_slice()) {
        Some(p) => p,
        None => {
            return Err(signaling_error("broker control lane envelope failed authentication"));
        },
    };
    let actual = frame_sha256_hex(frame.as_slice());
    if !str_equal(actual.as_str(), envelope.frame_sha256_hex.as_str()) {
        return Err(signaling_error("broker control lane envelope frame digest mismatch"));
    }
    Ok(frame)
}

/// Control broadcasts received from a room, each with its sender and the
/// result of decoding its bytes, and what opening them gives: the frames of
/// other peers' broadcasts in order (a peer's own echoes are skipped), up to
/// the first broadcast that failed to decode (`None`) or to open (its message).
#[verifier::opaque]
pub open spec fn remote_frames(
    key: Seq<u8>,
    local_peer: Seq<char>,
    received: Seq<(SignalingPeerId, Result<BrokerControlEnvelope, TransportError>)>,
) -> (Seq<Seq<u8>>, Option<(int, Option<Seq<char>>)>)
    decreases received.len(),
{
    if received.len() == 0 {
        (Seq::empty(), None)
    } else {
        let prev = remote_frames(key, local_peer, received.drop_last());
        let i = received.len() - 1;
        let (from, decoded) = received.last();
        if prev.1 is Some || from.0@ == local_peer {
            prev
        } else {
            match decoded {
                Err(_) => (prev.0, Some((i, None))),
                Ok(e) => match open_result(key, e) {
                    Ok(frame) => (prev.0.push(frame), None),
                    Err(m) => (prev.0, Some((i, Some(m)))),
                },
            }
        }
    }
}

/// Once a broadcast in the batch fails, later broadcasts change nothing.
proof fn lemma_remote_failure_sticks(
    key: Seq<u8>,
    local_peer: Seq<char>,
    received: Seq<(SignalingPeerId, Result<BrokerControlEnvelope, TransportError>)>,
    n: int,
)
    requires
        0 <= n <= received.len(),
        remote_frames(key, local_peer, received.take(n)).1 is Some,
    ensures
        remote_frames(key, local_peer, received) == remote_frames(key, local_peer, received.take(n)),
    decreases received.len() - n,
{
    reveal(remote_frames);
    if n < received.len() {
        assert(received.take(n + 1).drop_last() =~= received.take(n));
        lemma_remote_failure_sticks(key, local_peer, received, n + 1);
    } else {
        assert(received.take(n) =~= received);
    }
}

/// A decoded envelope, if any, is small enough to be opened.
pub open spec fn decoded_openable(d: Result<BrokerControlEnvelope, TransportError>) -> bool {
    match d {
        Ok(e) => openable(e),
        Err(_) => true,
    }
}

/// Envelopes small enough to be opened.
pub open spec fn openable(e: BrokerControlEnvelope) -> bool {
    encode_utf8(e.nonce_b64@).len() + 4 <= usize::MAX && encode_utf8(e.ciphertext_b64@).len() + 4 <= usize::MAX
}

proof fn lemma_remote_step(
    key: Seq<u8>,
    local_peer: Seq<char>,
    all: Seq<(SignalingPeerId, Result<BrokerControlEnvelope, TransportError>)>,
    i: int,
)
    requires
        0 <= i < all.len(),
        remote_frames(key, local_peer, all.take(i)).1 is None,
    ensures
        ({
            let prev = remote_frames(key, local_peer, all.take(i));
            let next = remote_frames(key, local_peer, all.take(i + 1));
            let (from, decoded) = all[i];
            &&& from.0@ == local_peer ==> next == prev
            &&& from.0@ != local_peer && decoded is Err ==> next == (prev.0, Some((i, None::<Seq<char>>)))
            &&& from.0@ != local_peer && decoded is Ok ==> match open_result(key, decoded->Ok_0) {
                Ok(frame) => next == (prev.0.push(frame), None::<(int, Option<Seq<char>>)>),
                Err(m) => next == (prev.0, Some((i, Some(m)))),
            }
        }),
{
    reveal(remote_frames);
    assert(all.take(i + 1).drop_last() =~= all.take(i));
    assert(all.take(i + 1).last() == all[i]);
}

/// Open the control broadcasts that other peers sent, in order; the first one
/// that failed to decode or does not open ends the batch with its error.
#[verifier::rlimit(40)]
pub fn open_remote_control_frames(
    key: &[u8; 32],
    local_peer: &SignalingPeerId,
    received: Vec<(SignalingPeerId, Result<BrokerControlEnvelope, TransportError>)>,
) -> (r: Result<Vec<Vec<u8>>, TransportError>)
    requires
        forall|i: int| 0 <= i < received@.len() ==> decoded_openable((#[trigger] received@[i]).1),
    ensures
        remote_frames(key@, local_peer.0@, received@).1 is None ==> (r matches Ok(v) && v@.len() == remote_frames(
            key@,
            local_peer.0@,
            received@,
        ).0.len() && forall|j: int|
            0 <= j < v@.len() ==> (#[trigger] v@[j])@ == remote_frames(key@, local_peer.0@, received@).0[j]),
        remote_frames(key@, local_peer.0@, received@).1 matches Some((i, None)) ==> r == Err::<
            Vec<Vec<u8>>,
            TransportError,
        >(received@[i].1->Err_0),
        remote_frames(key@, local_peer.0@, received@).1 matches Some((i, Some(m))) ==> (r matches Err(
            TransportError::SignalingAdapter(x),
        ) && x@ == m),
{
    let ghost all = received@;
    let mut rest = received;
    let mut opened: Vec<Vec<u8>> = Vec::new();
    let ghost mut i: int = 0;
    proof {
        assert(all.take(0) =~= Seq::<(SignalingPeerId, Result<BrokerControlEnvelope, TransportError>)>::empty());
        assert(all.skip(0) =~= all);
        reveal(remote_frames);
    }
    while rest.len() > 0
        invariant
            all == received@,
            0 <= i <= all.len(),
            rest@ == all.skip(i),
            forall|k: int| 0 <= k < all.len() ==> decoded_openable((#[trigger] all[k]).1),
            remote_frames(key@, local_peer.0@, all.take(i)).1 is None,
            opened@.len() == remote_frames(key@, local_peer.0@, all.take(i)).0.len(),
            forall|j: int| 0 <= j < opened@.len() ==> (#[trigger] opened@[j])@ == remote_frames(
                key@,
                local_peer.0@,
                all.take(i),
            ).0[j],
        decreases rest@.len(),
    {
        let (from, decoded) = rest.remove(0);
        proof {
            assert(all[i] == (from, decoded));
            assert(rest@ =~= all.skip(i + 1));
            lemma_remote_step(key@, local_peer.0@, all, i);
        }
        if !str_equal(from.0.as_str(), local_peer.0.as_str()) {
            match decoded {
                Err(e) => {
                    proof {
                        assert(remote_frames(key@, local_peer.0@, all.take(i + 1)) == (remote_frames(key@, local_peer.0@, all.take(i)).0, Some((i, None::<Seq<char>>))));
                        lemma_remote_failure_sticks(key@, local_peer.0@, all, i + 1);
                        assert(remote_frames(key@, local_peer.0@, all).1 == Some((i, None::<Seq<char>>)));
                        assert(all[i].1->Err_0 == e);
                    }
                    return Err(e);
                },
                Ok(envelope) => {
                    proof {
                        assert(decoded_openable(all[i].1));
                    }
                    match open_broker_control_frame(key, &envelope) {
                        Ok(frame) => {
                            opened.push(frame);
                        },
                        Err(e) => {
                            proof {
                                let m = open_result(key@, envelope)->Err_0;
                                assert(remote_frames(key@, local_peer.0@, all.take(i + 1)) == (remote_frames(key@, local_peer.0@, all.take(i)).0, Some((i, Some(m)))));
                                lemma_remote_failure_sticks(key@, local_peer.0@, all, i + 1);
                                assert(remote_frames(key@, local_peer.0@, all).1 == Some((i, Some(m))));
                            }
                            return Err(e);
                        },
                    }
                },
            }
        }
        proof {
            i = i + 1;
        }
    }
    proof {
        assert(all.take(i) =~= all);
    }
    Ok(opened)
}

} // verus!

//! Relay integrity helpers for media bytes.
//!
//! Relays are content-blind: they may forward, drop, replay, or corrupt bytes,
//! but media authentication and anti-replay are receiver-owned.
use vstd::prelude::*;
use vstd::string::*;
use vstd::utf8::*;
use crate::digest::{sha256, sha256_of, be64, push_be64, push_bytes, push_str_bytes};
use crate::text::{bytes_contain, bytes_contains};
use crate::topology::MAX_RELAY_HOPS;

verus! {

/// Relay integrity errors.
#[derive(Clone, Copy, Debug, PartialEq, Eq, Structural)]
pub enum RelayIntegrityError {
    /// Forwarding would exceed the bounded relay depth.
    HopLimitExceeded,
    /// Relays are not allowed to forward empty ciphertext frames.
    EmptyCiphertext,
    /// Relay-visible payloads must carry KID/counter/AAD metadata.
    MissingProtectedMetadata,
}

/// Relay-visible protected payload class.
#[derive(Clone, Copy, Debug, PartialEq, Eq, Structural)]
pub enum RelayPayloadKind {
    /// Protected voice/media frame.
    Media,
    /// Protected text/control frame.
    TextControl,
    /// Protected store-forward envelope.
    StoreForward,
}

/// Text label of a payload class.
pub open spec fn kind_label(kind: RelayPayloadKind) -> Seq<char> {
    match kind {
        RelayPayloadKind::Media => "media"@,
        RelayPayloadKind::TextControl => "text_control"@,
        RelayPayloadKind::StoreForward => "store_forward"@,
    }
}

fn push_kind_label(buf: &mut Vec<u8>, kind: RelayPayloadKind)
    ensures
        final(buf)@ == old(buf)@ + encode_utf8(kind_label(kind)),
{
    match kind {
        RelayPayloadKind::Media => push_str_bytes(buf, "media"),
        RelayPayloadKind::TextControl => push_str_bytes(buf, "text_control"),
        RelayPayloadKind::StoreForward => push_str_bytes(buf, "store_forward"),
    }
}

/// Bytes hashed into the AAD commitment.
pub open spec fn aad_commitment_input(
    kind: RelayPayloadKind,
    kid: Seq<u8>,
    counter: u64,
    aad: Seq<u8>,
) -> Seq<u8> {
    encode_utf8("discrypt-relay-protected-aad-v1"@) + encode_utf8(kind_label(kind)) + be64(
        kid.len() as u64,
    ) + kid + be64(counter) + be64(aad.len() as u64) + aad
}

fn aad_commitment(kind: RelayPayloadKind, kid: &[u8], counter: u64, aad_metadata: &[u8]) -> (r: [u8; 32])
    ensures
        r@ == sha256_of(aad_commitment_input(kind, kid@, counter, aad_metadata@)),
{
    let mut buf: Vec<u8> = Vec::new();
    push_str_bytes(&mut buf, "discrypt-relay-protected-aad-v1");
    push_kind_label(&mut buf, kind);
    push_be64(&mut buf, kid.len() as u64);
    push_bytes(&mut buf, kid);
    push_be64(&mut buf, counter);
    push_be64(&mut buf, aad_metadata.len() as u64);
    push_bytes(&mut buf, aad_metadata);
    assert(buf@ =~= aad_commitment_input(kind, kid@, counter, aad_metadata@));
    sha256(buf.as_slice())
}

/// Relay-visible protected frame/envelope.
#[derive(Debug, PartialEq, Eq)]
pub struct RelayProtectedEnvelope {
    /// Payload class for policy/routing decisions.
    pub kind: RelayPayloadKind,
    /// Key identifier from the protected frame header.
    pub kid: Vec<u8>,
    /// Sender monotonic frame/message counter.
    pub counter: u64,
    /// Commitment to the authenticated associated data, not the raw AAD.
    pub aad_commitment: [u8; 32],
    /// Encrypted/authenticated bytes.
    pub ciphertext: Vec<u8>,
}

impl RelayProtectedEnvelope {
    /// Same kind, metadata and bytes.
    pub open spec fn same_content(&self, other: &Self) -> bool {
        self.kind == other.kind && self.kid@ == other.kid@ && self.counter == other.counter
            && self.aad_commitment@ == other.aad_commitment@ && self.ciphertext@ == other.ciphertext@
    }
}

impl Clone for RelayProtectedEnvelope {
    fn clone(&self) -> (r: Self)
        ensures
            r.same_content(self),
    {
        RelayProtectedEnvelope {
            kind: self.kind,
            kid: self.kid.clone(),
            counter: self.counter,
            aad_commitment: self.aad_commitment,
            ciphertext: self.ciphertext.clone(),
        }
    }
}

impl RelayProtectedEnvelope {
    /// Build a relay-visible protected envelope from frame metadata.
    pub fn new(
        kind: RelayPayloadKind,
        kid: Vec<u8>,
        counter: u64,
        aad_metadata: &[u8],
        ciphertext: Vec<u8>,
    ) -> (r: Result<Self, RelayIntegrityError>)
        ensures
            (kid@.len() == 0 || aad_metadata@.len() == 0) ==> r == Err::<Self, RelayIntegrityError>(
                RelayIntegrityError::MissingProtectedMetadata,
            ),
            (kid@.len() != 0 && aad_metadata@.len() != 0 && ciphertext@.len() == 0) ==> r == Err::<
                Self,
                RelayIntegrityError,
            >(RelayIntegrityError::EmptyCiphertext),
            (kid@.len() != 0 && aad_metadata@.len() != 0 && ciphertext@.len() != 0) ==> (r matches Ok(
                e,
            ) && e.kind == kind && e.kid == kid && e.counter == counter && e.ciphertext == ciphertext
                && e.aad_commitment@ == sha256_of(
                aad_commitment_input(kind, kid@, counter, aad_metadata@),
            )),
    {
        if kid.len() == 0 || aad_metadata.len() == 0 {
            return Err(RelayIntegrityError::MissingProtectedMetadata);
        }
        if ciphertext.len() == 0 {
            return Err(RelayIntegrityError::EmptyCiphertext);
        }
        let aad_commitment = aad_commitment(kind, kid.as_slice(), counter, aad_metadata);
        Ok(RelayProtectedEnvelope { kind, kid, counter, aad_commitment, ciphertext })
    }

    /// The relay-visible byte image: public metadata and ciphertext only.
    pub open spec fn visible(&self) -> Seq<u8> {
        encode_utf8(kind_label(self.kind)) + be64(self.kid@.len() as u64) + self.kid@ + be64(
            self.counter,
        ) + self.aad_commitment@ + self.ciphertext@
    }

    /// Relay-visible bytes used by audits. This includes only public metadata
    /// and ciphertext, never raw AAD or plaintext.
    pub fn visible_bytes(&self) -> (r: Vec<u8>)
        ensures
            r@ == self.visible(),
    {
        let mut visible: Vec<u8> = Vec::new();
        push_kind_label(&mut visible, self.kind);
        push_be64(&mut visible, self.kid.len() as u64);
        push_bytes(&mut visible, self.kid.as_slice());
        push_be64(&mut visible, self.counter);
        push_bytes(&mut visible, &self.aad_commitment);
        push_bytes(&mut visible, self.ciphertext.as_slice());
        assert(visible@ =~= self.visible());
        visible
    }

    /// Validate the envelope has the replay/authentication metadata relays must carry.
    pub fn validate(&self) -> (r: Result<(), RelayIntegrityError>)
        ensures
            self.kid@.len() == 0 ==> r == Err::<(), RelayIntegrityError>(
                RelayIntegrityError::MissingProtectedMetadata,
            ),
            self.kid@.len() != 0 && self.ciphertext@.len() == 0 ==> r == Err::<
                (),
                RelayIntegrityError,
            >(RelayIntegrityError::EmptyCiphertext),
            self.kid@.len() != 0 && self.ciphertext@.len() != 0 ==> r is Ok,
    {
        if self.kid.len() == 0 {
            return Err(RelayIntegrityError::MissingProtectedMetadata);
        }
        if self.ciphertext.len() == 0 {
            return Err(RelayIntegrityError::EmptyCiphertext);
        }
        Ok(())
    }
}

/// Relay-visible protected envelope plus routing metadata.
#[derive(Debug, PartialEq, Eq)]
pub struct RelayPacket {
    /// Opaque route or peer id used by the overlay.
    pub next_hop: String,
    /// Protected frame/envelope with KID, counter, AAD commitment, and ciphertext.
    pub envelope: RelayProtectedEnvelope,
    /// Number of content-blind relay hops already traversed.
    pub hop_count: u8,
}

impl Clone for RelayPacket {
    fn clone(&self) -> (r: Self)
        ensures
            r.next_hop == self.next_hop,
            r.hop_count == self.hop_count,
            r.envelope.same_content(&self.envelope),
    {
        RelayPacket {
            next_hop: self.next_hop.clone(),
            envelope: self.envelope.clone(),
            hop_count: self.hop_count,
        }
    }
}

impl RelayPacket {
    /// Envelope checks plus the hop bound.
    pub open spec fn check(&self) -> Result<(), RelayIntegrityError> {
        if self.envelope.kid@.len() == 0 {
            Err(RelayIntegrityError::MissingProtectedMetadata)
        } else if self.envelope.ciphertext@.len() == 0 {
            Err(RelayIntegrityError::EmptyCiphertext)
        } else if self.hop_count > MAX_RELAY_HOPS {
            Err(RelayIntegrityError::HopLimitExceeded)
        } else {
            Ok(())
        }
    }

    /// Build a content-blind relay packet from a protected envelope.
    pub fn from_envelope(next_hop: &str, envelope: RelayProtectedEnvelope) -> (r: Self)
        ensures
            r.next_hop@ == next_hop@,
            r.envelope == envelope,
            r.hop_count == 0,
    {
        RelayPacket { next_hop: String::from_str(next_hop), envelope, hop_count: 0 }
    }

    /// Validate that the packet is relay-eligible ciphertext.
    pub fn validate_ciphertext_only(&self) -> (r: Result<(), RelayIntegrityError>)
        ensures
            r == self.check(),
    {
        match self.envelope.validate() {
            Err(e) => return Err(e),
            Ok(()) => {},
        }
        if (self.hop_count as usize) > MAX_RELAY_HOPS {
            return Err(RelayIntegrityError::HopLimitExceeded);
        }
        Ok(())
    }

    /// Forward unchanged bytes to the next hop without exposing content.
    pub fn forward(self, next_hop: &str) -> (r: Self)
        ensures
            r.next_hop@ == next_hop@,
            r.envelope == self.envelope,
            r.hop_count == (if self.hop_count == 255 { 255 } else { self.hop_count + 1 }),
    {
        let hop_count = if self.hop_count == 255 { 255 } else { self.hop_count + 1 };
        RelayPacket { next_hop: String::from_str(next_hop), envelope: self.envelope, hop_count }
    }

    /// Forward unchanged bytes only if the hop limit remains satisfied.
    pub fn forward_checked(self, next_hop: &str) -> (r: Result<Self, RelayIntegrityError>)
        ensures
            self.check() is Err ==> r == Err::<Self, RelayIntegrityError>(self.check()->Err_0),
            self.check() is Ok && self.hop_count >= MAX_RELAY_HOPS ==> r == Err::<
                Self,
                RelayIntegrityError,
            >(RelayIntegrityError::HopLimitExceeded),
            self.check() is Ok && self.hop_count < MAX_RELAY_HOPS ==> (r matches Ok(p)
                && p.next_hop@ == next_hop@ && p.envelope == self.envelope && p.hop_count
                == self.hop_count + 1),
    {
        match self.validate_ciphertext_only() {
            Err(e) => return Err(e),
            Ok(()) => {},
        }
        let forwarded = self.forward(next_hop);
        match forwarded.validate_ciphertext_only() {
            Err(e) => return Err(e),
            Ok(()) => {},
        }
        Ok(forwarded)
    }

    /// Simulate an active relay bit flip on the first ciphertext byte.
    pub fn tamper(self) -> (r: Self)
        ensures
            r.next_hop == self.next_hop,
            r.hop_count == self.hop_count,
            r.envelope.kind == self.envelope.kind,
            r.envelope.kid == self.envelope.kid,
            r.envelope.counter == self.envelope.counter,
            r.envelope.aad_commitment == self.envelope.aad_commitment,
            self.envelope.ciphertext@.len() == 0 ==> r.envelope.ciphertext@ == self.envelope.ciphertext@,
            self.envelope.ciphertext@.len() > 0 ==> r.envelope.ciphertext@ == self.envelope.ciphertext@.update(
                0,
                self.envelope.ciphertext@[0] ^ 0x80u8,
            ),
    {
        let mut packet = self;
        if packet.envelope.ciphertext.len() > 0 {
            let first = packet.envelope.ciphertext[0];
            packet.envelope.ciphertext.set(0, first ^ 0x80u8);
        }
        packet
    }
}

/// Check whether relay bytes visibly contain a plaintext window.
pub fn contains_plaintext(packet: &RelayPacket, plaintext: &[u8]) -> (b: bool)
    ensures
        b == (plaintext@.len() != 0 && bytes_contain(packet.envelope.visible(), plaintext@)),
{
    if plaintext.len() == 0 {
        return false;
    }
    let visible = packet.envelope.visible_bytes();
    bytes_contains(visible.as_slice(), plaintext)
}

} // verus!

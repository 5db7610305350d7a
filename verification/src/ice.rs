//! ICE/STUN/TURN endpoint policy parsing and deterministic fallback conversion.
//!
//! These types stop at typed configuration and validation. They do not create
//! WebRTC offers, gather candidates, or open media transports.
use vstd::prelude::*;
use vstd::utf8::*;
use crate::digest::{le64, push_le64, push_bytes};
use crate::text::{all_ws, has_ws, is_trimmed, join2, only_ws, any_ws, str_starts_with, starts_with, text, trimmed};
use crate::transport::{ConnectivityConfig, Endpoint, EndpointOverrides, TransportError};

verus! {

/// TURN server endpoint plus optional short-lived credentials from invite/group policy.
#[derive(PartialEq, Eq)]
pub struct TurnServerConfig {
    /// TURN or TURNS provider URI.
    pub endpoint: Endpoint,
    /// Username for ephemeral TURN credentials, if required by the server.
    pub username: Option<String>,
    /// Raw ephemeral TURN credential. Never rendered by `redacted_debug`.
    pub credential: Option<String>,
    /// RFC3339 expiration time for the TURN credential, if present.
    pub credential_expires_at: Option<String>,
}

fn clone_opt_string(o: &Option<String>) -> (r: Option<String>)
    ensures
        r == *o,
{
    match o {
        Some(s) => Some(s.clone()),
        None => None,
    }
}

impl Clone for TurnServerConfig {
    fn clone(&self) -> (r: Self)
        ensures
            r == *self,
    {
        TurnServerConfig {
            endpoint: self.endpoint.clone(),
            username: clone_opt_string(&self.username),
            credential: clone_opt_string(&self.credential),
            credential_expires_at: clone_opt_string(&self.credential_expires_at),
        }
    }
}

/// Which scheme family an endpoint must use.
#[derive(Clone, Copy, PartialEq, Eq, Structural)]
pub enum EndpointKind {
    Stun,
    Turn,
}

/// The message rejecting an endpoint of `kind`, if it is invalid.
pub open spec fn endpoint_error(value: Seq<char>, kind: EndpointKind) -> Option<Seq<char>> {
    if value.len() == 0 || !is_trimmed(value) || encode_utf8(value).len() > 512 || has_ws(value) {
        Some("ICE endpoint must be non-empty, trimmed, and whitespace-free"@)
    } else if (kind is Stun && !(starts_with(value, "stun:"@) || starts_with(value, "stuns:"@))) || (
    kind is Turn && !(starts_with(value, "turn:"@) || starts_with(value, "turns:"@))) {
        Some("unsupported ICE endpoint scheme: "@ + value)
    } else {
        None
    }
}

/// The message rejecting a TURN server entry, if it is invalid.
pub open spec fn turn_error(t: TurnServerConfig) -> Option<Seq<char>> {
    if endpoint_error(t.endpoint.0@, EndpointKind::Turn) is Some {
        endpoint_error(t.endpoint.0@, EndpointKind::Turn)
    } else {
        match (t.username, t.credential) {
            (Some(u), Some(c)) => if !all_ws(u@) && !all_ws(c@) {
                None
            } else {
                Some("TURN username and credential must be provided together"@)
            },
            (None, None) => None,
            _ => Some("TURN username and credential must be provided together"@),
        }
    }
}

/// First failing STUN endpoint, in order.
pub open spec fn first_stun_error(s: Seq<Endpoint>) -> Option<Seq<char>>
    decreases s.len(),
{
    if s.len() == 0 {
        None
    } else if endpoint_error(s[0].0@, EndpointKind::Stun) is Some {
        endpoint_error(s[0].0@, EndpointKind::Stun)
    } else {
        first_stun_error(s.drop_first())
    }
}

/// First failing TURN server, in order.
pub open spec fn first_turn_error(s: Seq<TurnServerConfig>) -> Option<Seq<char>>
    decreases s.len(),
{
    if s.len() == 0 {
        None
    } else if turn_error(s[0]) is Some {
        turn_error(s[0])
    } else {
        first_turn_error(s.drop_first())
    }
}

/// The message rejecting a policy with these servers, if any.
pub open spec fn policy_error(stun: Seq<Endpoint>, turn: Seq<TurnServerConfig>) -> Option<Seq<char>> {
    if stun.len() == 0 && turn.len() == 0 {
        Some("at least one STUN or TURN server is required"@)
    } else if first_stun_error(stun) is Some {
        first_stun_error(stun)
    } else {
        first_turn_error(turn)
    }
}

/// `r` is the result of validating against `err`.
pub open spec fn checked_by(err: Option<Seq<char>>, r: Result<(), TransportError>) -> bool {
    match err {
        None => r is Ok,
        Some(m) => r matches Err(TransportError::InvalidIcePolicy(x)) && x@ == m,
    }
}

fn validate_endpoint(endpoint: &Endpoint, kind: EndpointKind) -> (r: Result<(), TransportError>)
    ensures
        checked_by(endpoint_error(endpoint.0@, kind), r),
{
    let value = endpoint.0.as_str();
    if value.unicode_len() == 0 || !trimmed(value) || value.as_bytes().len() > 512 || any_ws(value) {
        return Err(
            TransportError::InvalidIcePolicy(
                text("ICE endpoint must be non-empty, trimmed, and whitespace-free"),
            ),
        );
    }
    let valid_scheme = match kind {
        EndpointKind::Stun => str_starts_with(value, "stun:") || str_starts_with(value, "stuns:"),
        EndpointKind::Turn => str_starts_with(value, "turn:") || str_starts_with(value, "turns:"),
    };
    if valid_scheme {
        Ok(())
    } else {
        Err(TransportError::InvalidIcePolicy(join2("unsupported ICE endpoint scheme: ", value)))
    }
}

impl TurnServerConfig {
    /// Construct TURN server metadata. Expiry is parsed in the credential validation phase.
    pub fn new(
        endpoint: Endpoint,
        username: Option<String>,
        credential: Option<String>,
        credential_expires_at: Option<String>,
    ) -> (r: Self)
        ensures
            r == (TurnServerConfig { endpoint, username, credential, credential_expires_at }),
    {
        TurnServerConfig { endpoint, username, credential, credential_expires_at }
    }

    /// Validate endpoint scheme and credential field pairing.
    pub fn validate(&self) -> (r: Result<(), TransportError>)
        ensures
            checked_by(turn_error(*self), r),
    {
        match validate_endpoint(&self.endpoint, EndpointKind::Turn) {
            Err(e) => return Err(e),
            Ok(()) => {},
        }
        match (&self.username, &self.credential) {
            (Some(username), Some(credential)) => {
                if !only_ws(username.as_str()) && !only_ws(credential.as_str()) {
                    Ok(())
                } else {
                    Err(
                        TransportError::InvalidIcePolicy(
                            text("TURN username and credential must be provided together"),
                        ),
                    )
                }
            },
            (None, None) => Ok(()),
            _ => Err(
                TransportError::InvalidIcePolicy(
                    text("TURN username and credential must be provided together"),
                ),
            ),
        }
    }

    /// Debug rendering that never shows the raw credential.
    pub fn redacted_debug(&self) -> (r: String)
        ensures
            r@ == "TurnServerConfig { endpoint: "@ + self.endpoint.0@ + ", username: "@
                + opt_render(self.username) + ", credential: "@ + (if self.credential is Some {
                "<redacted>"@
            } else {
                "None"@
            }) + ", credential_expires_at: "@ + opt_render(self.credential_expires_at) + " }"@,
    {
        let mut out = text("TurnServerConfig { endpoint: ");
        out.append(self.endpoint.0.as_str());
        out.append(", username: ");
        push_opt(&mut out, &self.username);
        out.append(", credential: ");
        if self.credential.is_some() {
            out.append("<redacted>");
        } else {
            out.append("None");
        }
        out.append(", credential_expires_at: ");
        push_opt(&mut out, &self.credential_expires_at);
        out.append(" }");
        proof {
            reveal_strlit("<redacted>");
        }
        out
    }
}

/// `None`, or the text itself.
pub open spec fn opt_render(o: Option<String>) -> Seq<char> {
    match o {
        Some(s) => s@,
        None => "None"@,
    }
}

fn push_opt(out: &mut String, o: &Option<String>)
    ensures
        final(out)@ == old(out)@ + opt_render(*o),
{
    match o {
        Some(s) => out.append(s.as_str()),
        None => out.append("None"),
    }
}

/// Length-prefixed UTF-8 of a string, as signed invite descriptors encode it.
pub open spec fn enc_str(s: Seq<char>) -> Seq<u8> {
    le64(encode_utf8(s).len() as u64) + encode_utf8(s)
}

pub open spec fn enc_opt(o: Option<String>) -> Seq<u8> {
    match o {
        Some(s) => seq![1u8] + enc_str(s@),
        None => seq![0u8],
    }
}

pub open spec fn enc_stuns(s: Seq<Endpoint>) -> Seq<u8>
    decreases s.len(),
{
    if s.len() == 0 {
        Seq::empty()
    } else {
        enc_stuns(s.drop_last()) + enc_str(s.last().0@)
    }
}

pub open spec fn enc_turn(t: TurnServerConfig) -> Seq<u8> {
    enc_str(t.endpoint.0@) + enc_opt(t.username) + enc_opt(t.credential) + enc_opt(
        t.credential_expires_at,
    )
}

pub open spec fn enc_turns(s: Seq<TurnServerConfig>) -> Seq<u8>
    decreases s.len(),
{
    if s.len() == 0 {
        Seq::empty()
    } else {
        enc_turns(s.drop_last()) + enc_turn(s.last())
    }
}

/// Bytes signed for an ICE endpoint policy: the domain tag, then the STUN and
/// TURN lists, each preceded by its length.
pub open spec fn ice_signing_encoding(p: IceEndpointPolicy) -> Seq<u8> {
    encode_utf8("discrypt-ice-endpoint-policy-v1"@) + le64(p.stun_servers@.len() as u64) + enc_stuns(p.stun_servers@)
        + le64(p.turn_servers@.len() as u64) + enc_turns(p.turn_servers@)
}

/// Character views of STUN endpoints.
pub open spec fn stun_views(s: Seq<Endpoint>) -> Seq<Seq<char>> {
    s.map_values(|e: Endpoint| e.0@)
}

/// Character view of an optional string.
pub open spec fn opt_view(o: Option<String>) -> Option<Seq<char>> {
    match o {
        Some(x) => Some(x@),
        None => None,
    }
}

/// Character views of a TURN server's fields.
pub open spec fn turn_view(t: TurnServerConfig) -> (Seq<char>, Option<Seq<char>>, Option<Seq<char>>, Option<Seq<char>>) {
    (t.endpoint.0@, opt_view(t.username), opt_view(t.credential), opt_view(t.credential_expires_at))
}

/// Character views of TURN servers.
pub open spec fn turn_views(s: Seq<TurnServerConfig>) -> Seq<(Seq<char>, Option<Seq<char>>, Option<Seq<char>>, Option<Seq<char>>)> {
    s.map_values(|t: TurnServerConfig| turn_view(t))
}

/// A string whose UTF-8 length a 64-bit length prefix can hold.
pub open spec fn str_fits(x: Seq<char>) -> bool {
    encode_utf8(x).len() <= u64::MAX
}

/// An optional string that fits a 64-bit length prefix.
pub open spec fn opt_fits(o: Option<String>) -> bool {
    match o {
        Some(x) => str_fits(x@),
        None => true,
    }
}

/// A TURN server whose strings fit 64-bit length prefixes.
pub open spec fn turn_fits(t: TurnServerConfig) -> bool {
    str_fits(t.endpoint.0@) && opt_fits(t.username) && opt_fits(t.credential) && opt_fits(t.credential_expires_at)
}

/// A policy whose list lengths and strings fit 64-bit length prefixes.
pub open spec fn policy_fits(p: IceEndpointPolicy) -> bool {
    &&& p.stun_servers@.len() <= u64::MAX
    &&& p.turn_servers@.len() <= u64::MAX
    &&& forall|i: int| 0 <= i < p.stun_servers@.len() ==> str_fits(#[trigger] p.stun_servers@[i].0@)
    &&& forall|i: int| 0 <= i < p.turn_servers@.len() ==> turn_fits(#[trigger] p.turn_servers@[i])
}

proof fn lemma_le64_injective(a: u64, b: u64)
    requires
        le64(a) == le64(b),
    ensures
        a == b,
{
    assert(le64(a)[0] == le64(b)[0] && le64(a)[1] == le64(b)[1] && le64(a)[2] == le64(b)[2] && le64(a)[3] == le64(b)[3]);
    assert(le64(a)[4] == le64(b)[4] && le64(a)[5] == le64(b)[5] && le64(a)[6] == le64(b)[6] && le64(a)[7] == le64(b)[7]);
    assert(a == b) by (bit_vector)
        requires
            a as u8 == b as u8,
            (a >> 8u64) as u8 == (b >> 8u64) as u8,
            (a >> 16u64) as u8 == (b >> 16u64) as u8,
            (a >> 24u64) as u8 == (b >> 24u64) as u8,
            (a >> 32u64) as u8 == (b >> 32u64) as u8,
            (a >> 40u64) as u8 == (b >> 40u64) as u8,
            (a >> 48u64) as u8 == (b >> 48u64) as u8,
            (a >> 56u64) as u8 == (b >> 56u64) as u8,
    ;
}

/// Equal sequences split at the same point give equal parts.
proof fn lemma_split_equal(a1: Seq<u8>, r1: Seq<u8>, a2: Seq<u8>, r2: Seq<u8>)
    requires
        a1 + r1 == a2 + r2,
        a1.len() == a2.len(),
    ensures
        a1 == a2,
        r1 == r2,
{
    let x = a1 + r1;
    assert(a1 =~= x.subrange(0, a1.len() as int));
    assert(a2 =~= (a2 + r2).subrange(0, a2.len() as int));
    assert(r1 =~= x.subrange(a1.len() as int, x.len() as int));
    assert(r2 =~= (a2 + r2).subrange(a2.len() as int, (a2 + r2).len() as int));
}

proof fn lemma_enc_str_prefix(s1: Seq<char>, r1: Seq<u8>, s2: Seq<char>, r2: Seq<u8>)
    requires
        str_fits(s1),
        str_fits(s2),
        enc_str(s1) + r1 == enc_str(s2) + r2,
    ensures
        s1 == s2,
        r1 == r2,
{
    let e1 = encode_utf8(s1);
    let e2 = encode_utf8(s2);
    assert(enc_str(s1) + r1 =~= le64(e1.len() as u64) + (e1 + r1));
    assert(enc_str(s2) + r2 =~= le64(e2.len() as u64) + (e2 + r2));
    lemma_split_equal(le64(e1.len() as u64), e1 + r1, le64(e2.len() as u64), e2 + r2);
    lemma_le64_injective(e1.len() as u64, e2.len() as u64);
    lemma_split_equal(e1, r1, e2, r2);
    encode_utf8_decode_utf8(s1);
    encode_utf8_decode_utf8(s2);
}

proof fn lemma_enc_opt_prefix(o1: Option<String>, r1: Seq<u8>, o2: Option<String>, r2: Seq<u8>)
    requires
        opt_fits(o1),
        opt_fits(o2),
        enc_opt(o1) + r1 == enc_opt(o2) + r2,
    ensures
        opt_view(o1) == opt_view(o2),
        r1 == r2,
{
    let x = enc_opt(o1) + r1;
    assert(x[0] == (enc_opt(o2) + r2)[0]);
    match (o1, o2) {
        (Some(a), Some(b)) => {
            assert(x =~= seq![1u8] + (enc_str(a@) + r1));
            assert(enc_opt(o2) + r2 =~= seq![1u8] + (enc_str(b@) + r2));
            lemma_split_equal(seq![1u8], enc_str(a@) + r1, seq![1u8], enc_str(b@) + r2);
            lemma_enc_str_prefix(a@, r1, b@, r2);
        },
        (None, None) => {
            assert(x =~= seq![0u8] + r1);
            assert(enc_opt(o2) + r2 =~= seq![0u8] + r2);
            lemma_split_equal(seq![0u8], r1, seq![0u8], r2);
        },
        (Some(a), None) => {
            assert(x[0] == 1u8);
            assert((enc_opt(o2) + r2)[0] == 0u8);
        },
        (None, Some(b)) => {
            assert(x[0] == 0u8);
            assert((enc_opt(o2) + r2)[0] == 1u8);
        },
    }
}

proof fn lemma_enc_stuns_front(s: Seq<Endpoint>)
    requires
        s.len() > 0,
    ensures
        enc_stuns(s) == enc_str(s[0].0@) + enc_stuns(s.drop_first()),
    decreases s.len(),
{
    if s.len() == 1 {
        assert(s.drop_first() =~= Seq::<Endpoint>::empty());
        assert(s.drop_last() =~= Seq::<Endpoint>::empty());
        assert(enc_stuns(s) =~= enc_str(s[0].0@) + enc_stuns(s.drop_first()));
    } else {
        lemma_enc_stuns_front(s.drop_last());
        assert(s.drop_last().drop_first() =~= s.drop_first().drop_last());
        assert(s.drop_last()[0] == s[0]);
        assert(s.drop_first().last() == s.last());
        assert(enc_stuns(s) =~= enc_str(s[0].0@) + enc_stuns(s.drop_first()));
    }
}

proof fn lemma_enc_turns_front(s: Seq<TurnServerConfig>)
    requires
        s.len() > 0,
    ensures
        enc_turns(s) == enc_turn(s[0]) + enc_turns(s.drop_first()),
    decreases s.len(),
{
    if s.len() == 1 {
        assert(s.drop_first() =~= Seq::<TurnServerConfig>::empty());
        assert(s.drop_last() =~= Seq::<TurnServerConfig>::empty());
        assert(enc_turns(s) =~= enc_turn(s[0]) + enc_turns(s.drop_first()));
    } else {
        lemma_enc_turns_front(s.drop_last());
        assert(s.drop_last().drop_first() =~= s.drop_first().drop_last());
        assert(s.drop_last()[0] == s[0]);
        assert(s.drop_first().last() == s.last());
        assert(enc_turns(s) =~= enc_turn(s[0]) + enc_turns(s.drop_first()));
    }
}

proof fn lemma_enc_stuns_prefix(a: Seq<Endpoint>, r1: Seq<u8>, b: Seq<Endpoint>, r2: Seq<u8>)
    requires
        a.len() == b.len(),
        forall|i: int| 0 <= i < a.len() ==> str_fits(#[trigger] a[i].0@),
        forall|i: int| 0 <= i < b.len() ==> str_fits(#[trigger] b[i].0@),
        enc_stuns(a) + r1 == enc_stuns(b) + r2,
    ensures
        stun_views(a) == stun_views(b),
        r1 == r2,
    decreases a.len(),
{
    if a.len() == 0 {
        assert(enc_stuns(a) + r1 =~= r1);
        assert(enc_stuns(b) + r2 =~= r2);
        assert(stun_views(a) =~= stun_views(b));
    } else {
        lemma_enc_stuns_front(a);
        lemma_enc_stuns_front(b);
        assert(enc_stuns(a) + r1 =~= enc_str(a[0].0@) + (enc_stuns(a.drop_first()) + r1));
        assert(enc_stuns(b) + r2 =~= enc_str(b[0].0@) + (enc_stuns(b.drop_first()) + r2));
        assert(str_fits(a[0].0@) && str_fits(b[0].0@));
        lemma_enc_str_prefix(a[0].0@, enc_stuns(a.drop_first()) + r1, b[0].0@, enc_stuns(b.drop_first()) + r2);
        assert forall|i: int| 0 <= i < a.drop_first().len() implies str_fits(#[trigger] a.drop_first()[i].0@) by {
            assert(a.drop_first()[i] == a[i + 1]);
        }
        assert forall|i: int| 0 <= i < b.drop_first().len() implies str_fits(#[trigger] b.drop_first()[i].0@) by {
            assert(b.drop_first()[i] == b[i + 1]);
        }
        lemma_enc_stuns_prefix(a.drop_first(), r1, b.drop_first(), r2);
        assert forall|i: int| 0 <= i < a.len() implies stun_views(a)[i] == stun_views(b)[i] by {
            if i > 0 {
                assert(stun_views(a.drop_first())[i - 1] == stun_views(b.drop_first())[i - 1]);
            }
        }
        assert(stun_views(a) =~= stun_views(b));
    }
}

proof fn lemma_add_assoc(a: Seq<u8>, b: Seq<u8>, c: Seq<u8>)
    ensures
        (a + b) + c == a + (b + c),
{
    assert((a + b) + c =~= a + (b + c));
}

proof fn lemma_turn_regroup(t: TurnServerConfig, r: Seq<u8>)
    ensures
        enc_turn(t) + r == enc_str(t.endpoint.0@) + (enc_opt(t.username) + (enc_opt(t.credential) + (enc_opt(
            t.credential_expires_at,
        ) + r))),
{
    let e = enc_str(t.endpoint.0@);
    let u = enc_opt(t.username);
    let c = enc_opt(t.credential);
    let x = enc_opt(t.credential_expires_at);
    lemma_add_assoc(e + u + c, x, r);
    lemma_add_assoc(e + u, c, x + r);
    lemma_add_assoc(e, u, c + (x + r));
}

proof fn lemma_enc_turn_prefix(t1: TurnServerConfig, r1: Seq<u8>, t2: TurnServerConfig, r2: Seq<u8>)
    requires
        turn_fits(t1),
        turn_fits(t2),
        enc_turn(t1) + r1 == enc_turn(t2) + r2,
    ensures
        turn_view(t1) == turn_view(t2),
        r1 == r2,
{
    let c1 = enc_opt(t1.credential_expires_at) + r1;
    let c2 = enc_opt(t2.credential_expires_at) + r2;
    let b1 = enc_opt(t1.credential) + c1;
    let b2 = enc_opt(t2.credential) + c2;
    let a1 = enc_opt(t1.username) + b1;
    let a2 = enc_opt(t2.username) + b2;
    lemma_turn_regroup(t1, r1);
    lemma_turn_regroup(t2, r2);
    lemma_enc_str_prefix(t1.endpoint.0@, a1, t2.endpoint.0@, a2);
    lemma_enc_opt_prefix(t1.username, b1, t2.username, b2);
    lemma_enc_opt_prefix(t1.credential, c1, t2.credential, c2);
    lemma_enc_opt_prefix(t1.credential_expires_at, r1, t2.credential_expires_at, r2);
}

proof fn lemma_enc_turns_prefix(a: Seq<TurnServerConfig>, r1: Seq<u8>, b: Seq<TurnServerConfig>, r2: Seq<u8>)
    requires
        a.len() == b.len(),
        forall|i: int| 0 <= i < a.len() ==> turn_fits(#[trigger] a[i]),
        forall|i: int| 0 <= i < b.len() ==> turn_fits(#[trigger] b[i]),
        enc_turns(a) + r1 == enc_turns(b) + r2,
    ensures
        turn_views(a) == turn_views(b),
        r1 == r2,
    decreases a.len(),
{
    if a.len() == 0 {
        assert(enc_turns(a) + r1 =~= r1);
        assert(enc_turns(b) + r2 =~= r2);
        assert(turn_views(a) =~= turn_views(b));
    } else {
        lemma_enc_turns_front(a);
        lemma_enc_turns_front(b);
        assert(enc_turns(a) + r1 =~= enc_turn(a[0]) + (enc_turns(a.drop_first()) + r1));
        assert(enc_turns(b) + r2 =~= enc_turn(b[0]) + (enc_turns(b.drop_first()) + r2));
        assert(turn_fits(a[0]) && turn_fits(b[0]));
        lemma_enc_turn_prefix(a[0], enc_turns(a.drop_first()) + r1, b[0], enc_turns(b.drop_first()) + r2);
        assert forall|i: int| 0 <= i < a.drop_first().len() implies turn_fits(#[trigger] a.drop_first()[i]) by {
            assert(a.drop_first()[i] == a[i + 1]);
        }
        assert forall|i: int| 0 <= i < b.drop_first().len() implies turn_fits(#[trigger] b.drop_first()[i]) by {
            assert(b.drop_first()[i] == b[i + 1]);
        }
        lemma_enc_turns_prefix(a.drop_first(), r1, b.drop_first(), r2);
        assert forall|i: int| 0 <= i < a.len() implies turn_views(a)[i] == turn_views(b)[i] by {
            if i > 0 {
                assert(turn_views(a.drop_first())[i - 1] == turn_views(b.drop_first())[i - 1]);
            }
        }
        assert(turn_views(a) =~= turn_views(b));
    }
}

/// The signed encoding of an ICE endpoint policy is injective: policies whose
/// strings fit their length prefixes sign the same bytes only when their STUN
/// and TURN lists hold the same text.
pub proof fn law_signing_bytes_injective(p1: IceEndpointPolicy, p2: IceEndpointPolicy)
    requires
        policy_fits(p1),
        policy_fits(p2),
        ice_signing_encoding(p1) == ice_signing_encoding(p2),
    ensures
        stun_views(p1.stun_servers@) == stun_views(p2.stun_servers@),
        turn_views(p1.turn_servers@) == turn_views(p2.turn_servers@),
{
    let tag = encode_utf8("discrypt-ice-endpoint-policy-v1"@);
    let s1 = p1.stun_servers@;
    let s2 = p2.stun_servers@;
    let t1 = p1.turn_servers@;
    let t2 = p2.turn_servers@;
    let rest1 = enc_stuns(s1) + (le64(t1.len() as u64) + enc_turns(t1));
    let rest2 = enc_stuns(s2) + (le64(t2.len() as u64) + enc_turns(t2));
    assert(ice_signing_encoding(p1) =~= tag + (le64(s1.len() as u64) + rest1));
    assert(ice_signing_encoding(p2) =~= tag + (le64(s2.len() as u64) + rest2));
    lemma_split_equal(tag, le64(s1.len() as u64) + rest1, tag, le64(s2.len() as u64) + rest2);
    lemma_split_equal(le64(s1.len() as u64), rest1, le64(s2.len() as u64), rest2);
    lemma_le64_injective(s1.len() as u64, s2.len() as u64);
    lemma_enc_stuns_prefix(s1, le64(t1.len() as u64) + enc_turns(t1), s2, le64(t2.len() as u64) + enc_turns(t2));
    lemma_split_equal(le64(t1.len() as u64), enc_turns(t1), le64(t2.len() as u64), enc_turns(t2));
    lemma_le64_injective(t1.len() as u64, t2.len() as u64);
    assert(enc_turns(t1) + Seq::<u8>::empty() =~= enc_turns(t1));
    assert(enc_turns(t2) + Seq::<u8>::empty() =~= enc_turns(t2));
    lemma_enc_turns_prefix(t1, Seq::empty(), t2, Seq::empty());
}

fn push_string(bytes: &mut Vec<u8>, value: &str)
    ensures
        final(bytes)@ == old(bytes)@ + enc_str(value@),
{
    let raw = value.as_bytes();
    push_le64(bytes, raw.len() as u64);
    push_bytes(bytes, raw);
    assert(final(bytes)@ =~= old(bytes)@ + enc_str(value@)) by {
        assert(raw@ == encode_utf8(value@));
    }
}

fn push_optional_string(bytes: &mut Vec<u8>, value: &Option<String>)
    ensures
        final(bytes)@ == old(bytes)@ + enc_opt(*value),
{
    match value {
        Some(v) => {
            bytes.push(1u8);
            push_string(bytes, v.as_str());
            assert(final(bytes)@ =~= old(bytes)@ + enc_opt(*value));
        },
        None => {
            bytes.push(0u8);
            assert(final(bytes)@ =~= old(bytes)@ + enc_opt(*value));
        },
    }
}

/// Validated ICE server config consumed by transport planning and future WebRTC setup.
#[derive(PartialEq, Eq)]
pub struct IceServerConfig {
    /// STUN endpoints after invite/group precedence resolution.
    pub stun_servers: Vec<Endpoint>,
    /// TURN endpoints after invite/group precedence resolution.
    pub turn_servers: Vec<TurnServerConfig>,
}

/// Signed invite/group policy containing ICE server endpoints joiners may use.
#[derive(PartialEq, Eq)]
pub struct IceEndpointPolicy {
    /// STUN endpoints used for direct ICE candidate discovery.
    pub stun_servers: Vec<Endpoint>,
    /// TURN endpoints used as the final relay fallback.
    pub turn_servers: Vec<TurnServerConfig>,
}

impl IceEndpointPolicy {
    /// Same server lists.
    pub open spec fn same(&self, other: &Self) -> bool {
        self.stun_servers@ == other.stun_servers@ && self.turn_servers@ == other.turn_servers@
    }
}

impl Clone for IceEndpointPolicy {
    fn clone(&self) -> (r: Self)
        ensures
            r.same(self),
    {
        IceEndpointPolicy {
            stun_servers: clone_endpoints(&self.stun_servers),
            turn_servers: clone_turns(&self.turn_servers),
        }
    }
}

impl Clone for IceServerConfig {
    fn clone(&self) -> (r: Self)
        ensures
            r.stun_servers@ == self.stun_servers@,
            r.turn_servers@ == self.turn_servers@,
    {
        IceServerConfig {
            stun_servers: clone_endpoints(&self.stun_servers),
            turn_servers: clone_turns(&self.turn_servers),
        }
    }
}

fn clone_endpoints(v: &Vec<Endpoint>) -> (r: Vec<Endpoint>)
    ensures
        r@ == v@,
{
    let r = v.clone();
    assert(r@ =~= v@);
    r
}

fn clone_turns(v: &Vec<TurnServerConfig>) -> (r: Vec<TurnServerConfig>)
    ensures
        r@ == v@,
{
    let r = v.clone();
    assert(r@ =~= v@);
    r
}

/// Built-in STUN endpoint used when an invite carries no custom ICE policy.
pub open spec fn default_stun_endpoint() -> Seq<char> {
    "stun:default.discrypt.invalid:3478"@
}

/// Built-in TURN endpoint used when an invite carries no custom ICE policy.
pub open spec fn default_turn_endpoint() -> Seq<char> {
    "turns:default.discrypt.invalid:5349"@
}

impl IceEndpointPolicy {
    /// The built-in policy: one STUN and one credential-less TURN endpoint.
    pub open spec fn is_default_production(&self) -> bool {
        &&& self.stun_servers@.len() == 1
        &&& self.stun_servers@[0].0@ == default_stun_endpoint()
        &&& self.turn_servers@.len() == 1
        &&& self.turn_servers@[0].endpoint.0@ == default_turn_endpoint()
        &&& self.turn_servers@[0].username is None
        &&& self.turn_servers@[0].credential is None
        &&& self.turn_servers@[0].credential_expires_at is None
    }

    /// Deterministic safe defaults used when an invite carries no custom ICE policy.
    pub fn default_production() -> (r: Self)
        ensures
            r.is_default_production(),
    {
        let mut stun: Vec<Endpoint> = Vec::new();
        stun.push(Endpoint::new("stun:default.discrypt.invalid:3478"));
        let mut turn: Vec<TurnServerConfig> = Vec::new();
        turn.push(TurnServerConfig::new(Endpoint::new("turns:default.discrypt.invalid:5349"), None, None, None));
        IceEndpointPolicy { stun_servers: stun, turn_servers: turn }
    }

    /// Construct a policy from explicit STUN and TURN metadata after endpoint validation.
    pub fn new(stun_servers: Vec<Endpoint>, turn_servers: Vec<TurnServerConfig>) -> (r: Result<
        Self,
        TransportError,
    >)
        ensures
            match policy_error(stun_servers@, turn_servers@) {
                None => r matches Ok(p) && p.stun_servers == stun_servers && p.turn_servers
                    == turn_servers,
                Some(m) => r matches Err(TransportError::InvalidIcePolicy(x)) && x@ == m,
            },
    {
        let policy = IceEndpointPolicy { stun_servers, turn_servers };
        match policy.validate() {
            Err(e) => Err(e),
            Ok(()) => Ok(policy),
        }
    }

    /// Validate endpoint schemes and required policy shape.
    pub fn validate(&self) -> (r: Result<(), TransportError>)
        ensures
            checked_by(policy_error(self.stun_servers@, self.turn_servers@), r),
    {
        if self.stun_servers.len() == 0 && self.turn_servers.len() == 0 {
            return Err(
                TransportError::InvalidIcePolicy(text("at least one STUN or TURN server is required")),
            );
        }
        let s = &self.stun_servers;
        let n = s.len();
        let mut i: usize = 0;
        assert(s@.skip(0) =~= s@);
        while i < n
            invariant
                n == s@.len(),
                i <= n,
                s@ == self.stun_servers@,
                !(self.stun_servers@.len() == 0 && self.turn_servers@.len() == 0),
                first_stun_error(s@) == first_stun_error(s@.skip(i as int)),
            decreases n - i,
        {
            assert(s@.skip(i as int)[0] == s@[i as int]);
            match validate_endpoint(&s[i], EndpointKind::Stun) {
                Err(e) => {
                    assert(first_stun_error(s@.skip(i as int)) == endpoint_error(s@[i as int].0@, EndpointKind::Stun));
                    return Err(e);
                },
                Ok(()) => {},
            }
            assert(s@.skip(i as int).drop_first() =~= s@.skip(i + 1));
            i = i + 1;
        }
        assert(s@.skip(n as int) =~= Seq::<Endpoint>::empty());
        let t = &self.turn_servers;
        let m = t.len();
        let mut j: usize = 0;
        assert(t@.skip(0) =~= t@);
        while j < m
            invariant
                m == t@.len(),
                j <= m,
                t@ == self.turn_servers@,
                !(self.stun_servers@.len() == 0 && self.turn_servers@.len() == 0),
                first_stun_error(self.stun_servers@) is None,
                first_turn_error(t@) == first_turn_error(t@.skip(j as int)),
            decreases m - j,
        {
            assert(t@.skip(j as int)[0] == t@[j as int]);
            match t[j].validate() {
                Err(e) => {
                    assert(first_turn_error(t@.skip(j as int)) == turn_error(t@[j as int]));
                    return Err(e);
                },
                Ok(()) => {},
            }
            assert(t@.skip(j as int).drop_first() =~= t@.skip(j + 1));
            j = j + 1;
        }
        assert(t@.skip(m as int) =~= Seq::<TurnServerConfig>::empty());
        Ok(())
    }

    /// Canonical bytes included in signed invite descriptors.
    pub fn signing_bytes(&self) -> (r: Vec<u8>)
        ensures
            r@ == ice_signing_encoding(*self),
    {
        let mut bytes: Vec<u8> = Vec::new();
        crate::digest::push_str_bytes(&mut bytes, "discrypt-ice-endpoint-policy-v1");
        push_le64(&mut bytes, self.stun_servers.len() as u64);
        let ghost head = bytes@;
        let s = &self.stun_servers;
        let n = s.len();
        let mut i: usize = 0;
        while i < n
            invariant
                n == s@.len(),
                i <= n,
                bytes@ == head + enc_stuns(s@.take(i as int)),
            decreases n - i,
        {
            push_string(&mut bytes, s[i].0.as_str());
            assert(s@.take(i + 1).drop_last() =~= s@.take(i as int));
            i = i + 1;
        }
        assert(s@.take(n as int) =~= s@);
        push_le64(&mut bytes, self.turn_servers.len() as u64);
        let ghost head2 = bytes@;
        let t = &self.turn_servers;
        let m = t.len();
        let mut j: usize = 0;
        while j < m
            invariant
                m == t@.len(),
                j <= m,
                bytes@ == head2 + enc_turns(t@.take(j as int)),
            decreases m - j,
        {
            let ghost before = bytes@;
            push_string(&mut bytes, t[j].endpoint.0.as_str());
            push_optional_string(&mut bytes, &t[j].username);
            push_optional_string(&mut bytes, &t[j].credential);
            push_optional_string(&mut bytes, &t[j].credential_expires_at);
            assert(t@.take(j + 1).drop_last() =~= t@.take(j as int));
            assert(bytes@ =~= before + enc_turn(t@[j as int]));
            j = j + 1;
        }
        assert(t@.take(m as int) =~= t@);
        bytes
    }

    /// The configuration `resolve` yields, when both policies are valid.
    pub open spec fn resolved(invite: IceEndpointPolicy, group: Option<IceEndpointPolicy>) -> (Seq<Endpoint>, Seq<TurnServerConfig>) {
        let stun = match group {
            Some(g) => if g.stun_servers@.len() > 0 {
                g.stun_servers@
            } else {
                invite.stun_servers@
            },
            None => invite.stun_servers@,
        };
        let turn = match group {
            Some(g) => if g.turn_servers@.len() > 0 {
                g.turn_servers@
            } else {
                invite.turn_servers@
            },
            None => invite.turn_servers@,
        };
        (stun, turn)
    }

    /// Resolving `invite` under `group` gives `r`: the invite's error, else the
    /// group's error, else the group's non-empty server lists over the invite's.
    pub open spec fn resolve_outcome(
        invite: IceEndpointPolicy,
        group: Option<IceEndpointPolicy>,
        r: Result<IceServerConfig, TransportError>,
    ) -> bool {
        let invite_err = policy_error(invite.stun_servers@, invite.turn_servers@);
        let group_err = match group {
            Some(g) => policy_error(g.stun_servers@, g.turn_servers@),
            None => None,
        };
        if invite_err is Some {
            r matches Err(TransportError::InvalidIcePolicy(x)) && x@ == invite_err->0
        } else if group_err is Some {
            r matches Err(TransportError::InvalidIcePolicy(x)) && x@ == group_err->0
        } else {
            r matches Ok(c) && (c.stun_servers@, c.turn_servers@) == Self::resolved(invite, group)
        }
    }

    /// Resolve typed ICE config, with non-empty group fields overriding invite fields.
    pub fn resolve(invite_policy: Option<&Self>, group_policy: Option<&Self>) -> (r: Result<
        IceServerConfig,
        TransportError,
    >)
        ensures
            invite_policy matches Some(p) ==> Self::resolve_outcome(*p, opt_policy(group_policy), r),
            invite_policy is None ==> exists|d: IceEndpointPolicy|
                d.is_default_production() && #[trigger] Self::resolve_outcome(d, opt_policy(group_policy), r),
    {
        let default_policy = IceEndpointPolicy::default_production();
        match invite_policy {
            Some(p) => {
                let r = Self::resolve_with(p, group_policy);
                r
            },
            None => {
                proof {
                    lemma_default_policy_valid(default_policy);
                }
                let r = Self::resolve_with(&default_policy, group_policy);
                proof {
                    assert(Self::resolve_outcome(default_policy, opt_policy(group_policy), r));
                }
                r
            },
        }
    }

    fn resolve_with(invite: &Self, group_policy: Option<&Self>) -> (r: Result<IceServerConfig, TransportError>)
        ensures
            Self::resolve_outcome(*invite, opt_policy(group_policy), r),
    {
        match invite.validate() {
            Err(e) => return Err(e),
            Ok(()) => {},
        }
        match group_policy {
            Some(g) => match g.validate() {
                Err(e) => return Err(e),
                Ok(()) => {},
            },
            None => {},
        }
        let stun_servers = match group_policy {
            Some(g) => if g.stun_servers.len() > 0 {
                clone_endpoints(&g.stun_servers)
            } else {
                clone_endpoints(&invite.stun_servers)
            },
            None => clone_endpoints(&invite.stun_servers),
        };
        let turn_servers = match group_policy {
            Some(g) => if g.turn_servers.len() > 0 {
                clone_turns(&g.turn_servers)
            } else {
                clone_turns(&invite.turn_servers)
            },
            None => clone_turns(&invite.turn_servers),
        };
        proof {
            lemma_resolved_valid(*invite, group_policy, stun_servers@, turn_servers@);
        }
        IceServerConfig::new(stun_servers, turn_servers)
    }
}

/// Resolved server lists: a group's non-empty list overrides the invite's;
/// an absent group, or an empty group list, keeps the invite's list.
pub proof fn law_group_lists_override_only_when_non_empty(
    invite: IceEndpointPolicy,
    group: Option<IceEndpointPolicy>,
    r: Result<IceServerConfig, TransportError>,
)
    requires
        IceEndpointPolicy::resolve_outcome(invite, group, r),
        r is Ok,
    ensures
        (group is None || group->0.turn_servers@.len() == 0) ==> r->Ok_0.turn_servers@ == invite.turn_servers@,
        (group matches Some(g) && g.turn_servers@.len() > 0) ==> r->Ok_0.turn_servers@ == group->0.turn_servers@,
        (group is None || group->0.stun_servers@.len() == 0) ==> r->Ok_0.stun_servers@ == invite.stun_servers@,
        (group matches Some(g) && g.stun_servers@.len() > 0) ==> r->Ok_0.stun_servers@ == group->0.stun_servers@,
{
}

/// The policy a reference points at, if any.
pub open spec fn opt_policy(o: Option<&IceEndpointPolicy>) -> Option<IceEndpointPolicy> {
    match o {
        Some(g) => Some(*g),
        None => None,
    }
}

proof fn lemma_stun_all_ok(s: Seq<Endpoint>, i: int)
    requires
        first_stun_error(s) is None,
        0 <= i < s.len(),
    ensures
        endpoint_error(s[i].0@, EndpointKind::Stun) is None,
    decreases s.len(),
{
    if i > 0 {
        lemma_stun_all_ok(s.drop_first(), i - 1);
    }
}

proof fn lemma_turn_all_ok(s: Seq<TurnServerConfig>, i: int)
    requires
        first_turn_error(s) is None,
        0 <= i < s.len(),
    ensures
        turn_error(s[i]) is None,
    decreases s.len(),
{
    if i > 0 {
        lemma_turn_all_ok(s.drop_first(), i - 1);
    }
}

proof fn lemma_stun_none_from_all(s: Seq<Endpoint>)
    requires
        forall|i: int| 0 <= i < s.len() ==> endpoint_error((#[trigger] s[i]).0@, EndpointKind::Stun) is None,
    ensures
        first_stun_error(s) is None,
    decreases s.len(),
{
    if s.len() > 0 {
        assert forall|i: int| 0 <= i < s.drop_first().len() implies endpoint_error(
            (#[trigger] s.drop_first()[i]).0@,
            EndpointKind::Stun,
        ) is None by {
            assert(s.drop_first()[i] == s[i + 1]);
        }
        lemma_stun_none_from_all(s.drop_first());
    }
}

proof fn lemma_turn_none_from_all(s: Seq<TurnServerConfig>)
    requires
        forall|i: int| 0 <= i < s.len() ==> turn_error(#[trigger] s[i]) is None,
    ensures
        first_turn_error(s) is None,
    decreases s.len(),
{
    if s.len() > 0 {
        assert forall|i: int| 0 <= i < s.drop_first().len() implies turn_error(
            #[trigger] s.drop_first()[i],
        ) is None by {
            assert(s.drop_first()[i] == s[i + 1]);
        }
        lemma_turn_none_from_all(s.drop_first());
    }
}

proof fn lemma_default_policy_valid(p: IceEndpointPolicy)
    requires
        p.is_default_production(),
    ensures
        policy_error(p.stun_servers@, p.turn_servers@) is None,
{
    reveal_strlit("stun:default.discrypt.invalid:3478");
    reveal_strlit("turns:default.discrypt.invalid:5349");
    reveal_strlit("stun:");
    reveal_strlit("turns:");
    let s = p.stun_servers@[0].0@;
    let t = p.turn_servers@[0].endpoint.0@;
    assert(s.subrange(0, 5) =~= "stun:"@);
    assert(t.subrange(0, 6) =~= "turns:"@);
    assert(!has_ws(s)) by {
        assert forall|i: int| 0 <= i < s.len() implies !crate::text::is_ws(#[trigger] s[i]) by {}
    }
    assert(!has_ws(t)) by {
        assert forall|i: int| 0 <= i < t.len() implies !crate::text::is_ws(#[trigger] t[i]) by {}
    }
    assert(encode_utf8(s).len() <= 512) by {
        crate::text::lemma_utf8_len_bound(s);
    }
    assert(encode_utf8(t).len() <= 512) by {
        crate::text::lemma_utf8_len_bound(t);
    }
    lemma_stun_none_from_all(p.stun_servers@);
    lemma_turn_none_from_all(p.turn_servers@);
}

proof fn lemma_resolved_valid(
    invite: IceEndpointPolicy,
    group: Option<&IceEndpointPolicy>,
    stun: Seq<Endpoint>,
    turn: Seq<TurnServerConfig>,
)
    requires
        policy_error(invite.stun_servers@, invite.turn_servers@) is None,
        group matches Some(g) ==> policy_error(g.stun_servers@, g.turn_servers@) is None,
        stun == (match group {
            Some(g) => if g.stun_servers@.len() > 0 { g.stun_servers@ } else { invite.stun_servers@ },
            None => invite.stun_servers@,
        }),
        turn == (match group {
            Some(g) => if g.turn_servers@.len() > 0 { g.turn_servers@ } else { invite.turn_servers@ },
            None => invite.turn_servers@,
        }),
    ensures
        policy_error(stun, turn) is None,
{
    assert forall|i: int| 0 <= i < stun.len() implies endpoint_error((#[trigger] stun[i]).0@, EndpointKind::Stun) is None by {
        match group {
            Some(g) => if g.stun_servers@.len() > 0 {
                lemma_stun_all_ok(g.stun_servers@, i);
            } else {
                lemma_stun_all_ok(invite.stun_servers@, i);
            },
            None => lemma_stun_all_ok(invite.stun_servers@, i),
        }
    }
    assert forall|i: int| 0 <= i < turn.len() implies turn_error(#[trigger] turn[i]) is None by {
        match group {
            Some(g) => if g.turn_servers@.len() > 0 {
                if g.stun_servers@.len() == 0 {
                    assert(first_turn_error(g.turn_servers@) is None);
                }
                lemma_turn_all_ok(g.turn_servers@, i);
            } else {
                lemma_turn_all_ok(invite.turn_servers@, i);
            },
            None => lemma_turn_all_ok(invite.turn_servers@, i),
        }
    }
    lemma_stun_none_from_all(stun);
    lemma_turn_none_from_all(turn);
    if stun.len() == 0 && turn.len() == 0 {
        match group {
            Some(g) => {},
            None => {},
        }
    }
}

impl IceServerConfig {
    /// Construct a typed config from already parsed endpoint metadata.
    pub fn new(stun_servers: Vec<Endpoint>, turn_servers: Vec<TurnServerConfig>) -> (r: Result<
        Self,
        TransportError,
    >)
        ensures
            match policy_error(stun_servers@, turn_servers@) {
                None => r matches Ok(c) && c.stun_servers == stun_servers && c.turn_servers
                    == turn_servers,
                Some(m) => r matches Err(TransportError::InvalidIcePolicy(x)) && x@ == m,
            },
    {
        match IceEndpointPolicy::new(stun_servers, turn_servers) {
            Err(e) => Err(e),
            Ok(policy) => Ok(
                IceServerConfig { stun_servers: policy.stun_servers, turn_servers: policy.turn_servers },
            ),
        }
    }

    /// Convert the first STUN/TURN choices into the existing fallback planner config.
    pub fn to_connectivity_config(&self) -> (r: ConnectivityConfig)
        ensures
            r.default_stun.0@ == "stun:stun.l.google.com:19302"@,
            r.default_turn.0@ == crate::transport::unconfigured_turn_endpoint(),
            r.overrides.stun == (if self.stun_servers@.len() > 0 {
                Some(self.stun_servers@[0])
            } else {
                None
            }),
            r.overrides.turn == (if self.turn_servers@.len() > 0 {
                Some(self.turn_servers@[0].endpoint)
            } else {
                None
            }),
    {
        let defaults = ConnectivityConfig::default();
        let stun = if self.stun_servers.len() > 0 {
            Some(self.stun_servers[0].clone())
        } else {
            None
        };
        let turn = if self.turn_servers.len() > 0 {
            Some(self.turn_servers[0].endpoint.clone())
        } else {
            None
        };
        ConnectivityConfig {
            default_stun: defaults.default_stun,
            default_turn: defaults.default_turn,
            overrides: EndpointOverrides::new(stun, turn),
        }
    }
}

impl Default for IceEndpointPolicy {
    fn default() -> (r: Self)
        ensures
            r.is_default_production(),
    {
        Self::default_production()
    }
}

} // verus!

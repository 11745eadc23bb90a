//! Minecraft Java Edition handshake, status and login-disconnect framing.
//!
//! Integers on the wire are VarInts: the 32-bit two's-complement value is cut
//! into 7-bit groups, least significant first, and every byte but the last
//! carries the continuation bit 0x80.
use vstd::prelude::*;
use vstd::utf8::*;
use vstd::string::StringSliceAdditionalSpecFns;

verus! {

broadcast use {encode_utf8_valid_utf8, encode_utf8_decode_utf8};

/// Largest packet body the agent accepts from a client.
pub const MAX_PACKET_SIZE: usize = 1048576;

/// Longest string (in bytes) the protocol allows in a handshake.
pub const MAX_STRING_LENGTH: i32 = 32767;

/// Law: packets are at most one mebibyte, and strings at most 32767 bytes.
pub proof fn protocol_limits()
    ensures
        MAX_PACKET_SIZE == 1024 * 1024,
        MAX_STRING_LENGTH == 32767,
{
}

/// Why a packet could not be read.
#[derive(Debug, Clone, Copy, PartialEq, Eq, Structural)]
pub enum ProtocolError {
    /// The input ended inside a VarInt.
    UnexpectedEndOfVarInt,
    /// A VarInt had a continuation bit on its fifth byte.
    VarIntTooLarge,
    /// A string length prefix was negative or above the protocol limit.
    InvalidStringLength,
    /// A string was cut short.
    TruncatedString,
    /// A string was not UTF-8.
    InvalidUtf8,
    /// The first packet was not a handshake (id 0).
    ExpectedHandshake,
    /// The handshake ended before its two port bytes.
    TruncatedHandshakePort,
    /// The handshake's next state was neither status (1) nor login (2).
    InvalidNextState,
    /// A packet length prefix was negative or too large.
    InvalidPacketSize,
    /// The packet after a status handshake was not a status request (id 0).
    ExpectedStatusRequest,
}

/// A parsed handshake packet.
#[derive(Debug, Clone)]
pub struct Handshake {
    pub protocol_version: i32,
    pub server_address: String,
    pub server_port: u16,
    pub next_state: i32,
}

/// The unsigned 32-bit reading of a two's-complement value.
pub open spec fn as_unsigned(v: i32) -> nat {
    if v >= 0 {
        v as nat
    } else {
        (v + 0x1_0000_0000) as nat
    }
}

/// The two's-complement reading of the low 32 bits of `u`.
pub open spec fn as_signed(u: nat) -> i32 {
    let m = u % 0x1_0000_0000;
    if m < 0x8000_0000 {
        m as i32
    } else {
        (m - 0x1_0000_0000) as i32
    }
}

/// Base-128 groups of `u`, least significant first, continuation bit on all
/// but the last byte.
pub open spec fn varint_bytes(u: nat) -> Seq<u8>
    decreases u,
{
    if u < 128 {
        seq![u as u8]
    } else {
        seq![(u % 128 + 128) as u8] + varint_bytes(u / 128)
    }
}

/// The VarInt encoding of `v`.
pub open spec fn varint_encoding(v: i32) -> Seq<u8> {
    varint_bytes(as_unsigned(v))
}

/// 128 to the power `e`.
pub open spec fn pow128(e: nat) -> nat
    decreases e,
{
    if e == 0 {
        1
    } else {
        128 * pow128((e - 1) as nat)
    }
}

/// The bytes of `s` from `pos` on (empty past the end).
pub open spec fn tail(s: Seq<u8>, pos: int) -> Seq<u8> {
    if 0 <= pos <= s.len() {
        s.subrange(pos, s.len() as int)
    } else {
        Seq::empty()
    }
}

/// Reads the groups of a VarInt whose first `k` bytes were already consumed:
/// the unsigned value of the remaining groups and how many bytes they take.
pub open spec fn varint_groups(s: Seq<u8>, k: nat) -> Result<(nat, nat), ProtocolError>
    decreases 5 - k,
{
    if k >= 5 {
        Err(ProtocolError::VarIntTooLarge)
    } else if s.len() == 0 {
        Err(ProtocolError::UnexpectedEndOfVarInt)
    } else if s[0] < 128 {
        Ok((s[0] as nat, 1))
    } else {
        match varint_groups(s.drop_first(), k + 1) {
            Ok((v, n)) => Ok((((s[0] - 128) + 128 * v) as nat, n + 1)),
            Err(e) => Err(e),
        }
    }
}

/// Decodes a VarInt at the start of `s`: its value and its length in bytes.
pub open spec fn varint_decoding(s: Seq<u8>) -> Result<(i32, nat), ProtocolError> {
    match varint_groups(s, 0) {
        Ok((v, n)) => Ok((as_signed(v), n)),
        Err(e) => Err(e),
    }
}

/// Reads a length-prefixed UTF-8 string at the start of `s`: the text and the
/// number of bytes taken.
pub open spec fn string_decoding(s: Seq<u8>) -> Result<(Seq<char>, nat), ProtocolError> {
    match varint_decoding(s) {
        Err(e) => Err(e),
        Ok((len, n)) => {
            if len < 0 || len > MAX_STRING_LENGTH {
                Err(ProtocolError::InvalidStringLength)
            } else if n + len > s.len() {
                Err(ProtocolError::TruncatedString)
            } else if !valid_utf8(s.subrange(n as int, n + len)) {
                Err(ProtocolError::InvalidUtf8)
            } else {
                Ok((decode_utf8(s.subrange(n as int, n + len)), n + len as nat))
            }
        },
    }
}

/// The length-prefixed encoding of a string.
pub open spec fn string_encoding(text: Seq<char>) -> Seq<u8> {
    varint_encoding(encode_utf8(text).len() as i32) + encode_utf8(text)
}

/// The handshake fields as plain values: protocol version, server address,
/// server port and next state.
pub type HandshakeFields = (i32, Seq<char>, u16, i32);

/// Parses a handshake packet body.
pub open spec fn handshake_decoding(s: Seq<u8>) -> Result<HandshakeFields, ProtocolError> {
    match varint_decoding(s) {
        Err(e) => Err(e),
        Ok((id, n0)) => if id != 0 {
            Err(ProtocolError::ExpectedHandshake)
        } else {
            let s1 = tail(s, n0 as int);
            match varint_decoding(s1) {
                Err(e) => Err(e),
                Ok((version, n1)) => {
                    let s2 = tail(s1, n1 as int);
                    match string_decoding(s2) {
                        Err(e) => Err(e),
                        Ok((address, n2)) => {
                            let s3 = tail(s2, n2 as int);
                            if s3.len() < 2 {
                                Err(ProtocolError::TruncatedHandshakePort)
                            } else {
                                let port = (s3[0] * 256 + s3[1]) as u16;
                                match varint_decoding(tail(s3, 2)) {
                                    Err(e) => Err(e),
                                    Ok((next, _)) => if next != 1 && next != 2 {
                                        Err(ProtocolError::InvalidNextState)
                                    } else {
                                        Ok((version, address, port, next))
                                    },
                                }
                            }
                        },
                    }
                },
            }
        },
    }
}

/// The bytes of a handshake packet body with the given fields.
pub open spec fn handshake_encoding(fields: HandshakeFields) -> Seq<u8> {
    varint_encoding(0) + varint_encoding(fields.0) + string_encoding(fields.1) + seq![
        (fields.2 / 256) as u8,
        (fields.2 % 256) as u8,
    ] + varint_encoding(fields.3)
}

impl Handshake {
    /// The handshake as plain values.
    pub open spec fn fields(&self) -> HandshakeFields {
        (self.protocol_version, self.server_address@, self.server_port, self.next_state)
    }
}

/// A packet body framed with its VarInt length prefix.
pub open spec fn packet_framing(body: Seq<u8>) -> Seq<u8> {
    varint_encoding(body.len() as i32) + body
}

/// The body of a clientbound packet with id 0 whose single field is the given
/// JSON text (status response and login disconnect share this layout).
pub open spec fn json_packet_body(json: Seq<char>) -> Seq<u8> {
    varint_encoding(0) + string_encoding(json)
}

proof fn lemma_varint_bytes_len(u: nat)
    ensures
        varint_bytes(u).len() >= 1,
        u < pow128(5) ==> varint_bytes(u).len() <= 5,
        u < pow128(4) ==> varint_bytes(u).len() <= 4,
        u < pow128(3) ==> varint_bytes(u).len() <= 3,
        u < pow128(2) ==> varint_bytes(u).len() <= 2,
        u < pow128(1) ==> varint_bytes(u).len() <= 1,
    decreases u,
{
    reveal_with_fuel(pow128, 6);
    if u >= 128 {
        lemma_varint_bytes_len(u / 128);
    }
}

/// The base-128 value of the groups of `e`, least significant first: the
/// low seven bits of each byte, the `i`-th weighted by `128` to the `i`.
pub open spec fn group_sum(e: Seq<u8>) -> nat
    decreases e.len(),
{
    if e.len() == 0 {
        0
    } else {
        (e[0] % 128) as nat + 128 * group_sum(e.drop_first())
    }
}

/// Byte `j` of `s` ends a VarInt: it is among the first five, has no
/// continuation bit, and every byte before it has one.
pub open spec fn varint_end(s: Seq<u8>, j: int) -> bool {
    &&& 0 <= j < 5
    &&& j < s.len()
    &&& s[j] < 128
    &&& forall|i: int| 0 <= i < j ==> s[i] >= 128
}

proof fn lemma_bytes_shape(u: nat)
    ensures
        forall|i: int| 0 <= i < varint_bytes(u).len() - 1 ==> varint_bytes(u)[i] >= 128,
        varint_bytes(u).last() < 128,
        varint_bytes(u).len() == 1 || varint_bytes(u).last() != 0,
        group_sum(varint_bytes(u)) == u,
        u >= pow128(4) ==> varint_bytes(u).len() >= 5,
    decreases u,
{
    reveal_with_fuel(pow128, 5);
    let e = varint_bytes(u);
    if u < 128 {
        assert(e.drop_first() =~= Seq::<u8>::empty());
        assert(e[0] == u);
        assert(group_sum(e) == (e[0] % 128) as nat + 128 * group_sum(e.drop_first()));
    } else {
        let t = varint_bytes(u / 128);
        lemma_bytes_shape(u / 128);
        lemma_varint_bytes_len(u / 128);
        assert(e.drop_first() =~= t);
        assert(e[0] % 128 == u % 128);
        assert(group_sum(e) == (e[0] % 128) as nat + 128 * group_sum(e.drop_first()));
        assert(u == u % 128 + 128 * (u / 128));
        assert forall|i: int| 0 <= i < e.len() - 1 implies e[i] >= 128 by {
            if i > 0 {
                assert(e[i] == t[i - 1]);
            }
        }
        if u >= pow128(4) {
            assert(u / 128 >= pow128(3));
            assert(t.len() >= 4) by {
                lemma_bytes_len_lower(u / 128);
            }
        }
    }
}

proof fn lemma_bytes_len_lower(u: nat)
    ensures
        u >= pow128(1) ==> varint_bytes(u).len() >= 2,
        u >= pow128(2) ==> varint_bytes(u).len() >= 3,
        u >= pow128(3) ==> varint_bytes(u).len() >= 4,
        u >= pow128(4) ==> varint_bytes(u).len() >= 5,
    decreases u,
{
    reveal_with_fuel(pow128, 5);
    if u >= 128 {
        lemma_bytes_len_lower(u / 128);
        lemma_varint_bytes_len(u / 128);
        assert(varint_bytes(u) == seq![(u % 128 + 128) as u8] + varint_bytes(u / 128));
    }
}

/// Law: the VarInt encoding of any `i32` has one to five bytes, all but the
/// last with the continuation bit; the last has none and is zero only when it
/// is the only byte; negative values take five bytes; and the seven-bit
/// groups, least significant first, give the value read as `u32`.
pub proof fn varint_encoding_shape(v: i32)
    ensures
        1 <= varint_encoding(v).len() <= 5,
        forall|i: int|
            0 <= i < varint_encoding(v).len() - 1 ==> #[trigger] varint_encoding(v)[i] >= 128,
        varint_encoding(v).last() < 128,
        varint_encoding(v).len() == 1 || varint_encoding(v).last() != 0,
        v < 0 ==> varint_encoding(v).len() == 5,
        group_sum(varint_encoding(v)) == as_unsigned(v),
{
    reveal_with_fuel(pow128, 5);
    lemma_bytes_shape(as_unsigned(v));
    lemma_varint_bytes_len(as_unsigned(v));
}

proof fn lemma_groups_shape(s: Seq<u8>, k: nat)
    requires
        k <= 5,
    ensures
        (exists|j: int| varint_end(s, j) && j < 5 - k) <==> varint_groups(s, k) is Ok,
        forall|j: int|
            varint_end(s, j) && j < 5 - k ==> varint_groups(s, k) == Ok::<(nat, nat), ProtocolError>(
                (group_sum(s.take(j + 1)), (j + 1) as nat),
            ),
    decreases 5 - k,
{
    if k >= 5 || s.len() == 0 {
        assert(!exists|j: int| varint_end(s, j) && j < 5 - k);
    } else if s[0] < 128 {
        assert(varint_end(s, 0));
        assert forall|j: int| varint_end(s, j) && j < 5 - k implies j == 0 by {
            if j > 0 {
                assert(s[0] >= 128);
            }
        }
        assert(s.take(1).drop_first() =~= Seq::<u8>::empty());
        assert(s.take(1)[0] == s[0]);
        assert(group_sum(s.take(1)) == (s[0] % 128) as nat + 128 * group_sum(
            s.take(1).drop_first(),
        ));
    } else {
        let t = s.drop_first();
        lemma_groups_shape(t, k + 1);
        assert forall|j: int| varint_end(s, j) && j < 5 - k implies varint_end(t, j - 1) && j - 1 < 5
            - (k + 1) by {
            assert(j != 0);
            assert forall|i: int| 0 <= i < j - 1 implies t[i] >= 128 by {
                assert(s[i + 1] >= 128);
            }
        }
        assert forall|j: int| varint_end(t, j) && j < 5 - (k + 1) implies varint_end(s, j + 1) && j
            + 1 < 5 - k by {
            assert forall|i: int| 0 <= i < j + 1 implies s[i] >= 128 by {
                if i > 0 {
                    assert(t[i - 1] >= 128);
                }
            }
        }
        if exists|j: int| varint_end(s, j) && j < 5 - k {
            let j = choose|j: int| varint_end(s, j) && j < 5 - k;
            assert(varint_end(t, j - 1));
        }
        if exists|j: int| varint_end(t, j) && j < 5 - (k + 1) {
            let j = choose|j: int| varint_end(t, j) && j < 5 - (k + 1);
            assert(varint_end(s, j + 1));
        }
        assert forall|j: int| varint_end(s, j) && j < 5 - k implies varint_groups(s, k) == Ok::<
            (nat, nat),
            ProtocolError,
        >((group_sum(s.take(j + 1)), (j + 1) as nat)) by {
            assert(varint_end(t, j - 1));
            assert(s.take(j + 1).drop_first() =~= t.take(j));
            assert(s.take(j + 1)[0] == s[0]);
            assert(s[0] % 128 == s[0] - 128);
        }
    }
}

/// Law: a VarInt is read exactly when one of the first five bytes ends it
/// (no continuation bit, all bytes before it with one); then the value is
/// the groups up to that byte with bits past 32 dropped, read as `i32`, and
/// the bytes taken are those up to and including it.
pub proof fn varint_decoding_shape(s: Seq<u8>)
    ensures
        (exists|j: int| varint_end(s, j)) <==> varint_decoding(s) is Ok,
        forall|j: int|
            #[trigger] varint_end(s, j) ==> varint_decoding(s) == Ok::<(i32, nat), ProtocolError>(
                (as_signed(group_sum(s.take(j + 1))), (j + 1) as nat),
            ),
{
    lemma_groups_shape(s, 0);
}

/// Law: a length-prefixed string is read exactly when its VarInt length is
/// read, lies in `0..=32767`, fits in the remaining bytes, and those bytes
/// are UTF-8; then the text is the one whose UTF-8 bytes they are, and the
/// bytes taken are the prefix and the text.
pub proof fn string_decoding_shape(s: Seq<u8>)
    ensures
        string_decoding(s) is Ok <==> (varint_decoding(s) matches Ok((len, n)) && 0 <= len
            <= MAX_STRING_LENGTH && n + len <= s.len() && valid_utf8(s.subrange(n as int, n + len))),
        string_decoding(s) matches Ok((text, m)) ==> (varint_decoding(s) matches Ok((len, n))
            && encode_utf8(text) == s.subrange(n as int, n + len) && m == n + len),
{
    if let Ok((len, n)) = varint_decoding(s) {
        if 0 <= len <= MAX_STRING_LENGTH && n + len <= s.len() && valid_utf8(
            s.subrange(n as int, n + len),
        ) {
            decode_utf8_encode_utf8(s.subrange(n as int, n + len));
        }
    }
}

/// `e` is a whole VarInt, ending at its last byte, whose value is `x`.
pub open spec fn is_varint_of(e: Seq<u8>, x: i32) -> bool {
    varint_end(e, e.len() - 1) && as_signed(group_sum(e)) == x
}

/// The parts of a handshake body: a VarInt 0, a VarInt protocol version, a
/// VarInt length, that many bytes of UTF-8 address text (at most 32767), the
/// two port bytes (big-endian), a VarInt next state of 1 or 2, and any rest.
pub open spec fn handshake_parts(
    p: Seq<u8>,
    fields: HandshakeFields,
    e0: Seq<u8>,
    e1: Seq<u8>,
    e2: Seq<u8>,
    a: Seq<u8>,
    hi: u8,
    lo: u8,
    e3: Seq<u8>,
    rest: Seq<u8>,
) -> bool {
    &&& p == e0 + e1 + e2 + a + seq![hi, lo] + e3 + rest
    &&& is_varint_of(e0, 0)
    &&& is_varint_of(e1, fields.0)
    &&& a.len() <= MAX_STRING_LENGTH && is_varint_of(e2, a.len() as i32)
    &&& valid_utf8(a) && decode_utf8(a) == fields.1
    &&& fields.2 == hi * 256 + lo
    &&& is_varint_of(e3, fields.3) && (fields.3 == 1 || fields.3 == 2)
}

/// `p` splits into the parts of a handshake with the given fields.
pub open spec fn handshake_layout(p: Seq<u8>, fields: HandshakeFields) -> bool {
    exists|e0: Seq<u8>, e1: Seq<u8>, e2: Seq<u8>, a: Seq<u8>, hi: u8, lo: u8, e3: Seq<u8>, rest: Seq<
        u8,
    >| #[trigger] handshake_parts(p, fields, e0, e1, e2, a, hi, lo, e3, rest)
}

proof fn lemma_varint_prefix(e: Seq<u8>, x: i32, rest: Seq<u8>)
    requires
        is_varint_of(e, x),
    ensures
        varint_decoding(e + rest) == Ok::<(i32, nat), ProtocolError>((x, e.len())),
        tail(e + rest, e.len() as int) == rest,
{
    let s = e + rest;
    let j = e.len() - 1;
    assert(varint_end(s, j)) by {
        assert forall|i: int| 0 <= i < j implies s[i] >= 128 by {
            assert(s[i] == e[i]);
        }
        assert(s[j] == e[j]);
    }
    varint_decoding_shape(s);
    assert(s.take(j + 1) =~= e);
    assert(tail(s, e.len() as int) =~= rest);
}

proof fn lemma_varint_taken(s: Seq<u8>)
    ensures
        varint_decoding(s) matches Ok((x, n)) ==> n <= s.len() && is_varint_of(s.take(n as int), x),
{
    varint_decoding_shape(s);
    if let Ok((x, n)) = varint_decoding(s) {
        let j = choose|j: int| varint_end(s, j);
        let e = s.take(n as int);
        assert(varint_end(e, e.len() - 1)) by {
            assert forall|i: int| 0 <= i < e.len() - 1 implies e[i] >= 128 by {
                assert(e[i] == s[i]);
            }
        }
    }
}

#[verifier::rlimit(40)]
proof fn lemma_handshake_from_parts(
    p: Seq<u8>,
    fields: HandshakeFields,
    e0: Seq<u8>,
    e1: Seq<u8>,
    e2: Seq<u8>,
    a: Seq<u8>,
    hi: u8,
    lo: u8,
    e3: Seq<u8>,
    rest: Seq<u8>,
)
    requires
        handshake_parts(p, fields, e0, e1, e2, a, hi, lo, e3, rest),
    ensures
        handshake_decoding(p) == Ok::<HandshakeFields, ProtocolError>(fields),
{
    let s4 = e3 + rest;
    let s3 = seq![hi, lo] + s4;
    let s2 = e2 + (a + s3);
    let s1 = e1 + s2;
    assert(p =~= e0 + s1);
    lemma_varint_prefix(e0, 0, s1);
    lemma_varint_prefix(e1, fields.0, s2);
    lemma_varint_prefix(e2, a.len() as i32, a + s3);
    let n = e2.len();
    assert(s2.subrange(n as int, (n + a.len()) as int) =~= a);
    assert(tail(s2, (n + a.len()) as int) =~= s3);
    assert(tail(s3, 2) =~= s4);
    lemma_varint_prefix(e3, fields.3, rest);
    assert(string_decoding(s2) == Ok::<(Seq<char>, nat), ProtocolError>((fields.1, n + a.len())));
    assert(s3[0] == hi && s3[1] == lo);
}

proof fn lemma_varint_split(s: Seq<u8>)
    requires
        varint_decoding(s) is Ok,
    ensures
        varint_decoding(s)->Ok_0.1 <= s.len(),
        is_varint_of(s.take(varint_decoding(s)->Ok_0.1 as int), varint_decoding(s)->Ok_0.0),
        s == s.take(varint_decoding(s)->Ok_0.1 as int) + tail(s, varint_decoding(s)->Ok_0.1 as int),
{
    lemma_varint_taken(s);
    let n = varint_decoding(s)->Ok_0.1;
    assert(s =~= s.take(n as int) + tail(s, n as int));
}

proof fn lemma_parts_assemble(
    p: Seq<u8>,
    fields: HandshakeFields,
    e0: Seq<u8>,
    e1: Seq<u8>,
    e2: Seq<u8>,
    a: Seq<u8>,
    s3: Seq<u8>,
    e3: Seq<u8>,
    rest: Seq<u8>,
)
    requires
        s3.len() >= 2,
        p == e0 + (e1 + (e2 + (a + s3))),
        s3.skip(2) == e3 + rest,
        is_varint_of(e0, 0),
        is_varint_of(e1, fields.0),
        a.len() <= MAX_STRING_LENGTH && is_varint_of(e2, a.len() as i32),
        valid_utf8(a) && decode_utf8(a) == fields.1,
        fields.2 == s3[0] * 256 + s3[1],
        is_varint_of(e3, fields.3) && (fields.3 == 1 || fields.3 == 2),
    ensures
        handshake_layout(p, fields),
{
    assert(s3 =~= seq![s3[0], s3[1]] + s3.skip(2));
    assert(p =~= e0 + e1 + e2 + a + seq![s3[0], s3[1]] + e3 + rest);
    assert(handshake_parts(p, fields, e0, e1, e2, a, s3[0], s3[1], e3, rest));
}

/// The steps of reading a handshake body that gave `fields`.
spec fn handshake_steps(p: Seq<u8>, fields: HandshakeFields) -> bool {
    &&& varint_decoding(p) is Ok && varint_decoding(p)->Ok_0.0 == 0
    &&& {
        let s1 = tail(p, varint_decoding(p)->Ok_0.1 as int);
        &&& varint_decoding(s1) is Ok && varint_decoding(s1)->Ok_0.0 == fields.0
        &&& {
            let s2 = tail(s1, varint_decoding(s1)->Ok_0.1 as int);
            &&& string_decoding(s2) is Ok && string_decoding(s2)->Ok_0.0 == fields.1
            &&& {
                let s3 = tail(s2, string_decoding(s2)->Ok_0.1 as int);
                &&& s3.len() >= 2 && fields.2 == (s3[0] * 256 + s3[1]) as u16
                &&& varint_decoding(tail(s3, 2)) is Ok && varint_decoding(tail(s3, 2))->Ok_0.0
                    == fields.3
                &&& (fields.3 == 1 || fields.3 == 2)
            }
        }
    }
}

proof fn lemma_handshake_steps(p: Seq<u8>, fields: HandshakeFields)
    requires
        handshake_decoding(p) == Ok::<HandshakeFields, ProtocolError>(fields),
    ensures
        handshake_steps(p, fields),
{
}

#[verifier::rlimit(40)]
proof fn lemma_handshake_to_parts(p: Seq<u8>, fields: HandshakeFields)
    requires
        handshake_steps(p, fields),
    ensures
        handshake_layout(p, fields),
{
    lemma_varint_split(p);
    let n0 = varint_decoding(p)->Ok_0.1;
    let s1 = tail(p, n0 as int);
    lemma_varint_split(s1);
    let n1 = varint_decoding(s1)->Ok_0.1;
    let s2 = tail(s1, n1 as int);
    lemma_varint_split(s2);
    let (len, n2) = varint_decoding(s2)->Ok_0;
    string_decoding_shape(s2);
    let a = s2.subrange(n2 as int, n2 + len);
    let s3 = tail(s2, n2 + len);
    let s4 = tail(s3, 2);
    lemma_varint_split(s4);
    let n3 = varint_decoding(s4)->Ok_0.1;
    decode_utf8_encode_utf8(a);
    assert(a.len() == len);
    assert(s2 =~= s2.take(n2 as int) + (a + s3));
    assert(s4 =~= s3.skip(2));
    lemma_parts_assemble(
        p,
        fields,
        p.take(n0 as int),
        s1.take(n1 as int),
        s2.take(n2 as int),
        a,
        s3,
        s4.take(n3 as int),
        tail(s4, n3 as int),
    );
}

/// Law: a handshake body is read exactly when it splits into a VarInt 0, a
/// VarInt protocol version, a VarInt length, that many bytes of UTF-8 address
/// text (at most 32767), the two port bytes (big-endian), and a VarInt next
/// state of 1 or 2, followed by anything, each VarInt in any form of at most
/// five bytes; the fields read are the ones so written.
pub proof fn handshake_decoding_shape(p: Seq<u8>, fields: HandshakeFields)
    ensures
        handshake_decoding(p) == Ok::<HandshakeFields, ProtocolError>(fields) <==> handshake_layout(
            p,
            fields,
        ),
{
    if handshake_layout(p, fields) {
        let (e0, e1, e2, a, hi, lo, e3, rest) = choose|
            e0: Seq<u8>,
            e1: Seq<u8>,
            e2: Seq<u8>,
            a: Seq<u8>,
            hi: u8,
            lo: u8,
            e3: Seq<u8>,
            rest: Seq<u8>,
        | handshake_parts(p, fields, e0, e1, e2, a, hi, lo, e3, rest);
        lemma_handshake_from_parts(p, fields, e0, e1, e2, a, hi, lo, e3, rest);
    }
    if handshake_decoding(p) == Ok::<HandshakeFields, ProtocolError>(fields) {
        lemma_handshake_steps(p, fields);
        lemma_handshake_to_parts(p, fields);
    }
}

/// Appends the VarInt encoding of `value` to `output`.
pub fn encode_varint(value: i32, output: &mut Vec<u8>)
    ensures
        final(output)@ == old(output)@ + varint_encoding(value),
{
    let mut u: u32 = value as u32;
    assert(value >= 0 ==> value as u32 == value) by (bit_vector);
    assert(value < 0 ==> value as u32 == value + 0x1_0000_0000) by (bit_vector);
    assert(u as nat == as_unsigned(value));
    let ghost target = old(output)@ + varint_encoding(value);
    while u >= 128
        invariant
            output@ + varint_bytes(u as nat) == target,
        decreases u,
    {
        let byte: u8 = (u % 128 + 128) as u8;
        proof {
            assert(output@.push(byte) + varint_bytes((u / 128) as nat) =~= output@
                + varint_bytes(u as nat));
        }
        output.push(byte);
        u = u / 128;
    }
    proof {
        assert(output@.push(u as u8) =~= output@ + varint_bytes(u as nat));
    }
    output.push(u as u8);
}

proof fn lemma_groups_bounds(s: Seq<u8>, k: nat)
    requires
        k <= 5,
    ensures
        varint_groups(s, k) matches Ok((v, n)) ==> 1 <= n <= s.len() && k + n <= 5 && v < pow128(
            n,
        ),
    decreases 5 - k,
{
    reveal_with_fuel(pow128, 2);
    if k < 5 && s.len() > 0 && s[0] >= 128 {
        lemma_groups_bounds(s.drop_first(), k + 1);
        if let Ok((v1, n1)) = varint_groups(s.drop_first(), k + 1) {
            assert(pow128(n1 + 1) == 128 * pow128(n1));
            assert(((s[0] - 128) + 128 * v1) < 128 * pow128(n1));
        }
    }
}

proof fn lemma_pow128_mono(a: nat, b: nat)
    requires
        a <= b,
    ensures
        pow128(a) <= pow128(b),
    decreases b,
{
    if a < b {
        lemma_pow128_mono(a, (b - 1) as nat);
    }
}

fn decode_groups(data: &[u8], pos: usize, k: usize) -> (r: Result<(u64, usize), ProtocolError>)
    requires
        k <= 5,
        pos <= data@.len(),
    ensures
        match varint_groups(tail(data@, pos as int), k as nat) {
            Ok((v, n)) => r == Ok::<(u64, usize), ProtocolError>((v as u64, (pos + n) as usize)),
            Err(e) => r == Err::<(u64, usize), ProtocolError>(e),
        },
    decreases 5 - k,
{
    proof {
        lemma_groups_bounds(tail(data@, pos as int), k as nat);
    }
    if k >= 5 {
        return Err(ProtocolError::VarIntTooLarge);
    }
    if pos >= data.len() {
        return Err(ProtocolError::UnexpectedEndOfVarInt);
    }
    let byte = data[pos];
    assert(tail(data@, pos as int)[0] == byte);
    if byte < 128 {
        return Ok((byte as u64, pos + 1));
    }
    assert(tail(data@, (pos + 1) as int) =~= tail(data@, pos as int).drop_first());
    match decode_groups(data, pos + 1, k + 1) {
        Ok((v, next)) => {
            proof {
                lemma_groups_bounds(tail(data@, (pos + 1) as int), (k + 1) as nat);
                let n = (next - pos - 1) as nat;
                lemma_pow128_mono(n, 4);
                reveal_with_fuel(pow128, 5);
            }
            Ok(((byte - 128) as u64 + 128 * v, next))
        },
        Err(e) => Err(e),
    }
}

/// Decodes the VarInt that starts at `pos`; returns its value and the
/// position just after it.
pub fn decode_varint(data: &[u8], pos: usize) -> (r: Result<(i32, usize), ProtocolError>)
    ensures
        match varint_decoding(tail(data@, pos as int)) {
            Ok((v, n)) => r == Ok::<(i32, usize), ProtocolError>((v, (pos + n) as usize)),
            Err(e) => r == Err::<(i32, usize), ProtocolError>(e),
        },
{
    if pos > data.len() {
        assert(tail(data@, pos as int) =~= Seq::<u8>::empty());
        return Err(ProtocolError::UnexpectedEndOfVarInt);
    }
    proof {
        lemma_groups_bounds(tail(data@, pos as int), 0);
        reveal_with_fuel(pow128, 6);
    }
    match decode_groups(data, pos, 0) {
        Ok((v, next)) => {
            proof {
                lemma_pow128_mono((next - pos) as nat, 5);
            }
            let low: u32 = (v % 0x1_0000_0000) as u32;
            let value: i32 = low as i32;
            assert(low < 0x8000_0000 ==> low as i32 == low) by (bit_vector);
            assert(low >= 0x8000_0000 ==> low as i32 == low - 0x1_0000_0000) by (bit_vector);
            Ok((value, next))
        },
        Err(e) => Err(e),
    }
}

/// Returns the text of `bytes` when they are UTF-8.
#[verifier::external_body]
fn utf8_text(bytes: &[u8]) -> (r: Option<&str>)
    ensures
        r is Some <==> valid_utf8(bytes@),
        r matches Some(text) ==> text@ == decode_utf8(bytes@),
{
    std::str::from_utf8(bytes).ok()
}

/// Reads the length-prefixed UTF-8 string that starts at `pos`; returns the
/// text and the position just after it.
pub fn read_string(data: &[u8], pos: usize) -> (r: Result<(String, usize), ProtocolError>)
    ensures
        match string_decoding(tail(data@, pos as int)) {
            Ok((text, n)) => r matches Ok((t, p)) && t@ == text && p == pos + n,
            Err(e) => r == Err::<(String, usize), ProtocolError>(e),
        },
{
    let ghost s = tail(data@, pos as int);
    let (length, start) = match decode_varint(data, pos) {
        Ok(decoded) => decoded,
        Err(e) => return Err(e),
    };
    if length < 0 || length > MAX_STRING_LENGTH {
        return Err(ProtocolError::InvalidStringLength);
    }
    proof {
        lemma_groups_bounds(s, 0);
    }
    let count = length as usize;
    if count > data.len() - start {
        return Err(ProtocolError::TruncatedString);
    }
    let end = start + count;
    let bytes = &data[start..end];
    assert(bytes@ =~= s.subrange(start - pos, end - pos));
    match utf8_text(bytes) {
        Some(text) => Ok((text.to_owned(), end)),
        None => Err(ProtocolError::InvalidUtf8),
    }
}

/// Appends `value` as a length-prefixed UTF-8 string.
pub fn write_string(value: &str, output: &mut Vec<u8>)
    ensures
        final(output)@ == old(output)@ + varint_encoding(value.spec_bytes().len() as i32)
            + value.spec_bytes(),
{
    let bytes = value.as_bytes();
    encode_varint(value.len() as i32, output);
    let ghost prefix = output@;
    let mut i: usize = 0;
    while i < bytes.len()
        invariant
            i <= bytes@.len(),
            output@ == prefix + bytes@.subrange(0, i as int),
        decreases bytes@.len() - i,
    {
        output.push(bytes[i]);
        i = i + 1;
        assert(output@ =~= prefix + bytes@.subrange(0, i as int));
    }
    assert(bytes@.subrange(0, i as int) =~= bytes@);
}

proof fn lemma_tail_tail(s: Seq<u8>, a: int, b: int)
    requires
        0 <= a <= s.len(),
        0 <= b,
    ensures
        tail(tail(s, a), b) == tail(s, a + b),
{
    assert(tail(tail(s, a), b) =~= tail(s, a + b));
}

proof fn lemma_string_bounds(s: Seq<u8>)
    ensures
        string_decoding(s) matches Ok((t, n)) ==> n <= s.len(),
{
    lemma_groups_bounds(s, 0);
}

/// Parses a handshake packet body.
pub fn parse_handshake(packet: &[u8]) -> (r: Result<Handshake, ProtocolError>)
    ensures
        match handshake_decoding(packet@) {
            Ok(fields) => r matches Ok(h) && h.fields() == fields,
            Err(e) => r matches Err(err) && err == e,
        },
{
    let ghost s = packet@;
    assert(tail(s, 0) =~= s);
    proof {
        lemma_groups_bounds(s, 0);
    }
    let (id, p0) = match decode_varint(packet, 0) {
        Ok(decoded) => decoded,
        Err(e) => return Err(e),
    };
    if id != 0 {
        return Err(ProtocolError::ExpectedHandshake);
    }
    proof {
        lemma_groups_bounds(tail(s, p0 as int), 0);
        lemma_tail_tail(s, 0, p0 as int);
    }
    let (protocol_version, p1) = match decode_varint(packet, p0) {
        Ok(decoded) => decoded,
        Err(e) => return Err(e),
    };
    proof {
        lemma_tail_tail(s, p0 as int, (p1 - p0) as int);
        lemma_string_bounds(tail(s, p1 as int));
    }
    let (server_address, p2) = match read_string(packet, p1) {
        Ok(read) => read,
        Err(e) => return Err(e),
    };
    proof {
        lemma_tail_tail(s, p1 as int, (p2 - p1) as int);
    }
    if packet.len() - p2 < 2 {
        return Err(ProtocolError::TruncatedHandshakePort);
    }
    let server_port: u16 = (packet[p2] as u16) * 256 + packet[p2 + 1] as u16;
    proof {
        lemma_tail_tail(s, p2 as int, 2);
    }
    let (next_state, _) = match decode_varint(packet, p2 + 2) {
        Ok(decoded) => decoded,
        Err(e) => return Err(e),
    };
    if next_state != 1 && next_state != 2 {
        return Err(ProtocolError::InvalidNextState);
    }
    Ok(Handshake { protocol_version, server_address, server_port, next_state })
}

proof fn lemma_groups_of_bytes(u: nat, rest: Seq<u8>, k: nat)
    requires
        k < 5,
        u < pow128((5 - k) as nat),
    ensures
        varint_groups(varint_bytes(u) + rest, k) == Ok::<(nat, nat), ProtocolError>(
            (u, varint_bytes(u).len()),
        ),
    decreases u,
{
    reveal_with_fuel(pow128, 2);
    let s = varint_bytes(u) + rest;
    if u >= 128 {
        assert(pow128((5 - k) as nat) == 128 * pow128((5 - (k + 1)) as nat));
        if k == 4 {
            assert(false);
        }
        assert(s.drop_first() =~= varint_bytes(u / 128) + rest);
        lemma_groups_of_bytes(u / 128, rest, k + 1);
    }
}

/// Law: decoding the VarInt encoding of any `i32`, whatever bytes follow it,
/// gives the value back and consumes exactly the encoding, which is one to
/// five bytes long.
pub proof fn varint_round_trip(v: i32, rest: Seq<u8>)
    ensures
        varint_decoding(varint_encoding(v) + rest) == Ok::<(i32, nat), ProtocolError>(
            (v, varint_encoding(v).len()),
        ),
        1 <= varint_encoding(v).len() <= 5,
{
    reveal_with_fuel(pow128, 6);
    lemma_groups_of_bytes(as_unsigned(v), rest, 0);
    lemma_varint_bytes_len(as_unsigned(v));
}

/// Law: a length-prefixed string within the protocol limit reads back as the
/// same text, consuming exactly its encoding.
pub proof fn string_round_trip(text: Seq<char>, rest: Seq<u8>)
    requires
        encode_utf8(text).len() <= MAX_STRING_LENGTH,
    ensures
        string_decoding(string_encoding(text) + rest) == Ok::<(Seq<char>, nat), ProtocolError>(
            (text, string_encoding(text).len()),
        ),
{
    let bytes = encode_utf8(text);
    let len = bytes.len() as i32;
    assert(len == bytes.len());
    let s = string_encoding(text) + rest;
    assert(s =~= varint_encoding(len) + (bytes + rest));
    varint_round_trip(len, bytes + rest);
    let n = varint_encoding(len).len();
    assert(s.subrange(n as int, n + len) =~= bytes);
}

/// Law: the bytes of a handshake whose address is within the protocol limit
/// and whose next state is status or login parse back to the same fields.
#[verifier::rlimit(40)]
pub proof fn handshake_round_trip(fields: HandshakeFields)
    requires
        encode_utf8(fields.1).len() <= MAX_STRING_LENGTH,
        fields.3 == 1 || fields.3 == 2,
    ensures
        handshake_decoding(handshake_encoding(fields)) == Ok::<HandshakeFields, ProtocolError>(
            fields,
        ),
{
    let e0 = varint_encoding(0);
    let e1 = varint_encoding(fields.0);
    let e2 = string_encoding(fields.1);
    let port = seq![(fields.2 / 256) as u8, (fields.2 % 256) as u8];
    let e3 = varint_encoding(fields.3);
    let s = handshake_encoding(fields);
    assert(s =~= e0 + (e1 + e2 + port + e3));
    varint_round_trip(0, e1 + e2 + port + e3);
    let s1 = tail(s, e0.len() as int);
    assert(s1 =~= e1 + (e2 + port + e3));
    varint_round_trip(fields.0, e2 + port + e3);
    let s2 = tail(s1, e1.len() as int);
    assert(s2 =~= e2 + (port + e3));
    string_round_trip(fields.1, port + e3);
    let s3 = tail(s2, e2.len() as int);
    assert(s3 =~= port + e3);
    assert(tail(s3, 2) =~= e3 + Seq::<u8>::empty());
    varint_round_trip(fields.3, Seq::<u8>::empty());
    assert(varint_decoding(s) == Ok::<(i32, nat), ProtocolError>((0i32, e0.len())));
    assert(varint_decoding(s1) == Ok::<(i32, nat), ProtocolError>((fields.0, e1.len())));
    assert(string_decoding(s2) == Ok::<(Seq<char>, nat), ProtocolError>((fields.1, e2.len())));
    assert(s3[0] == port[0] && s3[1] == port[1]);
    assert((s3[0] * 256 + s3[1]) as u16 == fields.2);
    assert(varint_decoding(tail(s3, 2)) == Ok::<(i32, nat), ProtocolError>(
        (fields.3, e3.len()),
    ));
}

/// Checks a packet length prefix read from a client: it must be between zero
/// and [`MAX_PACKET_SIZE`].
pub fn check_packet_length(length: i32) -> (r: Result<usize, ProtocolError>)
    ensures
        0 <= length <= MAX_PACKET_SIZE ==> r == Ok::<usize, ProtocolError>(length as usize),
        !(0 <= length <= MAX_PACKET_SIZE) ==> r == Err::<usize, ProtocolError>(
            ProtocolError::InvalidPacketSize,
        ),
{
    if length < 0 || length as usize > MAX_PACKET_SIZE {
        Err(ProtocolError::InvalidPacketSize)
    } else {
        Ok(length as usize)
    }
}

/// Frames a packet body with its VarInt length prefix.
pub fn frame_packet(body: &[u8]) -> (r: Vec<u8>)
    ensures
        r@ == packet_framing(body@),
{
    let mut packet: Vec<u8> = Vec::new();
    encode_varint(body.len() as i32, &mut packet);
    let ghost prefix = packet@;
    let mut i: usize = 0;
    while i < body.len()
        invariant
            i <= body@.len(),
            packet@ == prefix + body@.subrange(0, i as int),
        decreases body@.len() - i,
    {
        packet.push(body[i]);
        i = i + 1;
        assert(packet@ =~= prefix + body@.subrange(0, i as int));
    }
    assert(body@.subrange(0, i as int) =~= body@);
    packet
}

/// The body of a clientbound packet with id 0 carrying one JSON string: the
/// status response and the login disconnect.
pub fn json_packet(json: &str) -> (r: Vec<u8>)
    ensures
        r@ == json_packet_body(json@),
{
    let mut body: Vec<u8> = Vec::new();
    encode_varint(0, &mut body);
    write_string(json, &mut body);
    assert(body@ =~= json_packet_body(json@));
    body
}

/// Checks that a packet is a status request (id 0).
pub fn expect_status_request(packet: &[u8]) -> (r: Result<(), ProtocolError>)
    ensures
        match varint_decoding(packet@) {
            Ok((id, _)) => if id == 0 {
                r is Ok
            } else {
                r == Err::<(), ProtocolError>(ProtocolError::ExpectedStatusRequest)
            },
            Err(e) => r == Err::<(), ProtocolError>(e),
        },
{
    assert(tail(packet@, 0) =~= packet@);
    match decode_varint(packet, 0) {
        Ok((0, _)) => Ok(()),
        Ok(_) => Err(ProtocolError::ExpectedStatusRequest),
        Err(e) => Err(e),
    }
}

/// Whether a packet received after the status response is a ping (id 1),
/// which the server answers by echoing it.
pub fn is_ping(packet: &[u8]) -> (r: Result<bool, ProtocolError>)
    ensures
        match varint_decoding(packet@) {
            Ok((id, _)) => r == Ok::<bool, ProtocolError>(id == 1),
            Err(e) => r == Err::<bool, ProtocolError>(e),
        },
{
    assert(tail(packet@, 0) =~= packet@);
    match decode_varint(packet, 0) {
        Ok((id, _)) => Ok(id == 1),
        Err(e) => Err(e),
    }
}

/// Law: a framed body within the size limit yields, on reading, a length
/// prefix that passes the size check and is followed by exactly the body.
pub proof fn framing_round_trip(body: Seq<u8>)
    requires
        body.len() <= MAX_PACKET_SIZE,
    ensures
        varint_decoding(packet_framing(body)) matches Ok((len, n)) && len == body.len()
            && 0 <= len <= MAX_PACKET_SIZE && tail(packet_framing(body), n as int) == body,
{
    let len = body.len() as i32;
    assert(len == body.len());
    varint_round_trip(len, body);
    let n = varint_encoding(len).len();
    assert(tail(packet_framing(body), n as int) =~= body);
}

} // verus!

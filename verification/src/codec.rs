//! Wire codec for the RCON remote-console protocol.
//!
//! A packet travels as a little-endian frame: a 4-byte size prefix that
//! counts every byte after itself, a 4-byte request id, a 4-byte kind
//! code, the body bytes, a NUL that ends the body, and one further NUL
//! (the empty-string terminator the protocol requires).

use vstd::bytes::{spec_u32_from_le_bytes, spec_u32_to_le_bytes, u32_from_le_bytes, u32_to_le_bytes};
use vstd::prelude::*;

verus! {

/// The role a packet plays in the protocol.  `AuthResponse` and
/// `ExecCommand` share the wire code 2 by protocol convention; which of
/// the two a code 2 means depends on the direction the packet travels.
#[derive(Clone, Copy, Debug, PartialEq, Eq, Structural)]
pub enum PacketKind {
    Auth,
    AuthResponse,
    ExecCommand,
    ResponseValue,
}

/// Errors of the codec and of the session built on it.
#[derive(Clone, Copy, Debug, PartialEq, Eq, Structural)]
pub enum ProtocolError {
    /// The body cannot travel on the wire: it holds a NUL byte, or it is
    /// too long for the 32-bit size prefix.
    EncodingError,
    /// The byte stream ended before the bytes its size prefix declared.
    TruncatedPacketError,
    /// The declared size or the kind code is one the protocol cannot
    /// have produced.
    MalformedPacketError,
    /// A read or write exceeded its bound.  Constructed by the I/O
    /// driver; fatal to the session.
    TimeoutError,
    /// The server rejected the handshake.
    AuthenticationError,
    /// An operation reached a session that is closed, failed, or not in
    /// the state the operation needs.
    SessionClosedError,
}

/// One framed unit of the protocol: correlation id, kind, body bytes.
#[derive(Debug)]
pub struct RconPacket {
    pub id: i32,
    pub kind: PacketKind,
    pub body: Vec<u8>,
}

/// The numeric code a kind is written as on the wire.
pub open spec fn kind_code(kind: PacketKind) -> u32 {
    match kind {
        PacketKind::Auth => 3,
        PacketKind::AuthResponse => 2,
        PacketKind::ExecCommand => 2,
        PacketKind::ResponseValue => 0,
    }
}

/// Whether a kind travels from the server to the client; fixes how the
/// shared code 2 is read back.
pub open spec fn kind_from_server(kind: PacketKind) -> bool {
    match kind {
        PacketKind::Auth => false,
        PacketKind::AuthResponse => true,
        PacketKind::ExecCommand => false,
        PacketKind::ResponseValue => true,
    }
}

/// The kind a wire code means for the given direction; `None` for codes
/// the protocol does not use in that direction.
pub open spec fn kind_of_code(code: u32, from_server: bool) -> Option<PacketKind> {
    if from_server {
        if code == 2 {
            Some(PacketKind::AuthResponse)
        } else if code == 0 {
            Some(PacketKind::ResponseValue)
        } else {
            None
        }
    } else {
        if code == 3 {
            Some(PacketKind::Auth)
        } else if code == 2 {
            Some(PacketKind::ExecCommand)
        } else {
            None
        }
    }
}

/// The unsigned 32-bit word that carries a signed id on the wire
/// (two's complement).
pub open spec fn wire_word_of_id(id: i32) -> u32 {
    if id >= 0 {
        id as u32
    } else {
        (id + 0x1_0000_0000) as u32
    }
}

/// The signed id a wire word carries.
pub open spec fn id_of_wire_word(word: u32) -> i32 {
    if word <= i32::MAX as u32 {
        word as i32
    } else {
        (word - 0x1_0000_0000) as i32
    }
}

proof fn lemma_wire_word_round_trip(id: i32)
    ensures
        id_of_wire_word(wire_word_of_id(id)) == id,
{
}

/// A body the protocol can carry: free of NUL bytes and short enough
/// for the size prefix, which is a signed 32-bit count.
pub open spec fn valid_body(body: Seq<u8>) -> bool {
    &&& forall|i: int| 0 <= i < body.len() ==> body[i] != 0
    &&& body.len() + 10 <= i32::MAX
}

/// The frame of a packet: size prefix over everything that follows it,
/// id, kind code, body, the body's NUL, and the empty-string NUL.
pub open spec fn spec_encode(id: i32, kind: PacketKind, body: Seq<u8>) -> Seq<u8> {
    spec_u32_to_le_bytes((body.len() + 10) as u32) + spec_u32_to_le_bytes(wire_word_of_id(id))
        + spec_u32_to_le_bytes(kind_code(kind)) + body + seq![0u8, 0u8]
}

/// Turns an id into its wire word.
fn wire_word_of_id_exec(id: i32) -> (word: u32)
    ensures
        word == wire_word_of_id(id),
{
    if id >= 0 {
        id as u32
    } else {
        ((id as i64) + 0x1_0000_0000i64) as u32
    }
}

/// Turns a wire word back into an id.
fn id_of_wire_word_exec(word: u32) -> (id: i32)
    ensures
        id == id_of_wire_word(word),
{
    if word <= i32::MAX as u32 {
        word as i32
    } else {
        ((word as i64) - 0x1_0000_0000i64) as i32
    }
}

/// Encodes a packet into the bytes that carry it.  Succeeds exactly on
/// bodies the wire format can represent: no embedded NUL, and a frame
/// that fits the signed 32-bit size prefix.
pub fn encode_packet(packet: &RconPacket) -> (result: Result<Vec<u8>, ProtocolError>)
    ensures
        match result {
            Ok(bytes) => valid_body(packet.body@) && bytes@ == spec_encode(
                packet.id,
                packet.kind,
                packet.body@,
            ) && bytes@.len() == packet.body@.len() + 14,
            Err(e) => e == ProtocolError::EncodingError && !valid_body(packet.body@),
        },
{
    let body_len = packet.body.len();
    if body_len > (i32::MAX as usize) - 10 {
        return Err(ProtocolError::EncodingError);
    }
    let mut i: usize = 0;
    while i < body_len
        invariant
            i <= body_len,
            body_len == packet.body@.len(),
            forall|j: int| 0 <= j < i ==> packet.body@[j] != 0,
        decreases body_len - i,
    {
        if packet.body[i] == 0 {
            return Err(ProtocolError::EncodingError);
        }
        i += 1;
    }
    let mut bytes = u32_to_le_bytes((body_len as u32) + 10);
    let mut id_bytes = u32_to_le_bytes(wire_word_of_id_exec(packet.id));
    let code: u32 = match packet.kind {
        PacketKind::Auth => 3,
        PacketKind::AuthResponse => 2,
        PacketKind::ExecCommand => 2,
        PacketKind::ResponseValue => 0,
    };
    let mut code_bytes = u32_to_le_bytes(code);
    bytes.append(&mut id_bytes);
    bytes.append(&mut code_bytes);
    let mut k: usize = 0;
    while k < body_len
        invariant
            k <= body_len,
            body_len == packet.body@.len(),
            body_len + 10 <= i32::MAX,
            bytes@ == spec_u32_to_le_bytes((body_len + 10) as u32) + spec_u32_to_le_bytes(
                wire_word_of_id(packet.id),
            ) + spec_u32_to_le_bytes(kind_code(packet.kind)) + packet.body@.take(k as int),
        decreases body_len - k,
    {
        bytes.push(packet.body[k]);
        assert(packet.body@.take(k as int + 1) =~= packet.body@.take(k as int).push(
            packet.body@[k as int],
        ));
        k += 1;
    }
    assert(packet.body@.take(body_len as int) =~= packet.body@);
    bytes.push(0);
    bytes.push(0);
    proof {
        vstd::bytes::lemma_auto_spec_u32_to_from_le_bytes();
        assert(bytes@ =~= spec_encode(packet.id, packet.kind, packet.body@));
        assert(spec_u32_to_le_bytes((body_len + 10) as u32).len() == 4);
        assert(spec_u32_to_le_bytes(wire_word_of_id(packet.id)).len() == 4);
        assert(spec_u32_to_le_bytes(kind_code(packet.kind)).len() == 4);
        assert(seq![0u8, 0u8].len() == 2);
    }
    Ok(bytes)
}

/// Index of the first NUL byte of a sequence, or its length when none
/// occurs.
pub open spec fn nul_index(bytes: Seq<u8>) -> int
    decreases bytes.len(),
{
    if bytes.len() == 0 {
        0
    } else if bytes[0] == 0 {
        0
    } else {
        1 + nul_index(bytes.drop_first())
    }
}

/// `nul_index` is the only index below which every byte is non-NUL
/// and at which the sequence ends or holds a NUL.
pub proof fn lemma_nul_index_unique(bytes: Seq<u8>, i: int)
    requires
        0 <= i <= bytes.len(),
        forall|j: int| 0 <= j < i ==> bytes[j] != 0,
        i < bytes.len() ==> bytes[i] == 0,
    ensures
        nul_index(bytes) == i,
    decreases bytes.len(),
{
    if bytes.len() > 0 && bytes[0] != 0 {
        lemma_nul_index_unique(bytes.drop_first(), i - 1);
    }
}

/// What decoding a byte stream yields: id, kind, body, and the count of
/// bytes the frame occupied; or the error the stream forces.
pub open spec fn spec_decode(bytes: Seq<u8>, from_server: bool) -> Result<
    (i32, PacketKind, Seq<u8>, int),
    ProtocolError,
> {
    if bytes.len() < 4 {
        Err(ProtocolError::TruncatedPacketError)
    } else {
        let size = spec_u32_from_le_bytes(bytes.subrange(0, 4));
        if size > i32::MAX as u32 {
            Err(ProtocolError::MalformedPacketError)
        } else if bytes.len() < 4 + size {
            Err(ProtocolError::TruncatedPacketError)
        } else if size < 10 {
            Err(ProtocolError::MalformedPacketError)
        } else {
            let id = id_of_wire_word(spec_u32_from_le_bytes(bytes.subrange(4, 8)));
            let code = spec_u32_from_le_bytes(bytes.subrange(8, 12));
            match kind_of_code(code, from_server) {
                None => Err(ProtocolError::MalformedPacketError),
                Some(kind) => {
                    let payload = bytes.subrange(12, 4 + size);
                    Ok((id, kind, payload.take(nul_index(payload)), 4 + size))
                },
            }
        }
    }
}

/// Decodes the frame at the head of `bytes`.  `from_server` is the
/// direction the bytes travelled, which fixes how the shared kind code
/// is read.  Fails with `TruncatedPacketError` when the stream holds
/// fewer bytes than its size prefix declares, and never reads past the
/// declared size.
pub fn decode_packet(bytes: &[u8], from_server: bool) -> (result: Result<
    (RconPacket, usize),
    ProtocolError,
>)
    ensures
        match result {
            Ok((packet, consumed)) => spec_decode(bytes@, from_server) == Ok::<
                (i32, PacketKind, Seq<u8>, int),
                ProtocolError,
            >((packet.id, packet.kind, packet.body@, consumed as int)),
            Err(e) => spec_decode(bytes@, from_server) == Err::<
                (i32, PacketKind, Seq<u8>, int),
                ProtocolError,
            >(e),
        },
{
    let total = bytes.len();
    if total < 4 {
        return Err(ProtocolError::TruncatedPacketError);
    }
    let size = u32_from_le_bytes(&bytes[0..4]);
    if size > i32::MAX as u32 {
        return Err(ProtocolError::MalformedPacketError);
    }
    let size = size as usize;
    if total - 4 < size {
        return Err(ProtocolError::TruncatedPacketError);
    }
    if size < 10 {
        return Err(ProtocolError::MalformedPacketError);
    }
    let id = id_of_wire_word_exec(u32_from_le_bytes(&bytes[4..8]));
    let code = u32_from_le_bytes(&bytes[8..12]);
    let kind = if from_server {
        if code == 2 {
            PacketKind::AuthResponse
        } else if code == 0 {
            PacketKind::ResponseValue
        } else {
            return Err(ProtocolError::MalformedPacketError);
        }
    } else {
        if code == 3 {
            PacketKind::Auth
        } else if code == 2 {
            PacketKind::ExecCommand
        } else {
            return Err(ProtocolError::MalformedPacketError);
        }
    };
    let ghost payload = bytes@.subrange(12, 4 + size as int);
    let end = 4 + size;
    let mut body: Vec<u8> = Vec::new();
    let mut i: usize = 12;
    while i < end && bytes[i] != 0
        invariant
            12 <= i <= end,
            end == 4 + size as int,
            end <= bytes@.len(),
            size >= 10,
            payload == bytes@.subrange(12, 4 + size as int),
            body@ == payload.take(i - 12),
            forall|j: int| 0 <= j < i - 12 ==> payload[j] != 0,
        decreases end - i,
    {
        body.push(bytes[i]);
        assert(payload.take(i - 12 + 1) =~= payload.take(i - 12).push(payload[i - 12]));
        i += 1;
    }
    proof {
        lemma_nul_index_unique(payload, i - 12);
        assert(body@ == payload.take(nul_index(payload)));
    }
    Ok((RconPacket { id, kind, body }, end))
}

/// Round trip: decoding an encoded frame, in the direction the kind
/// travels, gives back the id, the kind and the body unchanged, and
/// consumes exactly the frame.
pub proof fn lemma_round_trip(id: i32, kind: PacketKind, body: Seq<u8>)
    requires
        valid_body(body),
    ensures
        spec_decode(spec_encode(id, kind, body), kind_from_server(kind)) == Ok::<
            (i32, PacketKind, Seq<u8>, int),
            ProtocolError,
        >((id, kind, body, body.len() as int + 14)),
{
    vstd::bytes::lemma_auto_spec_u32_to_from_le_bytes();
    let bytes = spec_encode(id, kind, body);
    assert(spec_u32_to_le_bytes((body.len() + 10) as u32).len() == 4);
    assert(spec_u32_to_le_bytes(wire_word_of_id(id)).len() == 4);
    assert(spec_u32_to_le_bytes(kind_code(kind)).len() == 4);
    assert(seq![0u8, 0u8].len() == 2);
    assert(bytes.len() == body.len() + 14);
    assert(bytes.subrange(0, 4) =~= spec_u32_to_le_bytes((body.len() + 10) as u32));
    assert(bytes.subrange(4, 8) =~= spec_u32_to_le_bytes(wire_word_of_id(id)));
    assert(bytes.subrange(8, 12) =~= spec_u32_to_le_bytes(kind_code(kind)));
    let size = spec_u32_from_le_bytes(bytes.subrange(0, 4));
    assert(size == body.len() + 10);
    lemma_wire_word_round_trip(id);
    assert(kind_of_code(kind_code(kind), kind_from_server(kind)) == Some(kind));
    let payload = bytes.subrange(12, 4 + size);
    assert(payload =~= body + seq![0u8, 0u8]);
    lemma_nul_index_unique(payload, body.len() as int);
    assert(payload.take(nul_index(payload)) =~= body);
}

/// Size-prefix accuracy: the declared size of an encoded frame equals
/// the count of the bytes that follow the prefix.
pub proof fn lemma_size_prefix(id: i32, kind: PacketKind, body: Seq<u8>)
    requires
        valid_body(body),
    ensures
        spec_u32_from_le_bytes(spec_encode(id, kind, body).subrange(0, 4)) == spec_encode(
            id,
            kind,
            body,
        ).len() - 4,
{
    vstd::bytes::lemma_auto_spec_u32_to_from_le_bytes();
    let bytes = spec_encode(id, kind, body);
    assert(bytes.subrange(0, 4) =~= spec_u32_to_le_bytes((body.len() + 10) as u32));
}

/// Truncation: a stream shorter than its declared size decodes to
/// `TruncatedPacketError`, in either direction.
pub proof fn lemma_truncated_rejected(bytes: Seq<u8>, from_server: bool)
    requires
        bytes.len() >= 4 ==> {
            let size = spec_u32_from_le_bytes(bytes.subrange(0, 4));
            size <= i32::MAX as u32 && bytes.len() < 4 + size
        },
    ensures
        spec_decode(bytes, from_server) == Err::<
            (i32, PacketKind, Seq<u8>, int),
            ProtocolError,
        >(ProtocolError::TruncatedPacketError),
{
}

} // verus!

//! Packet framing: a packet is its body length as a VarInt, then a VarInt
//! packet ID, then a type-specific payload. This protocol subset frames
//! two outbound packets (handshake and status request) and parses the one
//! inbound status-response body.

use vstd::prelude::*;
use vstd::utf8::{encode_utf8, is_ascii_chars};

use crate::errors::{EncodingError, PingError};
use crate::primitives::{u16_be_bytes, write_u16};
use crate::strings::{
    lemma_encode_utf8_len, lemma_string_frame_embedded, lemma_utf16_len_ascii, read_string,
    spec_read_string, utf16_len, write_string,
};
use crate::varint::{
    lemma_enc_len_le, lemma_pow128_values, lemma_var_int_read_embedded, pow128, read_var_int,
    spec_read_var_int, u32_from_i32, varint_enc, write_var_int,
};

verus! {

/// The bytes of one framed packet: the body (VarInt packet ID plus
/// payload) prefixed by its own byte length as a VarInt.
pub open spec fn packet_bytes(id: i32, payload: Seq<u8>) -> Seq<u8> {
    let body = varint_enc(u32_from_i32(id) as nat) + payload;
    varint_enc(body.len() as nat) + body
}

/// Frames one outbound packet from its ID and payload.
pub fn packet(id: i32, payload: &[u8]) -> (r: Vec<u8>)
    requires
        payload@.len() + 5 <= i32::MAX,
    ensures
        r@ == packet_bytes(id, payload@),
{
    proof {
        lemma_pow128_values();
        lemma_enc_len_le(u32_from_i32(id) as nat, 5);
    }
    let mut body: Vec<u8> = Vec::new();
    write_var_int(&mut body, &id);
    body.extend_from_slice(payload);
    assert(body@ =~= varint_enc(u32_from_i32(id) as nat) + payload@);
    let n: i32 = body.len() as i32;
    assert(u32_from_i32(n) as nat == body@.len());
    let mut pkt: Vec<u8> = Vec::new();
    write_var_int(&mut pkt, &n);
    pkt.append(&mut body);
    assert(pkt@ =~= packet_bytes(id, payload@));
    pkt
}

/// The handshake payload: VarInt protocol version, length-prefixed server
/// address, big-endian port, VarInt next-state fixed at 1 (status).
pub open spec fn handshake_payload(protocol_version: i32, address: Seq<char>, port: u16) -> Seq<
    u8,
> {
    varint_enc(u32_from_i32(protocol_version) as nat) + varint_enc(utf16_len(address))
        + encode_utf8(address) + u16_be_bytes(port) + varint_enc(1)
}

/// Builds the handshake packet (ID 0). Rejects an address whose UTF-16
/// length exceeds the string codec's ceiling instead of panicking.
pub fn handshake_packet(protocol_version: i32, address: &str, port: u16) -> (r: Result<
    Vec<u8>,
    EncodingError,
>)
    ensures
        match r {
            Ok(pkt) => utf16_len(address@) <= 32767 && pkt@ == packet_bytes(
                0,
                handshake_payload(protocol_version, address@, port),
            ),
            Err(e) => e == EncodingError::StringTooLong && utf16_len(address@) > 32767,
        },
{
    let mut payload: Vec<u8> = Vec::new();
    write_var_int(&mut payload, &protocol_version);
    match write_string(&mut payload, address) {
        Ok(()) => (),
        Err(e) => {
            return Err(e);
        },
    }
    write_u16(&mut payload, port);
    write_var_int(&mut payload, &1i32);
    proof {
        lemma_pow128_values();
        lemma_enc_len_le(u32_from_i32(protocol_version) as nat, 5);
        lemma_enc_len_le(utf16_len(address@), 5);
        crate::strings::lemma_utf16_len_ge_len(address@);
        lemma_encode_utf8_len(address@);
        assert(u32_from_i32(1) == 1);
    }
    assert(payload@ == handshake_payload(protocol_version, address@, port));
    let pkt = packet(0, payload.as_slice());
    Ok(pkt)
}

/// Builds the status-request packet: ID 0, empty payload.
pub fn status_request_packet() -> (r: Vec<u8>)
    ensures
        r@ == packet_bytes(0, Seq::<u8>::empty()),
{
    let empty: Vec<u8> = Vec::new();
    packet(0, empty.as_slice())
}

/// Accepts only the status-response packet ID, zero.
pub fn validate_packet_id(id: i32) -> (r: Result<(), PingError>)
    ensures
        id == 0 ==> r == Ok::<(), PingError>(()),
        id != 0 ==> r == Err::<(), PingError>(PingError::UnexpectedPacketId(id)),
{
    if id != 0 {
        return Err(PingError::UnexpectedPacketId(id));
    }
    Ok(())
}

/// Validates a response frame's declared body length before the driver
/// reads that many bytes: a negative count can never be satisfied.
pub fn body_length(len: i32) -> (r: Result<usize, PingError>)
    ensures
        len >= 0 ==> r == Ok::<usize, PingError>(len as usize),
        len < 0 ==> r == Err::<usize, PingError>(PingError::Encoding(
            EncodingError::UnexpectedEof,
        )),
{
    if len < 0 {
        return Err(PingError::Encoding(EncodingError::UnexpectedEof));
    }
    Ok(len as usize)
}

/// What `parse_response_body` returns on a response body: its packet ID,
/// then the JSON payload as a length-prefixed string.
pub open spec fn spec_parse_response(data: Seq<u8>) -> Result<(i32, Seq<char>), EncodingError> {
    match spec_read_var_int(data, 0) {
        Err(e) => Err(e),
        Ok((id, j)) => match spec_read_string(data, j) {
            Err(e) => Err(e),
            Ok((text, _)) => Ok((id, text)),
        },
    }
}

/// Splits a response body into its packet ID and its JSON payload text.
pub fn parse_response_body(data: &[u8]) -> (r: Result<(i32, String), EncodingError>)
    ensures
        match spec_parse_response(data@) {
            Ok((id, text)) => r matches Ok((i, s)) && i == id && s@ == text,
            Err(e) => r matches Err(e2) && e2 == e,
        },
{
    let mut idx: usize = 0;
    let id: i32 = match read_var_int(data, &mut idx) {
        Ok(v) => v,
        Err(e) => {
            return Err(e);
        },
    };
    let text: String = match read_string(data, &mut idx) {
        Ok(s) => s,
        Err(e) => {
            return Err(e);
        },
    };
    Ok((id, text))
}

/// A subrange of a concatenation that lies entirely in the left part.
proof fn lemma_concat_subrange_left(x: Seq<u8>, y: Seq<u8>, i: int, l: int)
    requires
        0 <= i,
        0 <= l,
        i + l <= x.len(),
    ensures
        (x + y).subrange(i, i + l) == x.subrange(i, i + l),
{
    assert((x + y).subrange(i, i + l) =~= x.subrange(i, i + l));
}

/// A subrange of a concatenation that lies entirely in the right part.
proof fn lemma_concat_subrange_right(x: Seq<u8>, y: Seq<u8>, i: int, l: int)
    requires
        x.len() <= i,
        0 <= l,
        i + l <= x.len() + y.len(),
    ensures
        (x + y).subrange(i, i + l) == y.subrange(i - x.len(), i - x.len() + l),
{
    assert((x + y).subrange(i, i + l) =~= y.subrange(i - x.len(), i - x.len() + l));
}

/// Law: the handshake packet describes itself. Its leading VarInt equals
/// the byte length of everything that follows it, and reading the body
/// back recovers the packet ID and the same four fields, ending exactly
/// at the packet's end.
pub proof fn lemma_handshake_packet_parses(protocol_version: i32, address: Seq<char>, port: u16)
    requires
        is_ascii_chars(address),
        utf16_len(address) <= 32767,
    ensures
        ({
            let enc_a = varint_enc(u32_from_i32(protocol_version) as nat);
            let enc_b = varint_enc(utf16_len(address));
            let enc_c = encode_utf8(address);
            let body = varint_enc(0) + handshake_payload(protocol_version, address, port);
            let pkt = packet_bytes(0, handshake_payload(protocol_version, address, port));
            let j_id = pkt.len() - body.len();
            let j_ver = j_id + 1;
            let j_addr = j_ver + enc_a.len();
            let j_port = j_addr + enc_b.len() + enc_c.len();
            &&& spec_read_var_int(pkt, 0) == Ok::<(i32, int), EncodingError>(
                (body.len() as i32, j_id),
            )
            &&& spec_read_var_int(pkt, j_id) == Ok::<(i32, int), EncodingError>((0, j_ver))
            &&& spec_read_var_int(pkt, j_ver) == Ok::<(i32, int), EncodingError>(
                (protocol_version, j_addr),
            )
            &&& spec_read_string(pkt, j_addr) == Ok::<(Seq<char>, int), EncodingError>(
                (address, j_port),
            )
            &&& pkt[j_port] == port / 256
            &&& pkt[j_port + 1] == port % 256
            &&& spec_read_var_int(pkt, j_port + 2) == Ok::<(i32, int), EncodingError>(
                (1, pkt.len() as int),
            )
        }),
{
    lemma_pow128_values();
    let enc_a = varint_enc(u32_from_i32(protocol_version) as nat);
    let enc_b = varint_enc(utf16_len(address));
    let enc_c = encode_utf8(address);
    let enc_d = u16_be_bytes(port);
    let enc_e = varint_enc(1);
    let payload = handshake_payload(protocol_version, address, port);
    let body = varint_enc(0) + payload;
    let prefix = varint_enc(body.len() as nat);
    let pkt = packet_bytes(0, payload);
    assert(u32_from_i32(0) == 0);
    assert(pkt == prefix + body);
    lemma_enc_len_le(u32_from_i32(protocol_version) as nat, 5);
    lemma_enc_len_le(utf16_len(address), 5);
    lemma_utf16_len_ascii(address);
    lemma_encode_utf8_len(address);
    assert(varint_enc(0) == seq![0u8]);
    assert(enc_e == seq![1u8]);
    assert(body.len() <= 14 + enc_c.len());

    // The leading VarInt carries the body length.
    assert(u32_from_i32(body.len() as i32) as nat == body.len() as nat);
    lemma_enc_len_le(body.len() as nat, 5);
    assert(pkt.subrange(0, prefix.len() as int) == prefix) by {
        lemma_concat_subrange_left(prefix, body, 0, prefix.len() as int);
        assert(prefix.subrange(0, prefix.len() as int) =~= prefix);
    }
    lemma_var_int_read_embedded(pkt, 0, body.len() as i32);
    let j_id = prefix.len() as int;
    assert(j_id == pkt.len() - body.len());

    // The packet ID, zero, one byte.
    assert(pkt.subrange(j_id, j_id + 1) == varint_enc(u32_from_i32(0) as nat)) by {
        lemma_concat_subrange_right(prefix, body, j_id, 1);
        lemma_concat_subrange_left(varint_enc(0), payload, 0, 1);
        assert(varint_enc(0).subrange(0, 1) =~= varint_enc(0));
    }
    lemma_var_int_read_embedded(pkt, j_id, 0);
    let j_ver = j_id + 1;

    // Positions of the payload fields inside the payload.
    let p_a = 0;
    let p_b = enc_a.len() as int;
    let p_c = p_b + enc_b.len() as int;
    let p_d = p_c + enc_c.len() as int;
    let p_e = p_d + 2;
    assert(payload == enc_a + enc_b + enc_c + enc_d + enc_e);

    // Protocol version.
    assert(pkt.subrange(j_ver, j_ver + enc_a.len()) == enc_a) by {
        lemma_concat_subrange_right(prefix, body, j_ver, enc_a.len() as int);
        lemma_concat_subrange_right(varint_enc(0), payload, 1, enc_a.len() as int);
        lemma_concat_subrange_left(enc_a + enc_b + enc_c + enc_d, enc_e, p_a, enc_a.len() as int);
        lemma_concat_subrange_left(enc_a + enc_b + enc_c, enc_d, p_a, enc_a.len() as int);
        lemma_concat_subrange_left(enc_a + enc_b, enc_c, p_a, enc_a.len() as int);
        lemma_concat_subrange_left(enc_a, enc_b, p_a, enc_a.len() as int);
        assert(enc_a.subrange(0, enc_a.len() as int) =~= enc_a);
    }
    lemma_var_int_read_embedded(pkt, j_ver, protocol_version);
    let j_addr = j_ver + enc_a.len() as int;

    // Server address: a string frame.
    assert(pkt.subrange(j_addr, j_addr + enc_b.len() + enc_c.len()) == enc_b + enc_c) by {
        let l = enc_b.len() as int + enc_c.len() as int;
        lemma_concat_subrange_right(prefix, body, j_addr, l);
        lemma_concat_subrange_right(varint_enc(0), payload, 1 + p_b, l);
        lemma_concat_subrange_left(enc_a + enc_b + enc_c + enc_d, enc_e, p_b, l);
        lemma_concat_subrange_left(enc_a + enc_b + enc_c, enc_d, p_b, l);
        lemma_concat_subrange_right(enc_a, enc_b + enc_c, p_b, l);
        assert((enc_a + enc_b + enc_c) == enc_a + (enc_b + enc_c)) by {
            assert((enc_a + enc_b + enc_c) =~= enc_a + (enc_b + enc_c));
        }
        assert((enc_b + enc_c).subrange(0, l) =~= enc_b + enc_c);
    }
    lemma_string_frame_embedded(pkt, j_addr, address);
    let j_port = j_addr + enc_b.len() as int + enc_c.len() as int;

    // Port, big endian.
    assert(pkt.subrange(j_port, j_port + 2) == enc_d) by {
        lemma_concat_subrange_right(prefix, body, j_port, 2);
        lemma_concat_subrange_right(varint_enc(0), payload, 1 + p_d, 2);
        lemma_concat_subrange_left(enc_a + enc_b + enc_c + enc_d, enc_e, p_d, 2);
        lemma_concat_subrange_right(enc_a + enc_b + enc_c, enc_d, p_d, 2);
        assert(enc_d.subrange(0, 2) =~= enc_d);
    }
    assert(pkt[j_port] == pkt.subrange(j_port, j_port + 2)[0]);
    assert(pkt[j_port + 1] == pkt.subrange(j_port, j_port + 2)[1]);

    // Next state, one.
    assert(u32_from_i32(1) == 1);
    assert(pkt.subrange(j_port + 2, j_port + 2 + 1) == enc_e) by {
        lemma_concat_subrange_right(prefix, body, j_port + 2, 1);
        lemma_concat_subrange_right(varint_enc(0), payload, 1 + p_e, 1);
        lemma_concat_subrange_right(enc_a + enc_b + enc_c + enc_d, enc_e, p_e, 1);
        assert(enc_e.subrange(0, 1) =~= enc_e);
    }
    lemma_var_int_read_embedded(pkt, j_port + 2, 1);
    assert(j_port + 2 + 1 == pkt.len());
}

} // verus!

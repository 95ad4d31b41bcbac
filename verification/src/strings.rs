//! The length-prefixed string codec: UTF-8 text prefixed by its UTF-16
//! code-unit count as a VarInt. Writing enforces the protocol's 32767
//! ceiling on the UTF-16 length; reading treats the prefix as a byte
//! count into the buffer, checks bounds, and validates UTF-8.

use vstd::prelude::*;
use vstd::std_specs::iter::IteratorSpec;
use vstd::string::StringExecFns;
use vstd::utf8::{
    char_is_scalar, decode_utf8, encode_scalar, encode_utf8, encode_utf8_decode_utf8,
    encode_utf8_valid_utf8, has_width_1_encoding, has_width_2_encoding, has_width_3_encoding,
    is_ascii_chars, is_ascii_chars_encode_utf8, is_ascii_chars_nat_bound, valid_utf8,
};

use crate::errors::EncodingError;
use crate::varint::{
    i32_from_u32, spec_read_var_int, u32_from_i32, varint_enc, read_var_int, write_var_int, lemma_enc_len_le, lemma_enc_embedded, lemma_frame_len_bounds,
    lemma_pow128_values, lemma_var_int_read_embedded,
};

verus! {

/// How many UTF-16 code units one character occupies: two for characters
/// outside the Basic Multilingual Plane, one otherwise.
pub open spec fn utf16_units(c: char) -> nat {
    if c as u32 > 0xFFFF {
        2
    } else {
        1
    }
}

/// The UTF-16 code-unit count of a character sequence.
pub open spec fn utf16_len(s: Seq<char>) -> nat
    decreases s.len(),
{
    if s.len() == 0 {
        0
    } else {
        utf16_units(s[0]) + utf16_len(s.drop_first())
    }
}

/// The UTF-16 length of a concatenation is the sum of the parts' lengths.
pub proof fn lemma_utf16_len_additive(a: Seq<char>, b: Seq<char>)
    ensures
        utf16_len(a + b) == utf16_len(a) + utf16_len(b),
    decreases a.len(),
{
    if a.len() == 0 {
        assert(a + b =~= b);
    } else {
        assert((a + b).drop_first() =~= a.drop_first() + b);
        lemma_utf16_len_additive(a.drop_first(), b);
    }
}

/// Each character contributes at least one UTF-16 unit.
pub proof fn lemma_utf16_len_ge_len(s: Seq<char>)
    ensures
        utf16_len(s) >= s.len(),
    decreases s.len(),
{
    if s.len() > 0 {
        lemma_utf16_len_ge_len(s.drop_first());
    }
}

/// ASCII characters occupy exactly one UTF-16 unit each.
pub proof fn lemma_utf16_len_ascii(s: Seq<char>)
    requires
        is_ascii_chars(s),
    ensures
        utf16_len(s) == s.len(),
    decreases s.len(),
{
    broadcast use is_ascii_chars_nat_bound;

    if s.len() > 0 {
        assert(is_ascii_chars(s.drop_first())) by {
            assert(forall|i: int|
                0 <= i < s.drop_first().len() ==> #[trigger] s.drop_first()[i] == s[i + 1]);
        }
        assert((s[0] as nat) < 128);
        lemma_utf16_len_ascii(s.drop_first());
    }
}

/// One character's UTF-8 encoding spans one to four bytes.
proof fn lemma_encode_scalar_len(c: char)
    ensures
        1 <= encode_scalar(c as u32).len() <= 4,
{
    char_is_scalar(c);
    if has_width_1_encoding(c as u32) {
    } else if has_width_2_encoding(c as u32) {
    } else if has_width_3_encoding(c as u32) {
    }
}

/// The UTF-8 encoding of a sequence spans between one and four bytes per
/// character.
pub proof fn lemma_encode_utf8_len(s: Seq<char>)
    ensures
        s.len() <= encode_utf8(s).len() <= 4 * s.len(),
    decreases s.len(),
{
    if s.len() > 0 {
        lemma_encode_scalar_len(s[0]);
        lemma_encode_utf8_len(s.drop_first());
    }
}

/// Counts the UTF-16 code units of `s`, stopping as soon as the count
/// exceeds the protocol ceiling of 32767.
fn utf16_len_checked(s: &str) -> (r: Option<u32>)
    ensures
        match r {
            Some(n) => n == utf16_len(s@) && n <= 32767,
            None => utf16_len(s@) > 32767,
        },
{
    let mut it = s.chars();
    let mut total: u32 = 0;
    let ghost mut processed: int = 0;
    loop
        invariant
            it.obeys_prophetic_iter_laws(),
            0 <= processed <= s@.len(),
            it.remaining() == s@.skip(processed),
            total == utf16_len(s@.take(processed)),
            total <= 32767,
        decreases s@.len() - processed,
    {
        match it.next() {
            None => {
                assert(s@.skip(processed).len() == 0);
                assert(s@.take(processed) =~= s@);
                return Some(total);
            },
            Some(c) => {
                proof {
                    assert(s@.skip(processed)[0] == s@[processed]);
                    assert(s@.take(processed + 1) =~= s@.take(processed) + seq![s@[processed]]);
                    lemma_utf16_len_additive(s@.take(processed), seq![s@[processed]]);
                    assert(seq![s@[processed]].drop_first() =~= Seq::<char>::empty());
                    assert(utf16_len(Seq::<char>::empty()) == 0);
                    assert(utf16_len(seq![s@[processed]]) == utf16_units(s@[processed]));
                    assert(s@.skip(processed).drop_first() =~= s@.skip(processed + 1));
                }
                let add: u32 = if (c as u32) > 0xFFFF {
                    2
                } else {
                    1
                };
                total = total + add;
                proof {
                    processed = processed + 1;
                }
                if total > 32767 {
                    proof {
                        assert(s@.take(processed) + s@.skip(processed) =~= s@);
                        lemma_utf16_len_additive(s@.take(processed), s@.skip(processed));
                    }
                    return None;
                }
            },
        }
    }
}

/// Appends the UTF-16 code-unit count of `string` as a VarInt, then the
/// raw UTF-8 bytes. Rejects strings whose UTF-16 length exceeds 32767,
/// leaving the buffer untouched.
pub fn write_string(buffer: &mut Vec<u8>, string: &str) -> (r: Result<(), EncodingError>)
    ensures
        match r {
            Ok(()) => utf16_len(string@) <= 32767 && final(buffer)@ == old(buffer)@ + varint_enc(
                utf16_len(string@),
            ) + encode_utf8(string@),
            Err(e) => e == EncodingError::StringTooLong && utf16_len(string@) > 32767
                && final(buffer)@ == old(buffer)@,
        },
{
    let n: u32 = match utf16_len_checked(string) {
        Some(n) => n,
        None => {
            return Err(EncodingError::StringTooLong);
        },
    };
    assert(u32_from_i32(n as i32) == n);
    write_var_int(buffer, &(n as i32));
    let bytes: &[u8] = string.as_bytes();
    buffer.extend_from_slice(bytes);
    Ok(())
}

/// What `read_string` returns on `data` at position `i`: a VarInt length
/// prefix (a byte count into the buffer), then that many bytes decoded as
/// UTF-8, and the position one past them.
pub open spec fn spec_read_string(data: Seq<u8>, i: int) -> Result<(Seq<char>, int), EncodingError> {
    match spec_read_var_int(data, i) {
        Err(e) => Err(e),
        Ok((len, j)) => if len < 0 || j + len > data.len() {
            Err(EncodingError::UnexpectedEof)
        } else if !valid_utf8(data.subrange(j, j + len)) {
            Err(EncodingError::InvalidEncoding)
        } else {
            Ok((decode_utf8(data.subrange(j, j + len)), j + len))
        },
    }
}

/// Relies on core::str::from_utf8: it succeeds exactly on UTF-8-valid
/// bytes and views them as text.
#[verifier::external_body]
fn bytes_as_str(bytes: &[u8]) -> (r: Option<&str>)
    ensures
        match r {
            Some(s) => valid_utf8(bytes@) && s@ == decode_utf8(bytes@),
            None => !valid_utf8(bytes@),
        },
{
    core::str::from_utf8(bytes).ok()
}

/// Reads a VarInt byte count at `*index`, slices that many bytes out of
/// `data`, and decodes them as UTF-8. Advances the cursor one past the
/// sliced bytes on success and leaves it unchanged on every error.
pub fn read_string(data: &[u8], index: &mut usize) -> (r: Result<String, EncodingError>)
    ensures
        match spec_read_string(data@, *old(index) as int) {
            Ok((t, j)) => (r matches Ok(s) && s@ == t) && *final(index) == j,
            Err(e) => r == Err::<String, EncodingError>(e) && *final(index) == *old(index),
        },
{
    let start: usize = *index;
    let len_i: i32 = match read_var_int(data, index) {
        Ok(v) => v,
        Err(e) => {
            return Err(e);
        },
    };
    proof {
        lemma_frame_len_bounds(data@, start as int, 5);
    }
    if len_i < 0 {
        *index = start;
        return Err(EncodingError::UnexpectedEof);
    }
    let len: usize = len_i as usize;
    if len > data.len() - *index {
        *index = start;
        return Err(EncodingError::UnexpectedEof);
    }
    let slice: &[u8] = &data[*index..*index + len];
    match bytes_as_str(slice) {
        Some(st) => {
            let owned: String = st.to_owned();
            *index = *index + len;
            Ok(owned)
        },
        None => {
            *index = start;
            Err(EncodingError::InvalidEncoding)
        },
    }
}

/// Reading at `i` recovers an ASCII string whose written frame sits at `i`.
pub proof fn lemma_string_frame_embedded(data: Seq<u8>, i: int, s: Seq<char>)
    requires
        is_ascii_chars(s),
        utf16_len(s) <= 32767,
        0 <= i,
        i + varint_enc(utf16_len(s)).len() + encode_utf8(s).len() <= data.len(),
        data.subrange(i, i + varint_enc(utf16_len(s)).len() + encode_utf8(s).len()) == varint_enc(
            utf16_len(s),
        ) + encode_utf8(s),
    ensures
        spec_read_string(data, i) == Ok::<(Seq<char>, int), EncodingError>(
            (s, i + varint_enc(utf16_len(s)).len() + encode_utf8(s).len()),
        ),
{
    broadcast use encode_utf8_valid_utf8, encode_utf8_decode_utf8;

    let n = utf16_len(s);
    let e = varint_enc(n);
    let u = encode_utf8(s);
    lemma_utf16_len_ascii(s);
    is_ascii_chars_encode_utf8(s);
    assert(data.subrange(i, i + e.len() as int) =~= e) by {
        assert(forall|t: int|
            0 <= t < e.len() ==> data.subrange(i, i + e.len() + u.len())[t] == (e + u)[t]);
    }
    assert(u32_from_i32(n as i32) == n);
    lemma_var_int_read_embedded(data, i, n as i32);
    let j = i + e.len() as int;
    assert forall|t: int| 0 <= t < n as int implies data.subrange(j, j + n as int)[t] == u[t] by {
        assert(data.subrange(j, j + n as int)[t] == data[j + t]);
        assert(data.subrange(i, i + e.len() + u.len())[e.len() + t] == (e + u)[e.len() + t]);
    }
    assert(data.subrange(j, j + n as int) =~= u);
    assert(decode_utf8(u) == s);
}

/// Law: reading back a written string frame yields the characters that
/// were written, for ASCII strings within the length ceiling, with any
/// bytes following the frame. (Beyond ASCII the prefix counts UTF-16
/// units while reading consumes bytes, so the frame does not describe
/// its own extent.)
pub proof fn lemma_string_round_trip(s: Seq<char>, rest: Seq<u8>)
    requires
        is_ascii_chars(s),
        utf16_len(s) <= 32767,
    ensures
        ({
            let frame = varint_enc(utf16_len(s)) + encode_utf8(s);
            spec_read_string(frame + rest, 0) == Ok::<(Seq<char>, int), EncodingError>(
                (s, frame.len() as int),
            )
        }),
{
    broadcast use encode_utf8_valid_utf8, encode_utf8_decode_utf8;

    let n = utf16_len(s);
    let e = varint_enc(n);
    let u = encode_utf8(s);
    let data = (e + u) + rest;
    lemma_utf16_len_ascii(s);
    is_ascii_chars_encode_utf8(s);
    lemma_pow128_values();
    lemma_enc_len_le(n, 5);
    assert(data.subrange(0, e.len() as int) =~= e);
    lemma_enc_embedded(data, 0, n, 5);
    assert(spec_read_var_int(data, 0) == Ok::<(i32, int), EncodingError>(
        (i32_from_u32((n % 0x100000000) as u32), e.len() as int),
    ));
    assert(i32_from_u32((n % 0x100000000) as u32) == n);
    assert(data.subrange(e.len() as int, e.len() as int + n as int) =~= u);
    assert(decode_utf8(u) == s);
}

} // verus!

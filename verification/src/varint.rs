//! The VarInt codec: signed 32-bit and 64-bit integers in a 7-bits-per-byte,
//! continuation-bit variable-length format, least-significant group first.
//!
//! The integer's bit pattern is treated as unsigned. Each encoded byte
//! carries seven data bits; the high bit marks that more bytes follow.
//! A 32-bit value spans at most 5 bytes, a 64-bit value at most 10.

use vstd::prelude::*;

use crate::errors::EncodingError;

verus! {

/// 128 raised to the power `n`: the place value of the `n`-th seven-bit group.
pub open spec fn pow128(n: int) -> nat
    decreases n,
{
    if n <= 0 {
        1
    } else {
        128 * pow128(n - 1)
    }
}

/// The VarInt encoding of an unsigned value: low seven bits first, each
/// byte except the last carrying the continuation bit.
pub open spec fn varint_enc(v: nat) -> Seq<u8>
    decreases v,
{
    if v < 128 {
        seq![v as u8]
    } else {
        seq![(v % 128 + 128) as u8] + varint_enc(v / 128)
    }
}

/// The length of the VarInt frame beginning at `i`, if a byte with a clear
/// continuation bit lies within the first `max` bytes and within bounds.
pub open spec fn varint_frame_len(data: Seq<u8>, i: int, max: int) -> Option<int>
    decreases max,
{
    if max <= 0 || i < 0 || i >= data.len() {
        None
    } else if data[i] < 128 {
        Some(1)
    } else {
        match varint_frame_len(data, i + 1, max - 1) {
            Some(k) => Some(k + 1),
            None => None,
        }
    }
}

/// The value carried by `count` seven-bit groups starting at `i`,
/// least-significant group first.
pub open spec fn varint_group_value(data: Seq<u8>, i: int, count: int) -> nat
    decreases count,
{
    if count <= 0 {
        0
    } else {
        (data[i] % 128) as nat + 128 * varint_group_value(data, i + 1, count - 1)
    }
}

/// Reading a VarInt of at most `max` bytes from `data` at position `i`:
/// the raw (untruncated) value and the position one past the frame, or the
/// error that a bounded decoder must report.
pub open spec fn spec_read_varint_raw(data: Seq<u8>, i: int, max: int) -> Result<
    (nat, int),
    EncodingError,
> {
    match varint_frame_len(data, i, max) {
        Some(k) => Ok((varint_group_value(data, i, k), i + k)),
        None => if i + max <= data.len() {
            Err(EncodingError::VarIntTooLong)
        } else {
            Err(EncodingError::UnexpectedEof)
        },
    }
}

/// The `i32` whose bit pattern equals `v`.
pub open spec fn i32_from_u32(v: u32) -> i32 {
    if v < 0x8000_0000 {
        v as i32
    } else {
        (v - 0x1_0000_0000) as i32
    }
}

/// The `u32` whose bit pattern equals `v`.
pub open spec fn u32_from_i32(v: i32) -> u32 {
    if v >= 0 {
        v as u32
    } else {
        (v + 0x1_0000_0000) as u32
    }
}

/// The `i64` whose bit pattern equals `v`.
pub open spec fn i64_from_u64(v: u64) -> i64 {
    if v < 0x8000_0000_0000_0000 {
        v as i64
    } else {
        (v - 0x1_0000_0000_0000_0000) as i64
    }
}

/// The `u64` whose bit pattern equals `v`.
pub open spec fn u64_from_i64(v: i64) -> u64 {
    if v >= 0 {
        v as u64
    } else {
        (v + 0x1_0000_0000_0000_0000) as u64
    }
}

/// What `read_var_int` returns on `data` at position `i`: the decoded
/// value's low 32 bits as an `i32`, and the next cursor position.
pub open spec fn spec_read_var_int(data: Seq<u8>, i: int) -> Result<(i32, int), EncodingError> {
    match spec_read_varint_raw(data, i, 5) {
        Ok((v, j)) => Ok((i32_from_u32((v % 0x1_0000_0000) as u32), j)),
        Err(e) => Err(e),
    }
}

/// What `read_var_int_long` returns on `data` at position `i`.
pub open spec fn spec_read_var_int_long(data: Seq<u8>, i: int) -> Result<
    (i64, int),
    EncodingError,
> {
    match spec_read_varint_raw(data, i, 10) {
        Ok((v, j)) => Ok((i64_from_u64((v % 0x1_0000_0000_0000_0000) as u64), j)),
        Err(e) => Err(e),
    }
}

/// Appends the VarInt encoding of `value`'s bit pattern to `result`.
pub fn write_var_int(result: &mut Vec<u8>, value: &i32)
    ensures
        final(result)@ == old(result)@ + varint_enc(u32_from_i32(*value) as nat),
{
    let mut v: u32 = if *value >= 0 {
        *value as u32
    } else {
        (((*value as i64) + 0x1_0000_0000) as u32)
    };
    assert(v == u32_from_i32(*value));
    loop
        invariant
            old(result)@ + varint_enc(u32_from_i32(*value) as nat) == result@ + varint_enc(
                v as nat,
            ),
        decreases v,
    {
        if v < 128 {
            result.push(v as u8);
            assert(varint_enc(v as nat) == seq![v as u8]);
            assert(result@ == old(result)@ + varint_enc(u32_from_i32(*value) as nat));
            return ;
        }
        let b: u8 = (v % 128 + 128) as u8;
        result.push(b);
        proof {
            assert(varint_enc(v as nat) == seq![b] + varint_enc((v as nat) / 128));
            assert((v / 128) as nat == (v as nat) / 128);
            assert(result@ + varint_enc((v / 128) as nat) == old(result)@ + varint_enc(
                u32_from_i32(*value) as nat,
            ));
        }
        v = v / 128;
    }
}

/// Appends the VarInt encoding of `value`'s bit pattern to `result`.
pub fn write_var_long(result: &mut Vec<u8>, value: i64)
    ensures
        final(result)@ == old(result)@ + varint_enc(u64_from_i64(value) as nat),
{
    let mut v: u64 = if value >= 0 {
        value as u64
    } else {
        (((value as i128) + 0x1_0000_0000_0000_0000) as u64)
    };
    assert(v == u64_from_i64(value));
    loop
        invariant
            old(result)@ + varint_enc(u64_from_i64(value) as nat) == result@ + varint_enc(
                v as nat,
            ),
        decreases v,
    {
        if v < 128 {
            result.push(v as u8);
            assert(varint_enc(v as nat) == seq![v as u8]);
            assert(result@ == old(result)@ + varint_enc(u64_from_i64(value) as nat));
            return ;
        }
        let b: u8 = (v % 128 + 128) as u8;
        result.push(b);
        proof {
            assert(varint_enc(v as nat) == seq![b] + varint_enc((v as nat) / 128));
            assert((v / 128) as nat == (v as nat) / 128);
            assert(result@ + varint_enc((v / 128) as nat) == old(result)@ + varint_enc(
                u64_from_i64(value) as nat,
            ));
        }
        v = v / 128;
    }
}

proof fn lemma_pow128_pos(n: int)
    ensures
        pow128(n) >= 1,
    decreases n,
{
    if n > 0 {
        lemma_pow128_pos(n - 1);
    }
}

pub proof fn lemma_pow128_mono(a: int, b: int)
    requires
        a <= b,
    ensures
        pow128(a) <= pow128(b),
    decreases b - a,
{
    if a < b {
        lemma_pow128_mono(a, b - 1);
        if b > 0 {
            lemma_pow128_pos(b - 1);
        }
    }
}

pub proof fn lemma_pow128_values()
    ensures
        pow128(1) == 0x80,
        pow128(2) == 0x4000,
        pow128(3) == 0x200000,
        pow128(4) == 0x10000000,
        pow128(5) == 0x800000000,
        pow128(6) == 0x40000000000,
        pow128(7) == 0x2000000000000,
        pow128(8) == 0x100000000000000,
        pow128(9) == 0x8000000000000000,
        pow128(10) == 0x400000000000000000,
{
    assert(pow128(0) == 1);
    assert(pow128(1) == 128 * pow128(0));
    assert(pow128(2) == 128 * pow128(1));
    assert(pow128(3) == 128 * pow128(2));
    assert(pow128(4) == 128 * pow128(3));
    assert(pow128(5) == 128 * pow128(4));
    assert(pow128(6) == 128 * pow128(5));
    assert(pow128(7) == 128 * pow128(6));
    assert(pow128(8) == 128 * pow128(7));
    assert(pow128(9) == 128 * pow128(8));
    assert(pow128(10) == 128 * pow128(9));
}

proof fn lemma_group_value_snoc(data: Seq<u8>, i: int, c: int)
    requires
        0 <= c,
    ensures
        varint_group_value(data, i, c + 1) == varint_group_value(data, i, c) + pow128(c) * (
        (data[i + c] % 128) as nat),
    decreases c,
{
    if c == 0 {
        assert(varint_group_value(data, i + 1, 0) == 0);
        assert(varint_group_value(data, i, 0) == 0);
        assert(pow128(0) == 1);
        assert(varint_group_value(data, i, 1) == (data[i] % 128) as nat + 128 * varint_group_value(
            data,
            i + 1,
            0,
        ));
    } else {
        lemma_group_value_snoc(data, i + 1, c - 1);
        let a = varint_group_value(data, i + 1, c - 1);
        let p = pow128(c - 1);
        let g = (data[i + c] % 128) as nat;
        assert(varint_group_value(data, i + 1, c) == a + p * g);
        assert(varint_group_value(data, i, c) == (data[i] % 128) as nat + 128 * a);
        assert(varint_group_value(data, i, c + 1) == (data[i] % 128) as nat + 128 * (a + p * g));
        assert(128 * (a + p * g) == 128 * a + (128 * p) * g) by (nonlinear_arith);
        assert(pow128(c) == 128 * p);
        assert(varint_group_value(data, i, c + 1) == varint_group_value(data, i, c) + pow128(c)
            * g);
    }
}

proof fn lemma_group_value_bound(data: Seq<u8>, i: int, c: int)
    requires
        0 <= c,
    ensures
        varint_group_value(data, i, c) < pow128(c),
    decreases c,
{
    if c > 0 {
        lemma_group_value_bound(data, i + 1, c - 1);
        let a = varint_group_value(data, i + 1, c - 1);
        assert(128 * a <= 128 * (pow128(c - 1) - 1));
    }
}

pub proof fn lemma_enc_len_le(v: nat, k: int)
    requires
        1 <= k,
        v < pow128(k),
    ensures
        varint_enc(v).len() <= k,
    decreases k,
{
    if v >= 128 {
        assert(128 * (v / 128) + v % 128 == v);
        assert(pow128(k) == 128 * pow128(k - 1));
        if v / 128 >= pow128(k - 1) {
            assert(128 * (v / 128) >= 128 * pow128(k - 1));
            assert(false);
        }
        lemma_enc_len_le(v / 128, k - 1);
    }
}

pub proof fn lemma_enc_embedded(data: Seq<u8>, i: int, v: nat, max: int)
    requires
        0 <= i,
        i + varint_enc(v).len() <= data.len(),
        data.subrange(i, i + varint_enc(v).len() as int) == varint_enc(v),
        varint_enc(v).len() <= max,
    ensures
        varint_frame_len(data, i, max) == Some(varint_enc(v).len() as int),
        varint_group_value(data, i, varint_enc(v).len() as int) == v,
    decreases v,
{
    let e = varint_enc(v);
    assert(data[i] == data.subrange(i, i + e.len() as int)[0]);
    if v < 128 {
        assert(data[i] == v as u8);
        assert(varint_group_value(data, i, 1) == (data[i] % 128) as nat + 128 * varint_group_value(
            data,
            i + 1,
            0,
        ));
    } else {
        let tail = varint_enc(v / 128);
        assert(e == seq![(v % 128 + 128) as u8] + tail);
        assert(data[i] == (v % 128 + 128) as u8);
        assert(data.subrange(i + 1, i + 1 + tail.len() as int) == tail) by {
            assert forall|t: int| 0 <= t < tail.len() implies data.subrange(
                i + 1,
                i + 1 + tail.len() as int,
            )[t] == tail[t] by {
                assert(data.subrange(i + 1, i + 1 + tail.len() as int)[t] == data[i + 1 + t]);
                assert(data[i + 1 + t] == data.subrange(i, i + e.len() as int)[1 + t]);
                assert(e[1 + t] == tail[t]);
            }
            assert(data.subrange(i + 1, i + 1 + tail.len() as int) =~= tail);
        }
        lemma_enc_embedded(data, i + 1, v / 128, max - 1);
        assert(varint_group_value(data, i, e.len() as int) == (data[i] % 128) as nat + 128
            * varint_group_value(data, i + 1, tail.len() as int));
        assert((data[i] % 128) as nat == v % 128);
        assert(128 * (v / 128) + v % 128 == v);
    }
}

/// A found frame fits both the byte window and the buffer.
pub proof fn lemma_frame_len_bounds(data: Seq<u8>, i: int, max: int)
    requires
        0 <= i,
    ensures
        match varint_frame_len(data, i, max) {
            Some(k) => 1 <= k <= max && i + k <= data.len(),
            None => true,
        },
    decreases max,
{
    if max > 0 && i < data.len() && data[i] >= 128 {
        lemma_frame_len_bounds(data, i + 1, max - 1);
    }
}

/// Reads a VarInt frame of at most `max` bytes, accumulating the raw value.
fn read_varint_raw(data: &[u8], offset: &mut usize, max: usize) -> (r: Result<u128, EncodingError>)
    requires
        1 <= max <= 10,
    ensures
        match spec_read_varint_raw(data@, *old(offset) as int, max as int) {
            Ok((v, j)) => v < 0x400000000000000000 && r == Ok::<u128, EncodingError>(v as u128)
                && *final(offset) == j,
            Err(e) => r == Err::<u128, EncodingError>(e) && *final(offset) == *old(offset),
        },
{
    let ghost s = *offset as int;
    let mut idx: usize = *offset;
    let mut count: usize = 0;
    let mut acc: u128 = 0;
    let mut mult: u128 = 1;
    proof {
        lemma_pow128_values();
    }
    loop
        invariant
            1 <= max <= 10,
            0 <= count < max,
            s == *old(offset) as int,
            *offset == *old(offset),
            idx == s + count,
            acc == varint_group_value(data@, s, count as int),
            mult == pow128(count as int),
            (match varint_frame_len(data@, idx as int, (max - count) as int) {
                Some(k) => varint_frame_len(data@, s, max as int) == Some(count + k),
                None => varint_frame_len(data@, s, max as int) == None::<int>,
            }),
            pow128(9) == 0x8000000000000000,
            pow128(10) == 0x400000000000000000,
        decreases max - count,
    {
        proof {
            lemma_pow128_mono(count as int, 9);
            lemma_group_value_bound(data@, s, count as int);
        }
        if idx >= data.len() {
            assert(varint_frame_len(data@, idx as int, (max - count) as int) == None::<int>);
            return Err(EncodingError::UnexpectedEof);
        }
        let b: u8 = data[idx];
        let group: u128 = (b % 128) as u128;
        assert(group * mult <= 127 * 0x8000000000000000) by (nonlinear_arith)
            requires
                group <= 127,
                mult <= 0x8000000000000000,
        ;
        if b < 128 {
            assert(varint_frame_len(data@, idx as int, (max - count) as int) == Some(1int));
            proof {
                lemma_group_value_snoc(data@, s, count as int);
                lemma_group_value_bound(data@, s, count as int + 1);
                lemma_pow128_mono(count as int + 1, 10);
            }
            let v: u128 = acc + group * mult;
            *offset = idx + 1;
            return Ok(v);
        }
        proof {
            lemma_group_value_snoc(data@, s, count as int);
            assert(varint_frame_len(data@, idx as int, (max - count) as int) == (
            match varint_frame_len(data@, idx as int + 1, (max - count) as int - 1) {
                Some(k) => Some(k + 1),
                None => None,
            }));
        }
        acc = acc + group * mult;
        count = count + 1;
        idx = idx + 1;
        if count == max {
            assert(varint_frame_len(data@, idx as int, 0) == None::<int>);
            return Err(EncodingError::VarIntTooLong);
        }
        proof {
            lemma_pow128_mono(count as int, 9);
        }
        mult = mult * 128;
    }
}

/// Decodes a VarInt of at most 5 bytes from `data` at `*offset`, advancing
/// the cursor past the frame on success and leaving it unchanged on error.
pub fn read_var_int(data: &[u8], offset: &mut usize) -> (r: Result<i32, EncodingError>)
    ensures
        match spec_read_var_int(data@, *old(offset) as int) {
            Ok((v, j)) => r == Ok::<i32, EncodingError>(v) && *final(offset) == j,
            Err(e) => r == Err::<i32, EncodingError>(e) && *final(offset) == *old(offset),
        },
{
    let ghost spec_raw = spec_read_varint_raw(data@, *old(offset) as int, 5);
    match read_varint_raw(data, offset, 5) {
        Ok(raw) => {
            assert(spec_raw matches Ok((v0, j0)) ==> raw == v0);
            let low: u32 = (raw % 0x100000000) as u32;
            let v: i32 = if low < 0x80000000 {
                low as i32
            } else {
                ((low - 0x80000000) as i32) + i32::MIN
            };
            assert(spec_raw matches Ok((v0, j0)) ==> low == (v0 % 0x100000000) as u32 && v
                == i32_from_u32(low));
            Ok(v)
        },
        Err(e) => Err(e),
    }
}

/// Decodes a VarInt of at most 10 bytes from `data` at `*offset`, advancing
/// the cursor past the frame on success and leaving it unchanged on error.
pub fn read_var_int_long(data: &[u8], offset: &mut usize) -> (r: Result<i64, EncodingError>)
    ensures
        match spec_read_var_int_long(data@, *old(offset) as int) {
            Ok((v, j)) => r == Ok::<i64, EncodingError>(v) && *final(offset) == j,
            Err(e) => r == Err::<i64, EncodingError>(e) && *final(offset) == *old(offset),
        },
{
    let ghost spec_raw = spec_read_varint_raw(data@, *old(offset) as int, 10);
    match read_varint_raw(data, offset, 10) {
        Ok(raw) => {
            assert(spec_raw matches Ok((v0, j0)) ==> raw == v0);
            let low: u64 = (raw % 0x10000000000000000) as u64;
            let v: i64 = if low < 0x8000000000000000 {
                low as i64
            } else {
                ((low - 0x8000000000000000) as i64) + i64::MIN
            };
            assert(spec_raw matches Ok((v0, j0)) ==> low == (v0 % 0x10000000000000000) as u64 && v
                == i64_from_u64(low));
            Ok(v)
        },
        Err(e) => Err(e),
    }
}

/// Reading at `i` recovers a 32-bit value whose encoding sits at `i`.
pub proof fn lemma_var_int_read_embedded(data: Seq<u8>, i: int, v: i32)
    requires
        0 <= i,
        i + varint_enc(u32_from_i32(v) as nat).len() <= data.len(),
        data.subrange(i, i + varint_enc(u32_from_i32(v) as nat).len() as int) == varint_enc(
            u32_from_i32(v) as nat,
        ),
    ensures
        spec_read_var_int(data, i) == Ok::<(i32, int), EncodingError>(
            (v, i + varint_enc(u32_from_i32(v) as nat).len()),
        ),
{
    lemma_pow128_values();
    lemma_enc_len_le(u32_from_i32(v) as nat, 5);
    lemma_enc_embedded(data, i, u32_from_i32(v) as nat, 5);
    assert(i32_from_u32(((u32_from_i32(v) as nat) % 0x100000000) as u32) == v);
}

/// Incremental VarInt decoding for reads from a stream: feed each byte
/// as it arrives until the decoder reports a value or an error.
pub struct VarIntDecoder {
    acc: u64,
    mult: u64,
    count: u8,
    fed: Ghost<Seq<u8>>,
}

/// What one fed byte made of the frame so far.
pub enum VarIntStep {
    /// The frame is complete: its decoded value.
    Done(i32),
    /// More bytes are needed.
    More,
    /// Five bytes arrived without a terminator.
    TooLong,
}

proof fn lemma_group_value_agree(a: Seq<u8>, b2: Seq<u8>, i: int, c: int)
    requires
        0 <= c,
        forall|t: int| i <= t < i + c ==> #[trigger] a[t] == b2[t],
    ensures
        varint_group_value(a, i, c) == varint_group_value(b2, i, c),
    decreases c,
{
    if c > 0 {
        assert(a[i] == b2[i]);
        assert forall|t: int| i + 1 <= t < (i + 1) + (c - 1) implies #[trigger] a[t] == b2[t] by {
            assert(a[t] == b2[t]);
        }
        lemma_group_value_agree(a, b2, i + 1, c - 1);
    }
}

proof fn lemma_frame_found_at(data: Seq<u8>, i: int, max: int, c: int)
    requires
        0 <= i,
        0 <= c < max,
        i + c < data.len(),
        forall|t: int| i <= t < i + c ==> #[trigger] data[t] >= 128,
        data[i + c] < 128,
    ensures
        varint_frame_len(data, i, max) == Some(c + 1),
    decreases c,
{
    if c > 0 {
        assert(data[i] >= 128);
        assert forall|t: int| i + 1 <= t < (i + 1) + (c - 1) implies #[trigger] data[t] >= 128 by {
            assert(data[t] >= 128);
        }
        lemma_frame_found_at(data, i + 1, max - 1, c - 1);
    }
}

proof fn lemma_frame_all_cont(data: Seq<u8>, i: int, max: int)
    requires
        0 <= i,
        0 <= max,
        i + max <= data.len(),
        forall|t: int| i <= t < i + max ==> #[trigger] data[t] >= 128,
    ensures
        varint_frame_len(data, i, max) == None::<int>,
    decreases max,
{
    if max > 0 {
        assert(data[i] >= 128);
        assert forall|t: int| i + 1 <= t < (i + 1) + (max - 1) implies #[trigger] data[t]
            >= 128 by {
            assert(data[t] >= 128);
        }
        lemma_frame_all_cont(data, i + 1, max - 1);
    }
}

impl VarIntDecoder {
    /// The bytes fed so far.
    pub closed spec fn consumed(self) -> Seq<u8> {
        self.fed@
    }

    /// The decoder is still waiting inside an unfinished frame.
    pub closed spec fn wf(self) -> bool {
        &&& self.count as int == self.fed@.len()
        &&& self.count <= 4
        &&& self.acc == varint_group_value(self.fed@, 0, self.count as int)
        &&& self.mult == pow128(self.count as int)
        &&& forall|t: int| 0 <= t < self.fed@.len() ==> #[trigger] self.fed@[t] >= 128
    }

    /// A fresh decoder at the start of a frame.
    pub fn new() -> (r: Self)
        ensures
            r.wf(),
            r.consumed() == Seq::<u8>::empty(),
    {
        let r = VarIntDecoder { acc: 0, mult: 1, count: 0, fed: Ghost(Seq::empty()) };
        proof {
            assert(varint_group_value(r.fed@, 0, 0) == 0);
        }
        r
    }

    /// Feeds the next byte from the stream.
    pub fn feed(&mut self, b: u8) -> (r: VarIntStep)
        requires
            old(self).wf(),
        ensures
            final(self).consumed() == old(self).consumed() + seq![b],
            match r {
                VarIntStep::Done(v) => spec_read_var_int(final(self).consumed(), 0) == Ok::<
                    (i32, int),
                    EncodingError,
                >((v, final(self).consumed().len() as int)),
                VarIntStep::More => final(self).wf(),
                VarIntStep::TooLong => spec_read_var_int(final(self).consumed(), 0) == Err::<
                    (i32, int),
                    EncodingError,
                >(EncodingError::VarIntTooLong),
            },
    {
        proof {
            lemma_pow128_values();
            lemma_pow128_mono(old(self).count as int, 4);
            lemma_group_value_bound(old(self).fed@, 0, old(self).count as int);
        }
        let ghost oldfed = self.fed@;
        let c: u8 = self.count;
        self.fed = Ghost(oldfed + seq![b]);
        proof {
            assert forall|t: int| 0 <= t < c as int implies #[trigger] self.fed@[t]
                == oldfed[t] by {
            }
            assert forall|t: int| 0 <= t < c as int implies #[trigger] self.fed@[t] >= 128 by {
                assert(self.fed@[t] == oldfed[t]);
            }
            assert(self.fed@[c as int] == b);
            lemma_group_value_agree(self.fed@, oldfed, 0, c as int);
            lemma_group_value_bound(self.fed@, 0, c as int);
            lemma_group_value_snoc(self.fed@, 0, c as int);
        }
        let group: u64 = (b % 128) as u64;
        assert(group * self.mult <= 127 * 0x10000000) by (nonlinear_arith)
            requires
                group <= 127,
                self.mult <= 0x10000000,
        ;
        let value: u64 = self.acc + group * self.mult;
        proof {
            assert(varint_group_value(self.fed@, 0, c as int + 1) == value) by (nonlinear_arith)
                requires
                    varint_group_value(self.fed@, 0, c as int + 1) == varint_group_value(
                        self.fed@,
                        0,
                        c as int,
                    ) + pow128(c as int) * ((self.fed@[c as int] % 128) as nat),
                    varint_group_value(self.fed@, 0, c as int) == self.acc,
                    (self.fed@[c as int] % 128) as nat == group as nat,
                    self.mult == pow128(c as int),
                    value == self.acc + group * self.mult,
            ;
        }
        if b < 128 {
            proof {
                lemma_frame_found_at(self.fed@, 0, 5, c as int);
            }
            let low: u32 = (value % 0x100000000) as u32;
            let v: i32 = if low < 0x80000000 {
                low as i32
            } else {
                ((low - 0x80000000) as i32) + i32::MIN
            };
            return VarIntStep::Done(v);
        }
        if c == 4 {
            proof {
                lemma_frame_all_cont(self.fed@, 0, 5);
            }
            return VarIntStep::TooLong;
        }
        self.acc = value;
        self.mult = self.mult * 128;
        self.count = c + 1;
        proof {
            assert(pow128(c as int + 1) == 128 * pow128(c as int));
            assert forall|t: int| 0 <= t < self.fed@.len() implies #[trigger] self.fed@[t]
                >= 128 by {
                if t < c as int {
                    assert(self.fed@[t] >= 128);
                } else {
                    assert(self.fed@[t] == b);
                }
            }
        }
        VarIntStep::More
    }
}

/// Law: decoding inverts encoding for every 32-bit value, with any trailing
/// bytes after the frame.
pub proof fn lemma_var_int_round_trip(v: i32, rest: Seq<u8>)
    ensures
        spec_read_var_int(varint_enc(u32_from_i32(v) as nat) + rest, 0) == Ok::<
            (i32, int),
            EncodingError,
        >((v, varint_enc(u32_from_i32(v) as nat).len() as int)),
{
    let u = u32_from_i32(v);
    let e = varint_enc(u as nat);
    let data = e + rest;
    lemma_pow128_values();
    lemma_enc_len_le(u as nat, 5);
    assert(data.subrange(0, e.len() as int) == e) by {
        assert(data.subrange(0, e.len() as int) =~= e);
    }
    lemma_enc_embedded(data, 0, u as nat, 5);
    assert(i32_from_u32((u as nat % 0x100000000) as u32) == v);
}

/// Law: decoding inverts encoding for every 64-bit value, with any trailing
/// bytes after the frame.
pub proof fn lemma_var_long_round_trip(v: i64, rest: Seq<u8>)
    ensures
        spec_read_var_int_long(varint_enc(u64_from_i64(v) as nat) + rest, 0) == Ok::<
            (i64, int),
            EncodingError,
        >((v, varint_enc(u64_from_i64(v) as nat).len() as int)),
{
    let u = u64_from_i64(v);
    let e = varint_enc(u as nat);
    let data = e + rest;
    lemma_pow128_values();
    lemma_enc_len_le(u as nat, 10);
    assert(data.subrange(0, e.len() as int) == e) by {
        assert(data.subrange(0, e.len() as int) =~= e);
    }
    lemma_enc_embedded(data, 0, u as nat, 10);
    assert(i64_from_u64((u as nat % 0x10000000000000000) as u64) == v);
}

/// Law: the length tiers of the 32-bit VarInt encoding. Values below 128
/// take one byte, values from 128 up to 16383 take two, and so on up to
/// the five-byte ceiling.
pub proof fn lemma_var_int_enc_len(v: u32)
    ensures
        varint_enc(v as nat).len() == if v < 0x80 {
            1int
        } else if v < 0x4000 {
            2int
        } else if v < 0x200000 {
            3int
        } else if v < 0x10000000 {
            4int
        } else {
            5int
        },
    decreases v,
{
    if v >= 128 {
        assert(varint_enc(v as nat) == seq![(v as nat % 128 + 128) as u8] + varint_enc(
            v as nat / 128,
        ));
        assert(v as nat / 128 == (v / 128) as nat);
        lemma_var_int_enc_len(v / 128);
    }
}

} // verus!

use mcping::errors::EncodingError;
use mcping::varint::{
    read_var_int, read_var_int_long, write_var_int, write_var_long, VarIntDecoder, VarIntStep,
};

fn round_trip_i32(v: i32) {
    let mut buf: Vec<u8> = Vec::new();
    write_var_int(&mut buf, &v);
    let mut idx: usize = 0;
    let got = read_var_int(buf.as_slice(), &mut idx);
    assert_eq!(got, Ok(v));
    assert_eq!(idx, buf.len());
}

fn round_trip_i64(v: i64) {
    let mut buf: Vec<u8> = Vec::new();
    write_var_long(&mut buf, v);
    let mut idx: usize = 0;
    let got = read_var_int_long(buf.as_slice(), &mut idx);
    assert_eq!(got, Ok(v));
    assert_eq!(idx, buf.len());
}

#[test]
fn var_int_round_trip_boundaries() {
    for v in [0i32, -1, i32::MIN, i32::MAX, 1, 127, 128, 255, 770, 16383, 16384, 25565] {
        round_trip_i32(v);
    }
}

#[test]
fn var_long_round_trip_boundaries() {
    for v in [0i64, -1, i64::MIN, i64::MAX, 1, 127, 128, 2147483647, -2147483648] {
        round_trip_i64(v);
    }
}

#[test]
fn var_int_encoding_lengths() {
    let cases: [(i32, usize); 8] = [
        (0, 1),
        (1, 1),
        (127, 1),
        (128, 2),
        (16383, 2),
        (16384, 3),
        (-1, 5),
        (i32::MIN, 5),
    ];
    for (v, expected_len) in cases {
        let mut buf: Vec<u8> = Vec::new();
        write_var_int(&mut buf, &v);
        assert_eq!(buf.len(), expected_len, "length of encoding of {}", v);
    }
}

#[test]
fn var_int_known_bytes() {
    let mut buf: Vec<u8> = Vec::new();
    write_var_int(&mut buf, &25565);
    assert_eq!(buf, vec![0xdd, 0xc7, 0x01]);

    let mut buf2: Vec<u8> = Vec::new();
    write_var_int(&mut buf2, &770);
    assert_eq!(buf2, vec![0x82, 0x06]);

    let mut buf3: Vec<u8> = Vec::new();
    write_var_int(&mut buf3, &-1);
    assert_eq!(buf3, vec![0xff, 0xff, 0xff, 0xff, 0x0f]);
}

#[test]
fn var_int_too_long_is_an_error() {
    let data: Vec<u8> = vec![0x80, 0x80, 0x80, 0x80, 0x80, 0x01];
    let mut idx: usize = 0;
    assert_eq!(
        read_var_int(data.as_slice(), &mut idx),
        Err(EncodingError::VarIntTooLong)
    );
    assert_eq!(idx, 0, "the cursor stays put on an error");
}

#[test]
fn var_int_truncated_is_eof() {
    let data: Vec<u8> = vec![0x80, 0x80];
    let mut idx: usize = 0;
    assert_eq!(
        read_var_int(data.as_slice(), &mut idx),
        Err(EncodingError::UnexpectedEof)
    );
    assert_eq!(idx, 0);

    let empty: Vec<u8> = Vec::new();
    let mut idx2: usize = 0;
    assert_eq!(
        read_var_int(empty.as_slice(), &mut idx2),
        Err(EncodingError::UnexpectedEof)
    );
}

#[test]
fn var_int_reads_at_cursor() {
    let data: Vec<u8> = vec![0x7f, 0x82, 0x06, 0x00];
    let mut idx: usize = 1;
    assert_eq!(read_var_int(data.as_slice(), &mut idx), Ok(770));
    assert_eq!(idx, 3);
    assert_eq!(read_var_int(data.as_slice(), &mut idx), Ok(0));
    assert_eq!(idx, 4);
}

#[test]
fn var_long_ten_byte_ceiling() {
    let data: Vec<u8> = vec![0x80; 10];
    let mut idx: usize = 0;
    assert_eq!(
        read_var_int_long(data.as_slice(), &mut idx),
        Err(EncodingError::VarIntTooLong)
    );
}

#[test]
fn incremental_decoder_finds_value() {
    let mut dec = VarIntDecoder::new();
    assert!(matches!(dec.feed(0x82), VarIntStep::More));
    match dec.feed(0x06) {
        VarIntStep::Done(v) => assert_eq!(v, 770),
        _ => panic!("expected a completed frame"),
    }
}

#[test]
fn incremental_decoder_rejects_long_frame() {
    let mut dec = VarIntDecoder::new();
    for _ in 0..4 {
        assert!(matches!(dec.feed(0x80), VarIntStep::More));
    }
    assert!(matches!(dec.feed(0x80), VarIntStep::TooLong));
}

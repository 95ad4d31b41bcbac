use mcping::errors::EncodingError;
use mcping::strings::{read_string, write_string};

#[test]
fn string_round_trip_ascii() {
    let mut buf: Vec<u8> = Vec::new();
    write_string(&mut buf, "hello world").unwrap();
    let mut idx: usize = 0;
    let got = read_string(buf.as_slice(), &mut idx).unwrap();
    assert_eq!(got, "hello world");
    assert_eq!(idx, buf.len());
}

#[test]
fn string_round_trip_empty() {
    let mut buf: Vec<u8> = Vec::new();
    write_string(&mut buf, "").unwrap();
    assert_eq!(buf, vec![0]);
    let mut idx: usize = 0;
    assert_eq!(read_string(buf.as_slice(), &mut idx).unwrap(), "");
}

#[test]
fn string_too_long_is_an_error_not_a_crash() {
    let long: String = "a".repeat(32768);
    let mut buf: Vec<u8> = Vec::new();
    assert_eq!(
        write_string(&mut buf, long.as_str()),
        Err(EncodingError::StringTooLong)
    );
    assert!(buf.is_empty(), "a rejected string leaves the buffer untouched");
}

#[test]
fn string_at_the_ceiling_is_accepted() {
    let long: String = "a".repeat(32767);
    let mut buf: Vec<u8> = Vec::new();
    write_string(&mut buf, long.as_str()).unwrap();
    let mut idx: usize = 0;
    assert_eq!(read_string(buf.as_slice(), &mut idx).unwrap(), long);
}

#[test]
fn string_length_counts_utf16_units() {
    // One character outside the Basic Multilingual Plane: two UTF-16
    // units, four UTF-8 bytes.
    let mut buf: Vec<u8> = Vec::new();
    write_string(&mut buf, "\u{1F600}").unwrap();
    assert_eq!(buf[0], 2, "the prefix counts UTF-16 units");
    assert_eq!(buf.len(), 5, "the prefix is followed by the UTF-8 bytes");
}

#[test]
fn read_string_truncated_buffer_is_eof() {
    // Declared length 5, only two bytes follow.
    let data: Vec<u8> = vec![5, b'a', b'b'];
    let mut idx: usize = 0;
    assert_eq!(
        read_string(data.as_slice(), &mut idx),
        Err(EncodingError::UnexpectedEof)
    );
    assert_eq!(idx, 0, "the cursor stays put on an error");
}

#[test]
fn read_string_negative_length_is_eof() {
    // The VarInt -1, then nothing.
    let data: Vec<u8> = vec![0xff, 0xff, 0xff, 0xff, 0x0f];
    let mut idx: usize = 0;
    assert_eq!(
        read_string(data.as_slice(), &mut idx),
        Err(EncodingError::UnexpectedEof)
    );
}

#[test]
fn read_string_invalid_utf8_is_rejected() {
    let data: Vec<u8> = vec![2, 0xff, 0xfe];
    let mut idx: usize = 0;
    assert_eq!(
        read_string(data.as_slice(), &mut idx),
        Err(EncodingError::InvalidEncoding)
    );
}

#[test]
fn read_string_leaves_trailing_bytes() {
    let mut buf: Vec<u8> = Vec::new();
    write_string(&mut buf, "ab").unwrap();
    buf.push(0x99);
    let mut idx: usize = 0;
    assert_eq!(read_string(buf.as_slice(), &mut idx).unwrap(), "ab");
    assert_eq!(idx, buf.len() - 1);
}

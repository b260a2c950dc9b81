use mycraft::reader::{McBytesErr, McBytesReader};

#[test]
fn unsigned_short_is_big_endian() {
    let mut r = McBytesReader::from_vec(vec![0x63, 0xdd, 0x01]);
    assert_eq!(r.read_unsigned_short(), Ok(25565));
    assert_eq!(r.read_unsigned_short(), Err(McBytesErr::InsufficientBytes));
    assert_eq!(r.read_one_byte(), Ok(1));
    assert_eq!(r.read_one_byte(), Err(McBytesErr::InsufficientBytes));
}

#[test]
fn read_string_and_bytes() {
    let mut data = vec![5u8];
    data.extend_from_slice(b"Alice");
    data.extend_from_slice(&[1, 2, 3]);
    let mut r = McBytesReader::from_vec(data);
    assert_eq!(r.read_string().unwrap(), "Alice");
    assert_eq!(r.read_bytes(-4), Ok(vec![]));
    assert_eq!(r.read_bytes(4), Err(McBytesErr::InsufficientBytes));
    assert_eq!(r.read_bytes(3), Ok(vec![1, 2, 3]));
}

#[test]
fn read_string_replaces_invalid_utf8() {
    let mut r = McBytesReader::from_vec(vec![3, b'a', 0xff, b'b']);
    assert_eq!(r.read_string().unwrap(), "a\u{FFFD}b");
}

#[test]
fn read_string_past_end_fails() {
    let mut r = McBytesReader::from_vec(vec![4, b'a']);
    assert_eq!(r.read_string(), Err(McBytesErr::InsufficientBytes));
}

#[test]
fn read_u64_big_endian() {
    let mut r = McBytesReader::from_vec(vec![0x40, 0x50, 0, 0, 0, 0, 0, 1]);
    assert_eq!(r.read_u64(), Ok(0x4050_0000_0000_0001));
    assert_eq!(r.read_u64(), Err(McBytesErr::InsufficientBytes));
}

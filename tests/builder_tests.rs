use mycraft::builder::PacketBuilder;

#[test]
fn fixed_width_fields_are_big_endian() {
    let mut b = PacketBuilder::new();
    b.push_int(0x01020304);
    b.push_short(-2);
    b.push_unsigned_char(0xabcd);
    b.push_long(-1);
    b.push_bool(true);
    b.push_bool(false);
    b.push_byte(9);
    assert_eq!(
        b.into_bytes(),
        vec![1, 2, 3, 4, 0xff, 0xfe, 0xab, 0xcd, 0xff, 0xff, 0xff, 0xff, 0xff, 0xff, 0xff, 0xff, 1, 0, 9]
    );
}

#[test]
fn sequences_and_strings() {
    let mut b = PacketBuilder::new();
    b.push_vec_u8(&[7, 8]);
    b.push_vec_u64(&[0x0102030405060708]);
    b.push_vec_i32(&[-1, 21]);
    b.push_string("hé");
    assert_eq!(
        b.into_bytes(),
        vec![7, 8, 1, 2, 3, 4, 5, 6, 7, 8, 0xff, 0xff, 0xff, 0xff, 0, 0, 0, 21, 3, b'h', 0xc3, 0xa9]
    );
}

#[test]
fn build_prefixes_length() {
    let mut b = PacketBuilder::new();
    b.push_varint(0x21);
    b.push_long(5);
    assert_eq!(b.build(), vec![9, 0x21, 0, 0, 0, 0, 0, 0, 0, 5]);
    assert_eq!(PacketBuilder::new().build(), vec![0]);
    let mut big = PacketBuilder::new();
    big.push_vec_u8(&[0u8; 300]);
    let out = big.build();
    assert_eq!(&out[..2], &[0xac, 0x02]);
    assert_eq!(out.len(), 302);
}

fn unpack(p: u64) -> (i64, i64, i64) {
    let sx = |f: u64, w: u32| -> i64 {
        let f = f as i64;
        if f >= 1 << (w - 1) { f - (1 << w) } else { f }
    };
    (sx(p >> 38, 26), sx(p & 0xfff, 12), sx((p >> 12) & 0x3ff_ffff, 26))
}

#[test]
fn position_packs_and_unpacks() {
    for (x, y, z) in [(0i64, 0i64, 0i64), (18357644, 831, -20882616), (-1, -1, -1), (-33554432, 2047, 33554431)] {
        let mut b = PacketBuilder::new();
        b.push_position(x, y, z);
        let bytes = b.into_bytes();
        assert_eq!(bytes.len(), 8);
        let mut word = [0u8; 8];
        word.copy_from_slice(&bytes);
        assert_eq!(unpack(u64::from_be_bytes(word)), (x, y, z));
    }
    let mut b = PacketBuilder::new();
    b.push_position(18357644, 831, -20882616);
    assert_eq!(b.into_bytes(), 0x4607632c15b4833fu64.to_be_bytes().to_vec());
}

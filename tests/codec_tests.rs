use mycraft::builder::PacketBuilder;
use mycraft::codec::{get_packet_length, DecodeStatus, McCodec};
use mycraft::reader::{McBytesErr, McBytesReader};
use mycraft::varint::{decode_varint, write_varint};

fn varint_of(n: i32) -> Vec<u8> {
    let mut b = PacketBuilder::new();
    b.push_varint(n);
    b.into_bytes()
}

#[test]
fn varint_round_trip_values() {
    for v in [0i32, 1, 127, 128, 255, 300, 25565, 2147483647, -1, i32::MIN] {
        let bytes = varint_of(v);
        assert!(bytes.len() <= 5);
        let mut r = McBytesReader::from_vec(bytes);
        assert_eq!(r.read_varint().unwrap(), v);
        assert!(r.read_one_byte().is_err());
    }
}

#[test]
fn varint_exact_bytes() {
    assert_eq!(varint_of(0), vec![0x00]);
    assert_eq!(varint_of(127), vec![0x7f]);
    assert_eq!(varint_of(128), vec![0x80, 0x01]);
    assert_eq!(varint_of(300), vec![0xac, 0x02]);
    assert_eq!(varint_of(2147483647), vec![0xff, 0xff, 0xff, 0xff, 0x07]);
    assert_eq!(varint_of(-1), vec![0xff, 0xff, 0xff, 0xff, 0x0f]);
}

#[test]
fn varint_sixth_continuation_byte_is_too_big() {
    let buf = [0x80u8, 0x80, 0x80, 0x80, 0x80, 0x01];
    assert_eq!(decode_varint(&buf), Err(McBytesErr::VarintTooBig));
    let mut r = McBytesReader::from_vec(buf.to_vec());
    assert_eq!(r.read_varint(), Err(McBytesErr::VarintTooBig));
}

#[test]
fn varint_cut_short_needs_more_bytes() {
    assert_eq!(decode_varint(&[0x80, 0x80]), Err(McBytesErr::InsufficientBytes));
    assert_eq!(decode_varint(&[]), Err(McBytesErr::InsufficientBytes));
    assert_eq!(decode_varint(&[0xac, 0x02, 0x99]), Ok((300, 2)));
}

#[test]
fn write_varint_of_wide_value() {
    let mut out = vec![9u8];
    write_varint(&mut out, 1 << 35);
    assert_eq!(out, vec![9, 0x80, 0x80, 0x80, 0x80, 0x80, 0x01]);
}

#[test]
fn packet_length_header() {
    assert_eq!(get_packet_length(&[0xac, 0x02, 1, 2]), Ok((2, 300)));
    assert_eq!(get_packet_length(&[0x80]), Err(McBytesErr::InsufficientBytes));
}

#[test]
fn frame_partial_read_then_complete() {
    let mut codec = McCodec;
    let mut buf = vec![0xac, 0x02];
    buf.extend(std::iter::repeat(7u8).take(299));
    let (used, status) = codec.decode(&buf);
    assert_eq!(used, 0);
    assert!(matches!(status, DecodeStatus::UnexpectedEnd));
    buf.push(7);
    buf.extend([1u8, 2, 3]);
    let (used, status) = codec.decode(&buf);
    assert_eq!(used, 302);
    match status {
        DecodeStatus::Frame(p) => {
            assert_eq!(p.len(), 300);
            assert!(p.iter().all(|b| *b == 7));
        }
        _ => panic!("expected a frame"),
    }
}

#[test]
fn frame_header_cut_short_and_malformed() {
    let mut codec = McCodec;
    let (used, status) = codec.decode(&[0x80]);
    assert_eq!(used, 0);
    assert!(matches!(status, DecodeStatus::UnexpectedEnd));
    let (used, status) = codec.decode(&[0xff, 0xff, 0xff, 0xff, 0xff, 0xff]);
    assert_eq!(used, 0);
    assert!(matches!(status, DecodeStatus::Error(McBytesErr::VarintTooBig)));
    let (used, status) = codec.decode(&[0x00, 0x05]);
    assert_eq!(used, 1);
    assert!(matches!(status, DecodeStatus::Frame(ref p) if p.is_empty()));
}

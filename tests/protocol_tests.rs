use mycraft::builder::PacketBuilder;
use mycraft::chunk::{ChunkColumn, ChunkPacket};
use mycraft::protocol::{login_packets, player_position_and_look, Client, ProtocolState, Reply};
use mycraft::reader::{McBytesErr, McBytesReader};

fn handshake_frame() -> Vec<u8> {
    let mut b = PacketBuilder::new();
    b.push_varint(0x00);
    b.push_varint(754);
    b.push_string("localhost");
    b.push_unsigned_char(25565);
    b.push_varint(2);
    b.into_bytes()
}

fn login_frame(name: &str) -> Vec<u8> {
    let mut b = PacketBuilder::new();
    b.push_varint(0x00);
    b.push_string(name);
    b.into_bytes()
}

#[test]
fn handshake_then_login_reaches_play() {
    let mut c = Client::new();
    assert_eq!(c.state(), ProtocolState::Handshaking);
    match c.dispatch(handshake_frame()) {
        Ok(Reply::Handshake { protocol_version, server_address, server_port, next_state }) => {
            assert_eq!(protocol_version, 754);
            assert_eq!(server_address, "localhost");
            assert_eq!(server_port, 25565);
            assert_eq!(next_state, 2);
        }
        _ => panic!("expected a handshake"),
    }
    assert_eq!(c.state(), ProtocolState::Login);
    match c.dispatch(login_frame("Alice")) {
        Ok(Reply::Login { name, packets }) => {
            assert_eq!(name, "Alice");
            assert_eq!(packets.len(), 9);
            let first = &packets[0];
            let mut r = McBytesReader::from_vec(first.clone());
            assert_eq!(r.read_varint(), Ok(first.len() as i32 - 1));
            assert_eq!(r.read_varint(), Ok(0x02));
            assert_eq!(r.read_string().unwrap(), "94ec47eb-5961-498b-be0d-25e1f9e4616b");
            assert_eq!(r.read_string().unwrap(), "Alice");
            let mut r = McBytesReader::from_vec(packets[1].clone());
            r.read_varint().unwrap();
            assert_eq!(r.read_varint(), Ok(0x26));
            let ids: Vec<u8> = packets.iter().map(|p| {
                let mut r = McBytesReader::from_vec(p.clone());
                r.read_varint().unwrap();
                r.read_varint().unwrap() as u8
            }).collect();
            assert_eq!(ids, vec![0x02, 0x26, 0x15, 0x4e, 0x22, 0x22, 0x22, 0x22, 0x25]);
        }
        _ => panic!("expected a login"),
    }
    assert_eq!(c.state(), ProtocolState::Play);
}

#[test]
fn unknown_ids_are_ignored() {
    let mut c = Client::new();
    assert!(matches!(c.dispatch(vec![0x05, 1, 2]), Ok(Reply::Ignored(5))));
    assert_eq!(c.state(), ProtocolState::Handshaking);
    c.dispatch(handshake_frame()).unwrap();
    assert!(matches!(c.dispatch(vec![0x03]), Ok(Reply::Ignored(3))));
    assert_eq!(c.state(), ProtocolState::Login);
    c.dispatch(login_frame("Bob")).unwrap();
    assert!(matches!(c.dispatch(vec![0x0f]), Ok(Reply::Ignored(0x0f))));
    assert_eq!(c.state(), ProtocolState::Play);
}

#[test]
fn malformed_frames_fail_without_state_change() {
    let mut c = Client::new();
    assert_eq!(c.dispatch(vec![]).err(), Some(McBytesErr::InsufficientBytes));
    assert_eq!(c.dispatch(vec![0x00, 0xf2]).err(), Some(McBytesErr::InsufficientBytes));
    assert_eq!(c.state(), ProtocolState::Handshaking);
}

#[test]
fn play_packets() {
    let mut c = Client::new();
    c.dispatch(handshake_frame()).unwrap();
    c.dispatch(login_frame("Carol")).unwrap();
    assert!(matches!(c.dispatch(vec![0x00, 0x07]), Ok(Reply::TeleportConfirm(7))));
    let mut b = PacketBuilder::new();
    b.push_varint(0x11);
    b.push_long(1);
    b.push_long(2);
    b.push_long(3);
    b.push_byte(1);
    assert!(matches!(
        c.dispatch(b.into_bytes()),
        Ok(Reply::PlayerPosition { x: 1, y: 2, z: 3, on_ground: 1 })
    ));
    assert!(matches!(c.dispatch(vec![0x2a, 0, 0, 0, 0, 0, 0, 0, 0]), Ok(Reply::KeepAlive)));
}

#[test]
fn keep_alive_counts_ticks() {
    let mut c = Client::new();
    assert!(c.keep_alive().is_empty());
    c.dispatch(handshake_frame()).unwrap();
    c.dispatch(login_frame("Dan")).unwrap();
    let p = c.keep_alive();
    assert_eq!(p.len(), 2);
    assert_eq!(p[0], vec![9, 0x21, 0, 0, 0, 0, 0, 0, 0, 1]);
    assert_eq!(p[1], vec![17, 0x4f, 0, 0, 0, 0, 0, 0, 0, 1, 0, 0, 0, 0, 0, 0, 0x17, 0x70]);
    let p = c.keep_alive();
    assert_eq!(p[0][9], 2);
    assert_eq!(p[1][9], 2);
}

#[test]
fn login_success_carries_player_name() {
    let mut c = Client::new();
    c.dispatch(handshake_frame()).unwrap();
    match c.dispatch(vec![0x00, 0x05, b'A', b'l', b'i', b'c', b'e']) {
        Ok(Reply::Login { packets, .. }) => {
            let mut expected = vec![0x2c, 0x02, 0x24];
            expected.extend_from_slice(b"94ec47eb-5961-498b-be0d-25e1f9e4616b");
            expected.push(0x05);
            expected.extend_from_slice(b"Alice");
            assert_eq!(packets[0], expected);
            for (i, l) in [(0, 0), (1, 0), (0, 1), (1, 1)].iter().enumerate() {
                assert_eq!(packets[4 + i], ChunkPacket::new(ChunkColumn::new(*l)).build());
            }
        }
        _ => panic!("expected a login"),
    }
}

#[test]
fn position_and_look_packet() {
    let p = player_position_and_look(237846);
    assert_eq!(p[0] as usize, p.len() - 1);
    assert_eq!(p[1], 0x36);
    assert_eq!(&p[10..18], &64.0f64.to_be_bytes());
    assert_eq!(*p.last().unwrap(), 1);
}

#[test]
fn light_packet_is_fully_lit() {
    let packets = login_packets("x");
    let light = &packets[8];
    assert!(light.iter().filter(|b| **b == 0xff).count() >= 36 * 2048);
}

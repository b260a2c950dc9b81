//! The per-connection protocol state machine: each frame read in a state
//! gives the next state and the packets to send back.

use vstd::prelude::*;
use vstd::utf8::encode_utf8;
use crate::builder::{
    PacketBuilder, be_u16, be_u32, be_u64, framed, position_bits, string_field, varint_i32,
};
use crate::chunk::{ChunkColumn, ChunkPacket, chunk_body, grass_section_blocks};
use crate::reader::{
    McBytesErr, McBytesReader, spec_read_byte, spec_read_string, spec_read_u64,
    spec_read_unsigned_short, spec_read_varint,
};
use crate::varint::varint_bytes;

verus! {

/// The protocol states of a connection.
#[derive(Debug, Clone, Copy, PartialEq, Eq, Structural)]
pub enum ProtocolState {
    Handshaking,
    Status,
    Login,
    Play,
}

/// What a frame asked for, with the packets to send where there are any.
pub enum Reply {
    /// A handshake was read; the connection moved to `Login`.
    Handshake { protocol_version: i32, server_address: String, server_port: u16, next_state: i32 },
    /// A player started to log in; the connection moved to `Play`. The packets
    /// are sent in order, then, after a short delay, the player position.
    Login { name: String, packets: Vec<Vec<u8>> },
    /// A teleport was confirmed.
    TeleportConfirm(i32),
    /// The player's position (the bit patterns of three doubles) and its
    /// on-ground flag.
    PlayerPosition { x: u64, y: u64, z: u64, on_ground: u8 },
    /// A keep-alive answer came; after a short delay `Client::keep_alive`
    /// gives the packets to send.
    KeepAlive,
    /// A packet id that the state does not handle; it is skipped.
    Ignored(i32),
}

/// The handshake fields at the start of `s`: protocol version, server
/// address, server port and requested next state.
pub open spec fn parse_handshake(s: Seq<u8>) -> Result<(i32, Seq<char>, u16, i32), McBytesErr> {
    match spec_read_varint(s) {
        Ok((version, r1)) => match spec_read_string(r1) {
            Ok((address, r2)) => match spec_read_unsigned_short(r2) {
                Ok((port, r3)) => match spec_read_varint(r3) {
                    Ok((next, _)) => Ok((version, address, port, next)),
                    Err(e) => Err(e),
                },
                Err(e) => Err(e),
            },
            Err(e) => Err(e),
        },
        Err(e) => Err(e),
    }
}

/// The position fields at the start of `s`: three doubles as bit patterns
/// and the on-ground byte.
pub open spec fn parse_position(s: Seq<u8>) -> Result<(u64, u64, u64, u8), McBytesErr> {
    match spec_read_u64(s) {
        Ok((x, r1)) => match spec_read_u64(r1) {
            Ok((y, r2)) => match spec_read_u64(r2) {
                Ok((z, r3)) => match spec_read_byte(r3) {
                    Ok((g, _)) => Ok((x, y, z, g)),
                    Err(e) => Err(e),
                },
                Err(e) => Err(e),
            },
            Err(e) => Err(e),
        },
        Err(e) => Err(e),
    }
}

/// The id that login success gives every player.
pub open spec fn player_uuid() -> Seq<u8> {
    encode_utf8("94ec47eb-5961-498b-be0d-25e1f9e4616b"@)
}

/// The login-success packet for a player named `name`.
pub open spec fn login_success_packet(name: Seq<char>) -> Seq<u8> {
    framed(varint_i32(0x02) + string_field(player_uuid()) + string_field(encode_utf8(name)))
}

/// The join-game packet.
pub open spec fn join_game_packet() -> Seq<u8> {
    framed(
        varint_i32(0x26) + be_u32(100) + seq![0u8] + be_u32(0) + be_u64(1) + seq![1u8]
            + string_field(encode_utf8("default"@)) + varint_i32(10) + seq![1u8] + seq![0u8],
    )
}

/// The inventory packet.
pub open spec fn inventory_packet() -> Seq<u8> {
    framed(varint_i32(0x15) + seq![1u8] + be_u16(0))
}

/// The spawn-position packet, at the origin.
pub open spec fn spawn_position_packet() -> Seq<u8> {
    framed(varint_i32(0x4e) + be_u64(position_bits(0, 0, 0)))
}

/// `n` light arrays of 2048 bytes, all fully lit, each after its length.
pub open spec fn light_arrays(n: nat) -> Seq<u8>
    decreases n,
{
    if n == 0 {
        Seq::empty()
    } else {
        light_arrays((n - 1) as nat) + varint_i32(2048) + Seq::new(2048, |i: int| 0xffu8)
    }
}

/// The light packet: every section of the column fully lit.
pub open spec fn light_packet() -> Seq<u8> {
    framed(
        varint_i32(0x25) + varint_i32(1) + varint_i32(1) + varint_i32(0x3ffff) + varint_i32(
            0x3ffff,
        ) + varint_i32(0x3ffff) + varint_i32(0x3ffff) + light_arrays(36),
    )
}

/// `bytes` is the chunk-data packet of a column at `(x, z)` holding one grass
/// section, made with the default heights and biomes.
pub open spec fn is_grass_chunk_packet(bytes: Seq<u8>, x: i32, z: i32) -> bool {
    exists|p: ChunkPacket|
        {
            &&& p.is_default_for(p.column())
            &&& p.column().wf()
            &&& p.column().location() == (x, z)
            &&& p.column().sections().len() == 1
            &&& p.column().sections()[0].blocks() == grass_section_blocks()
            &&& bytes == framed(chunk_body(p))
        }
}

/// The packets that answer a login start from `name`, in order.
pub open spec fn login_packets_ok(packets: Seq<Vec<u8>>, name: Seq<char>) -> bool {
    &&& packets.len() == 9
    &&& packets[0]@ == login_success_packet(name)
    &&& packets[1]@ == join_game_packet()
    &&& packets[2]@ == inventory_packet()
    &&& packets[3]@ == spawn_position_packet()
    &&& is_grass_chunk_packet(packets[4]@, 0, 0)
    &&& is_grass_chunk_packet(packets[5]@, 1, 0)
    &&& is_grass_chunk_packet(packets[6]@, 0, 1)
    &&& is_grass_chunk_packet(packets[7]@, 1, 1)
    &&& packets[8]@ == light_packet()
}

/// The player-position-and-look packet: at `(0, 64, 0)`, looking straight
/// ahead, with a teleport id taken from the clock.
pub open spec fn position_and_look_packet(now_secs: u64) -> Seq<u8> {
    framed(
        varint_i32(0x36) + be_u64(0) + be_u64(0x4050_0000_0000_0000) + be_u64(0) + be_u32(0)
            + be_u32(0) + seq![0u8] + varint_i32((now_secs % 237845) as i32),
    )
}

/// The keep-alive challenge for tick `tick`: the tick is its id.
pub open spec fn keep_alive_packet(tick: u64) -> Seq<u8> {
    framed(varint_i32(0x21) + be_u64(tick))
}

/// The time-update packet for tick `tick`, with a fixed time of day.
pub open spec fn time_update_packet(tick: u64) -> Seq<u8> {
    framed(varint_i32(0x4f) + be_u64(tick) + be_u64(6000))
}

/// One connection: its protocol state and its own tick counter.
pub struct Client {
    state: ProtocolState,
    ticks: u64,
}

/// What dispatching a frame whose packet id is `id`, followed by `body`, in
/// state `state` gives: the result `r` and the next state `next`.
pub open spec fn dispatch_ok(
    state: ProtocolState,
    id: i32,
    body: Seq<u8>,
    r: Result<Reply, McBytesErr>,
    next: ProtocolState,
) -> bool {
    match state {
        ProtocolState::Handshaking => if id == 0 {
            match parse_handshake(body) {
                Ok((v, a, p, n)) => next == ProtocolState::Login && (r matches Ok(
                    Reply::Handshake { protocol_version, server_address, server_port, next_state },
                ) && protocol_version == v && server_address@ == a && server_port == p
                    && next_state == n),
                Err(e) => next == state && (r matches Err(x) && x == e),
            }
        } else {
            next == state && (r matches Ok(Reply::Ignored(i)) && i == id)
        },
        ProtocolState::Login => if id == 0 {
            match spec_read_string(body) {
                Ok((name, _)) => next == ProtocolState::Play && (r matches Ok(
                    Reply::Login { name: n, packets },
                ) && n@ == name && login_packets_ok(packets@, name)),
                Err(e) => next == state && (r matches Err(x) && x == e),
            }
        } else {
            next == state && (r matches Ok(Reply::Ignored(i)) && i == id)
        },
        ProtocolState::Play => next == state && if id == 0 {
            match spec_read_varint(body) {
                Ok((t, _)) => r matches Ok(Reply::TeleportConfirm(c)) && c == t,
                Err(e) => r matches Err(x) && x == e,
            }
        } else if id == 0x11 {
            match parse_position(body) {
                Ok((x, y, z, g)) => r matches Ok(
                    Reply::PlayerPosition { x: px, y: py, z: pz, on_ground },
                ) && px == x && py == y && pz == z && on_ground == g,
                Err(e) => r matches Err(x) && x == e,
            }
        } else if id == 0x2a {
            r matches Ok(Reply::KeepAlive)
        } else {
            r matches Ok(Reply::Ignored(i)) && i == id
        },
        ProtocolState::Status => next == state && (r matches Ok(Reply::Ignored(i)) && i == id),
    }
}

/// Reads the handshake fields.
pub fn handshake(reader: &mut McBytesReader) -> (r: Result<(i32, String, u16, i32), McBytesErr>)
    ensures
        match parse_handshake(old(reader)@) {
            Ok((v, a, p, n)) => r matches Ok((rv, ra, rp, rn)) && rv == v && ra@ == a && rp == p
                && rn == n,
            Err(e) => r matches Err(x) && x == e,
        },
{
    let protocol_version = reader.read_varint()?;
    let server_address = reader.read_string()?;
    let server_port = reader.read_unsigned_short()?;
    let next_state = reader.read_varint()?;
    Ok((protocol_version, server_address, server_port, next_state))
}

/// The chunk-data packet of a grass column at `(x, z)`.
fn grass_chunk_packet(x: i32, z: i32) -> (r: Vec<u8>)
    ensures
        is_grass_chunk_packet(r@, x, z),
{
    let column = ChunkColumn::new((x, z));
    let packet = ChunkPacket::new(column);
    let ghost p = packet;
    let r = packet.build();
    assert(p.is_default_for(p.column()) && p.column().wf() && p.column().location() == (x, z)
        && p.column().sections().len() == 1 && p.column().sections()[0].blocks()
        == grass_section_blocks() && r@ == framed(chunk_body(p)));
    r
}

/// The light packet.
fn build_light_packet() -> (r: Vec<u8>)
    ensures
        r@ == light_packet(),
{
    let mut full: Vec<u8> = Vec::new();
    while full.len() < 2048
        invariant
            full@.len() <= 2048,
            forall|i: int| 0 <= i < full@.len() ==> full@[i] == 0xff,
        decreases 2048 - full@.len(),
    {
        full.push(0xff);
    }
    assert(full@ =~= Seq::new(2048, |i: int| 0xffu8));
    let mut builder = PacketBuilder::new();
    builder.push_varint(0x25);
    builder.push_varint(1);
    builder.push_varint(1);
    builder.push_varint(0x3ffff);
    builder.push_varint(0x3ffff);
    builder.push_varint(0x3ffff);
    builder.push_varint(0x3ffff);
    let ghost head = builder@;
    let mut n: usize = 0;
    while n < 36
        invariant
            n <= 36,
            full@ == Seq::new(2048, |i: int| 0xffu8),
            builder@ == head + light_arrays(n as nat),
        decreases 36 - n,
    {
        builder.push_varint(2048);
        builder.push_vec_u8(full.as_slice());
        n = n + 1;
    }
    let r = builder.build();
    assert(r@ =~= light_packet());
    r
}

/// The packets that answer a login start from a player named `name`.
pub fn login_packets(name: &str) -> (r: Vec<Vec<u8>>)
    ensures
        login_packets_ok(r@, name@),
{
    let mut packets: Vec<Vec<u8>> = Vec::new();

    let mut builder = PacketBuilder::new();
    builder.push_varint(0x02);
    builder.push_string("94ec47eb-5961-498b-be0d-25e1f9e4616b");
    builder.push_string(name);
    let p = builder.build();
    assert(p@ =~= login_success_packet(name@));
    packets.push(p);

    let mut builder = PacketBuilder::new();
    builder.push_varint(0x26);
    builder.push_int(100);
    builder.push_byte(0);
    builder.push_int(0);
    builder.push_long(1);
    builder.push_byte(1);
    builder.push_string("default");
    builder.push_varint(10);
    builder.push_bool(true);
    builder.push_bool(false);
    let p = builder.build();
    assert(p@ =~= join_game_packet());
    packets.push(p);

    let mut builder = PacketBuilder::new();
    builder.push_varint(0x15);
    builder.push_byte(1);
    builder.push_short(0);
    let p = builder.build();
    assert(p@ =~= inventory_packet());
    packets.push(p);

    let mut builder = PacketBuilder::new();
    builder.push_varint(0x4e);
    builder.push_position(0, 0, 0);
    let p = builder.build();
    assert(p@ =~= spawn_position_packet());
    packets.push(p);

    packets.push(grass_chunk_packet(0, 0));
    packets.push(grass_chunk_packet(1, 0));
    packets.push(grass_chunk_packet(0, 1));
    packets.push(grass_chunk_packet(1, 1));
    packets.push(build_light_packet());
    packets
}

/// Reads a login start and gives the player's name and the packets that
/// answer it.
pub fn login_start(reader: &mut McBytesReader) -> (r: Result<(String, Vec<Vec<u8>>), McBytesErr>)
    ensures
        match spec_read_string(old(reader)@) {
            Ok((name, _)) => r matches Ok((n, packets)) && n@ == name && login_packets_ok(
                packets@,
                name,
            ),
            Err(e) => r matches Err(x) && x == e,
        },
{
    let name = reader.read_string()?;
    let packets = login_packets(name.as_str());
    Ok((name, packets))
}

/// The player-position-and-look packet sent after the login packets.
pub fn player_position_and_look(now_secs: u64) -> (r: Vec<u8>)
    ensures
        r@ == position_and_look_packet(now_secs),
{
    let mut builder = PacketBuilder::new();
    builder.push_varint(0x36);
    builder.push_long(0);
    builder.push_long(0x4050_0000_0000_0000);
    builder.push_long(0);
    builder.push_int(0);
    builder.push_int(0);
    builder.push_byte(0);
    builder.push_varint((now_secs % 237845) as i32);
    let r = builder.build();
    assert(r@ =~= position_and_look_packet(now_secs));
    r
}

impl Client {
    /// The protocol state.
    pub closed spec fn state_of(&self) -> ProtocolState {
        self.state
    }

    /// The number of ticks sent on this connection.
    pub closed spec fn ticks_of(&self) -> u64 {
        self.ticks
    }

    /// A fresh connection, handshaking, with no ticks sent.
    pub fn new() -> (r: Client)
        ensures
            r.state_of() == ProtocolState::Handshaking,
            r.ticks_of() == 0,
    {
        Client { state: ProtocolState::Handshaking, ticks: 0 }
    }

    /// The protocol state.
    pub fn state(&self) -> (r: ProtocolState)
        ensures
            r == self.state_of(),
    {
        self.state
    }

    /// Handles one frame: reads its packet id and dispatches on the state.
    pub fn dispatch(&mut self, frame: Vec<u8>) -> (r: Result<Reply, McBytesErr>)
        ensures
            final(self).ticks_of() == old(self).ticks_of(),
            match spec_read_varint(frame@) {
                Err(e) => (r matches Err(x) && x == e) && final(self).state_of() == old(
                    self,
                ).state_of(),
                Ok((id, body)) => dispatch_ok(old(self).state_of(), id, body, r, final(self).state_of()),
            },
    {
        let mut reader = McBytesReader::from_vec(frame);
        let packet_id = reader.read_varint()?;
        match self.state {
            ProtocolState::Handshaking => {
                if packet_id == 0 {
                    let (protocol_version, server_address, server_port, next_state) = handshake(
                        &mut reader,
                    )?;
                    self.state = ProtocolState::Login;
                    Ok(Reply::Handshake { protocol_version, server_address, server_port, next_state })
                } else {
                    Ok(Reply::Ignored(packet_id))
                }
            },
            ProtocolState::Login => {
                if packet_id == 0 {
                    let (name, packets) = login_start(&mut reader)?;
                    self.state = ProtocolState::Play;
                    Ok(Reply::Login { name, packets })
                } else {
                    Ok(Reply::Ignored(packet_id))
                }
            },
            ProtocolState::Play => {
                if packet_id == 0 {
                    let id = reader.read_varint()?;
                    Ok(Reply::TeleportConfirm(id))
                } else if packet_id == 0x11 {
                    let x = reader.read_u64()?;
                    let y = reader.read_u64()?;
                    let z = reader.read_u64()?;
                    let on_ground = reader.read_one_byte()?;
                    Ok(Reply::PlayerPosition { x, y, z, on_ground })
                } else if packet_id == 0x2a {
                    Ok(Reply::KeepAlive)
                } else {
                    Ok(Reply::Ignored(packet_id))
                }
            },
            ProtocolState::Status => Ok(Reply::Ignored(packet_id)),
        }
    }

    /// The packets that follow a keep-alive answer in `Play`: the tick
    /// counter moves on (it stops at its maximum), then a keep-alive challenge
    /// and a time update, both for the new tick. Outside `Play`, none.
    pub fn keep_alive(&mut self) -> (r: Vec<Vec<u8>>)
        ensures
            final(self).state_of() == old(self).state_of(),
            old(self).state_of() == ProtocolState::Play ==> {
                &&& final(self).ticks_of() == if old(self).ticks_of() < u64::MAX {
                    (old(self).ticks_of() + 1) as u64
                } else {
                    old(self).ticks_of()
                }
                &&& r@.len() == 2
                &&& r@[0]@ == keep_alive_packet(final(self).ticks_of())
                &&& r@[1]@ == time_update_packet(final(self).ticks_of())
            },
            old(self).state_of() != ProtocolState::Play ==> r@.len() == 0 && final(self).ticks_of()
                == old(self).ticks_of(),
    {
        let mut packets: Vec<Vec<u8>> = Vec::new();
        if self.state != ProtocolState::Play {
            return packets;
        }
        if self.ticks < u64::MAX {
            self.ticks = self.ticks + 1;
        }
        let t = self.ticks;
        let tick_bits: i64 = #[verifier::truncate] (t as i64);
        assert((tick_bits as u64) == t) by (bit_vector)
            requires
                tick_bits == #[verifier::truncate] (t as i64),
        ;
        let mut builder = PacketBuilder::new();
        builder.push_varint(0x21);
        builder.push_long(tick_bits);
        let p = builder.build();
        assert(p@ =~= keep_alive_packet(t));
        packets.push(p);
        let mut builder = PacketBuilder::new();
        builder.push_varint(0x4f);
        builder.push_long(tick_bits);
        builder.push_long(6000);
        let p = builder.build();
        assert(p@ =~= time_update_packet(t));
        packets.push(p);
        packets
    }
}

impl Default for Client {
    fn default() -> (r: Client)
        ensures
            r.state_of() == ProtocolState::Handshaking,
            r.ticks_of() == 0,
    {
        Self::new()
    }
}

} // verus!

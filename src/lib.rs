//! Wire-protocol engine for a block-game server: VarInt codec, packet framing,
//! typed packet reading and building, bit-packed arrays, chunk encoding and the
//! per-connection protocol state machine.

pub mod varint;
pub mod reader;
pub mod builder;
pub mod codec;
pub mod bitarray;
pub mod chunk;
pub mod protocol;

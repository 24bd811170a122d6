//! Encoding and decoding of Engine.IO packets.
//!
//! A [`packet::Packet`] is a packet type plus an optional payload; on the wire it
//! travels as a text frame or a binary frame, both written as a
//! [`packet::PacketData`]. The codec in [`parser`] turns one into the other.
pub mod packet;
pub mod parser;

mod base64_codec;

use vstd::prelude::*;

verus! {

/// The revision of the Engine.IO protocol that this framing belongs to.
pub const PROTOCOL: u8 = 3;

/// The kind of a packet; each kind has a fixed numeric id from 0 to 6.
#[derive(Clone, Copy, Debug, PartialEq, Eq, Structural, PartialOrd, Ord, Hash)]
pub enum PacketType {
    Open,
    Close,
    Ping,
    Pong,
    Message,
    Upgrade,
    Noop,
}

/// The wire id of a packet type.
pub open spec fn spec_id(t: PacketType) -> u8 {
    match t {
        PacketType::Open => 0,
        PacketType::Close => 1,
        PacketType::Ping => 2,
        PacketType::Pong => 3,
        PacketType::Message => 4,
        PacketType::Upgrade => 5,
        PacketType::Noop => 6,
    }
}

/// The packet type whose wire id is `b`, if there is one.
pub open spec fn type_of_id(b: u8) -> Option<PacketType> {
    if b == 0 {
        Some(PacketType::Open)
    } else if b == 1 {
        Some(PacketType::Close)
    } else if b == 2 {
        Some(PacketType::Ping)
    } else if b == 3 {
        Some(PacketType::Pong)
    } else if b == 4 {
        Some(PacketType::Message)
    } else if b == 5 {
        Some(PacketType::Upgrade)
    } else if b == 6 {
        Some(PacketType::Noop)
    } else {
        None
    }
}

/// The decimal digit that stands for a packet type in a text frame.
pub open spec fn digit_of(t: PacketType) -> char {
    match t {
        PacketType::Open => '0',
        PacketType::Close => '1',
        PacketType::Ping => '2',
        PacketType::Pong => '3',
        PacketType::Message => '4',
        PacketType::Upgrade => '5',
        PacketType::Noop => '6',
    }
}

/// The packet type whose decimal digit is `c`, if there is one.
pub open spec fn type_of_digit(c: char) -> Option<PacketType> {
    if c == '0' {
        Some(PacketType::Open)
    } else if c == '1' {
        Some(PacketType::Close)
    } else if c == '2' {
        Some(PacketType::Ping)
    } else if c == '3' {
        Some(PacketType::Pong)
    } else if c == '4' {
        Some(PacketType::Message)
    } else if c == '5' {
        Some(PacketType::Upgrade)
    } else if c == '6' {
        Some(PacketType::Noop)
    } else {
        None
    }
}

/// The packet type whose ASCII digit is the byte `c`, if there is one.
pub open spec fn type_of_ascii(c: u8) -> Option<PacketType> {
    if 48 <= c <= 54 {
        type_of_id((c - 48) as u8)
    } else {
        None
    }
}

impl PacketType {
    /// The numeric id of this packet type.
    pub fn id(&self) -> (r: u8)
        ensures
            r == spec_id(*self),
            r <= 6,
    {
        match self {
            PacketType::Open => 0,
            PacketType::Close => 1,
            PacketType::Ping => 2,
            PacketType::Pong => 3,
            PacketType::Message => 4,
            PacketType::Upgrade => 5,
            PacketType::Noop => 6,
        }
    }

    /// The packet type with numeric id `b`, or `None` when `b` is above 6.
    pub fn from_raw(b: u8) -> (r: Option<PacketType>)
        ensures
            r == type_of_id(b),
            r is Some <==> b <= 6,
    {
        match b {
            0 => Some(PacketType::Open),
            1 => Some(PacketType::Close),
            2 => Some(PacketType::Ping),
            3 => Some(PacketType::Pong),
            4 => Some(PacketType::Message),
            5 => Some(PacketType::Upgrade),
            6 => Some(PacketType::Noop),
            _ => None,
        }
    }

    /// The packet type whose ASCII digit is `c` (`b'0'` to `b'6'`), or `None`.
    pub fn from_ascii(c: u8) -> (r: Option<PacketType>)
        ensures
            r == type_of_ascii(c),
            r is Some <==> 48 <= c <= 54,
    {
        if 48 <= c && c <= 54 {
            PacketType::from_raw(c - 48)
        } else {
            None
        }
    }
}

/// Every id from 0 to 6 names exactly one packet type, and the type gives its id
/// back; no other byte names a type.
pub proof fn lemma_id_bijection(b: u8, t: PacketType)
    ensures
        b <= 6 ==> type_of_id(b) is Some && spec_id(type_of_id(b)->Some_0) == b,
        b > 6 ==> type_of_id(b) is None,
        type_of_id(spec_id(t)) == Some(t),
        type_of_digit(digit_of(t)) == Some(t),
{
}

/// For an ASCII character, reading it as a digit or reading its byte as an
/// ASCII digit gives the same packet type.
pub proof fn lemma_digit_ascii(c: char)
    requires
        (c as u32) < 128,
    ensures
        type_of_digit(c) == type_of_ascii(c as u32 as u8),
{
}

} // verus!

verus! {

/// A payload, before encoding or on the wire: UTF-8 text or raw bytes.
#[derive(Debug, PartialEq, Eq)]
pub enum PacketData {
    Text(String),
    Bytes(Vec<u8>),
}

/// The mathematical value of a [`PacketData`].
pub enum DataView {
    Text(Seq<char>),
    Bytes(Seq<u8>),
}

impl View for PacketData {
    type V = DataView;

    open spec fn view(&self) -> DataView {
        match self {
            PacketData::Text(s) => DataView::Text(s@),
            PacketData::Bytes(b) => DataView::Bytes(b@),
        }
    }
}

/// A packet: its type and an optional payload.
#[derive(Debug, PartialEq, Eq)]
pub struct Packet {
    pub typ: PacketType,
    pub data: Option<PacketData>,
}

/// The mathematical value of a [`Packet`].
pub struct PacketView {
    pub typ: PacketType,
    pub data: Option<DataView>,
}

impl View for Packet {
    type V = PacketView;

    open spec fn view(&self) -> PacketView {
        PacketView {
            typ: self.typ,
            data: match self.data {
                Some(d) => Some(d@),
                None => None,
            },
        }
    }
}

/// No value held in memory is longer than `isize::MAX` bytes.
pub open spec fn fits_in_memory(d: DataView) -> bool {
    match d {
        DataView::Text(t) => vstd::utf8::encode_utf8(t).len() <= isize::MAX,
        DataView::Bytes(b) => b.len() <= isize::MAX,
    }
}

} // verus!

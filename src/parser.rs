//! The codec between packets and their wire form.
use vstd::prelude::*;
use vstd::slice::{slice_subrange, slice_to_vec};
use vstd::string::{StringExecFns, StringSliceAdditionalSpecFns};
use vstd::utf8::{
    decode_utf8, encode_scalar, encode_utf8, encode_utf8_first_scalar, is_char_boundary,
    pop_first_scalar, valid_utf8,
};
use crate::base64_codec::{self, base64_decoded, base64_of};
use crate::packet::{
    digit_of, fits_in_memory, lemma_digit_ascii, lemma_id_bijection, spec_id, type_of_digit,
    type_of_id, DataView, Packet, PacketData, PacketType, PacketView,
};

verus! {

broadcast use vstd::utf8::group_utf8_lib;

/// Why a wire frame could not be decoded.
#[derive(Clone, Copy, Debug, PartialEq, Eq, Structural)]
pub enum PacketError {
    /// A text frame with no characters.
    EmptyInput,
    /// A frame that ends before its type marker.
    TooShort,
    /// A type marker that is not one of the ids 0 to 6.
    InvalidPacketType,
    /// A `b`-prefixed text frame whose payload is not valid base64.
    InvalidEncoding,
}

/// The text frame of the binary-over-text fallback: `b`, the type's digit,
/// then the base64 text of the payload.
pub open spec fn fallback_text_of(typ: PacketType, encoded: Seq<char>) -> Seq<char> {
    seq!['b', digit_of(typ)] + encoded
}

/// The wire form of the packet `p`, for a channel that can or cannot carry
/// binary frames.
pub open spec fn encoded(p: PacketView, supports_binary: bool) -> DataView {
    match p.data {
        None => DataView::Text(seq![digit_of(p.typ)]),
        Some(DataView::Text(s)) => DataView::Text(seq![digit_of(p.typ)] + s),
        Some(DataView::Bytes(b)) => {
            if supports_binary {
                DataView::Bytes(seq![spec_id(p.typ)] + b)
            } else {
                DataView::Text(fallback_text_of(p.typ, base64_of(b)))
            }
        },
    }
}

/// The packet that the wire frame `w` stands for, or why it stands for none.
pub open spec fn decoded(w: DataView) -> Result<PacketView, PacketError> {
    match w {
        DataView::Text(t) => {
            if t.len() == 0 {
                Err(PacketError::EmptyInput)
            } else if t[0] == 'b' {
                if t.len() < 2 {
                    Err(PacketError::TooShort)
                } else {
                    match type_of_digit(t[1]) {
                        None => Err(PacketError::InvalidPacketType),
                        Some(typ) => match base64_decoded(t.subrange(2, t.len() as int)) {
                            Some(b) => Ok(PacketView { typ, data: Some(DataView::Bytes(b)) }),
                            None => Err(PacketError::InvalidEncoding),
                        },
                    }
                }
            } else {
                match type_of_digit(t[0]) {
                    None => Err(PacketError::InvalidPacketType),
                    Some(typ) => Ok(
                        PacketView {
                            typ,
                            data: if t.len() == 1 {
                                None
                            } else {
                                Some(DataView::Text(t.drop_first()))
                            },
                        },
                    ),
                }
            }
        },
        DataView::Bytes(b) => {
            if b.len() == 0 {
                Err(PacketError::TooShort)
            } else {
                match type_of_id(b[0]) {
                    None => Err(PacketError::InvalidPacketType),
                    Some(typ) => Ok(PacketView { typ, data: Some(DataView::Bytes(b.drop_first())) }),
                }
            }
        },
    }
}

/// The mathematical value of a decoding result.
pub open spec fn result_view(r: Result<Packet, PacketError>) -> Result<PacketView, PacketError> {
    match r {
        Ok(p) => Ok(p@),
        Err(e) => Err(e),
    }
}

/// A text payload that is empty encodes as no payload at all, so it is the one
/// payload that does not come back from the wire unchanged.
pub open spec fn no_empty_text(p: PacketView) -> bool {
    p.data != Some(DataView::Text(Seq::<char>::empty()))
}

/// Where base64 decoding reads back the bytes that base64 encoding wrote,
/// decoding the wire form of a packet without an empty text payload gives the
/// packet back.
pub proof fn lemma_decode_encode(p: PacketView, supports_binary: bool)
    requires
        no_empty_text(p),
    ensures
        (match p.data {
            Some(DataView::Bytes(b)) => !supports_binary ==> base64_decoded(base64_of(b)) == Some(b),
            _ => true,
        }) ==> decoded(encoded(p, supports_binary)) == Ok::<PacketView, PacketError>(p),
{
    lemma_id_bijection(0, p.typ);
    match p.data {
        None => {
            let t = seq![digit_of(p.typ)];
            assert(t.len() == 1 && t[0] == digit_of(p.typ));
        },
        Some(DataView::Text(s)) => {
            let t = seq![digit_of(p.typ)] + s;
            assert(t.drop_first() =~= s);
            assert(t[0] == digit_of(p.typ));
            assert(s.len() > 0) by {
                if s.len() == 0 {
                    assert(s =~= Seq::<char>::empty());
                }
            }
            assert(decoded(DataView::Text(t)) == Ok::<PacketView, PacketError>(p));
        },
        Some(DataView::Bytes(b)) => {
            if supports_binary {
                let w = seq![spec_id(p.typ)] + b;
                assert(w.drop_first() =~= b);
                assert(w[0] == spec_id(p.typ));
                assert(decoded(DataView::Bytes(w)) == Ok::<PacketView, PacketError>(p));
            } else {
                let t = fallback_text_of(p.typ, base64_of(b));
                assert(t.subrange(2, t.len() as int) =~= base64_of(b));
                assert(t[0] == 'b' && t[1] == digit_of(p.typ));
                if base64_decoded(base64_of(b)) == Some(b) {
                    assert(decoded(DataView::Text(t)) == Ok::<PacketView, PacketError>(p));
                }
            }
        },
    }
}

/// A non-empty text's UTF-8 encoding starts with the encoding of its first
/// character, and its first byte is below 128 exactly when that character is
/// ASCII, in which case the character is encoded as that one byte.
proof fn lemma_ascii_first_byte(t: Seq<char>)
    requires
        t.len() > 0,
    ensures
        encode_utf8(t) == encode_scalar(t[0] as u32) + encode_utf8(t.drop_first()),
        encode_utf8(t).len() > 0,
        encode_utf8(t)[0] < 128 <==> (t[0] as u32) < 128,
        (t[0] as u32) < 128 ==> encode_scalar(t[0] as u32) == seq![t[0] as u32 as u8],
{
    let c = t[0] as u32;
    vstd::utf8::char_is_scalar(t[0]);
    let e = encode_scalar(c);
    assert(encode_utf8(t)[0] == e[0]);
    if c <= 0x7f {
        assert((c & 0x7f) as u8 == c as u8) by (bit_vector)
            requires
                c <= 0x7f,
        ;
    } else if c <= 0x7ff {
        assert(0xc0 | ((c >> 6) & 0x1f) as u8 >= 128) by (bit_vector);
        assert(e[0] == 0xc0 | ((c >> 6) & 0x1f) as u8);
    } else if c <= 0xffff {
        assert(0xe0 | ((c >> 12) & 0x0f) as u8 >= 128) by (bit_vector);
        assert(e[0] == 0xe0 | ((c >> 12) & 0x0f) as u8);
    } else {
        assert(0xf0 | ((c >> 18) & 0x7) as u8 >= 128) by (bit_vector);
        assert(e[0] == 0xf0 | ((c >> 18) & 0x7) as u8);
    }
}

/// An ASCII character is the fallback marker `b` exactly when its byte is 98.
proof fn lemma_marker_ascii(c: char)
    requires
        (c as u32) < 128,
    ensures
        (c == 'b') == (c as u32 as u8 == 98),
{
}

/// The first character of `s` as a byte, where that character is ASCII.
fn ascii_head(s: &str) -> (r: Option<u8>)
    ensures
        r is Some <==> s@.len() > 0 && (s@[0] as u32) < 128,
        r is Some ==> r->Some_0 == s@[0] as u32 as u8,
{
    let bytes = s.as_bytes();
    proof {
        if s@.len() > 0 {
            lemma_ascii_first_byte(s@);
        }
    }
    if bytes.len() == 0 {
        None
    } else if bytes[0] < 128 {
        Some(bytes[0])
    } else {
        None
    }
}

/// `s` without its first character, which is ASCII.
fn drop_ascii_head(s: &str) -> (r: &str)
    requires
        s@.len() > 0,
        (s@[0] as u32) < 128,
    ensures
        r@ == s@.drop_first(),
        r.spec_bytes().len() + 1 == s.spec_bytes().len(),
{
    let ghost bytes = s.spec_bytes();
    let ghost tail = encode_utf8(s@.drop_first());
    proof {
        lemma_ascii_first_byte(s@);
        encode_utf8_first_scalar(s@);
        assert(bytes == encode_utf8(s@));
        assert(pop_first_scalar(bytes) =~= tail);
        assert(valid_utf8(bytes));
        assert(valid_utf8(tail));
        assert(is_char_boundary(tail, 0));
        assert(is_char_boundary(bytes, 1));
    }
    let (_, rest) = s.split_at(1);
    proof {
        assert(rest.spec_bytes() =~= tail);
        assert(decode_utf8(rest.spec_bytes()) == rest@);
        assert(decode_utf8(tail) == s@.drop_first());
    }
    rest
}

/// The packet that a `b`-prefixed text frame of type `typ` stands for, given
/// what base64 decoding of its payload gave.
pub fn fallback_packet(typ: PacketType, decoded: Result<Vec<u8>, base64::DecodeError>) -> (r:
    Result<Packet, PacketError>)
    ensures
        decoded is Ok ==> result_view(r) == Ok::<PacketView, PacketError>(
            PacketView { typ, data: Some(DataView::Bytes(decoded->Ok_0@)) },
        ),
        decoded is Err ==> result_view(r) == Err::<PacketView, PacketError>(
            PacketError::InvalidEncoding,
        ),
{
    match decoded {
        Ok(bytes) => Ok(Packet { typ, data: Some(PacketData::Bytes(bytes)) }),
        Err(_) => Err(PacketError::InvalidEncoding),
    }
}

/// Decodes a text frame that starts with the fallback marker `b`; `rest` is
/// the frame without it.
fn decode_fallback_frame(text: &str, rest: &str) -> (r: Result<Packet, PacketError>)
    requires
        text@.len() > 0,
        text@[0] == 'b',
        rest@ == text@.drop_first(),
        rest.spec_bytes().len() <= isize::MAX,
    ensures
        result_view(r) == decoded(DataView::Text(text@)),
        forall|typ: PacketType, b: Seq<u8>|
            #[trigger] fallback_text_of(typ, base64_of(b)) == text@ ==> result_view(r) == Ok::<
                PacketView,
                PacketError,
            >(PacketView { typ, data: Some(DataView::Bytes(b)) }),
{
    let second = match ascii_head(rest) {
        Some(c) => c,
        None => {
            if rest.is_empty() {
                return Err(PacketError::TooShort);
            } else {
                return Err(PacketError::InvalidPacketType);
            }
        },
    };
    proof {
        lemma_digit_ascii(rest@[0]);
    }
    let typ = match PacketType::from_ascii(second) {
        Some(t) => t,
        None => {
            return Err(PacketError::InvalidPacketType);
        },
    };
    let payload = drop_ascii_head(rest);
    proof {
        assert(payload@ =~= text@.subrange(2, text@.len() as int));
    }
    let r = fallback_packet(typ, base64_codec::decode(payload));
    proof {
        assert forall|t: PacketType, b: Seq<u8>|
            #[trigger] fallback_text_of(t, base64_of(b)) == text@ implies result_view(r) == Ok::<
                PacketView,
                PacketError,
            >(PacketView { typ: t, data: Some(DataView::Bytes(b)) }) by {
            let f = fallback_text_of(t, base64_of(b));
            assert(f.subrange(2, f.len() as int) =~= base64_of(b));
            assert(f[1] == digit_of(t));
            lemma_id_bijection(0, t);
        }
    }
    r
}

/// Decodes a text frame.
fn decode_text(text: &str) -> (r: Result<Packet, PacketError>)
    requires
        text.spec_bytes().len() <= isize::MAX,
    ensures
        result_view(r) == decoded(DataView::Text(text@)),
        forall|p: PacketView, supports_binary: bool|
            no_empty_text(p) && #[trigger] encoded(p, supports_binary) == DataView::Text(text@)
                ==> result_view(r) == Ok::<PacketView, PacketError>(p),
{
    let r = if text.is_empty() {
        Err(PacketError::EmptyInput)
    } else {
        match ascii_head(text) {
            None => Err(PacketError::InvalidPacketType),
            Some(first) => {
                proof {
                    lemma_digit_ascii(text@[0]);
                }
                let rest = drop_ascii_head(text);
                proof {
                    lemma_marker_ascii(text@[0]);
                }
                if first == 98 {
                    decode_fallback_frame(text, rest)
                } else {
                    match PacketType::from_ascii(first) {
                        None => Err(PacketError::InvalidPacketType),
                        Some(typ) => {
                            if rest.is_empty() {
                                Ok(Packet { typ, data: None })
                            } else {
                                Ok(Packet { typ, data: Some(PacketData::Text(rest.to_owned())) })
                            }
                        },
                    }
                }
            },
        }
    };
    proof {
        assert forall|p: PacketView, supports_binary: bool|
            no_empty_text(p) && #[trigger] encoded(p, supports_binary) == DataView::Text(
                text@,
            ) implies result_view(r) == Ok::<PacketView, PacketError>(p) by {
            lemma_decode_encode(p, supports_binary);
            if let Some(DataView::Bytes(b)) = p.data {
                if !supports_binary {
                    assert(fallback_text_of(p.typ, base64_of(b)) == text@);
                }
            }
        }
    }
    r
}

/// Decodes a binary frame: a raw id byte, then the payload.
fn decode_bytes(bytes: &Vec<u8>) -> (r: Result<Packet, PacketError>)
    ensures
        result_view(r) == decoded(DataView::Bytes(bytes@)),
{
    if bytes.len() == 0 {
        return Err(PacketError::TooShort);
    }
    match PacketType::from_raw(bytes[0]) {
        None => Err(PacketError::InvalidPacketType),
        Some(typ) => {
            let rest = slice_to_vec(slice_subrange(bytes.as_slice(), 1, bytes.len()));
            proof {
                assert(rest@ =~= bytes@.drop_first());
            }
            Ok(Packet { typ, data: Some(PacketData::Bytes(rest)) })
        },
    }
}

/// Decodes one wire frame into a packet.
///
/// A text frame is a type digit followed by the text payload, with no payload
/// where nothing follows the digit, or `b`, a type digit and the base64 text of
/// a binary payload. A binary frame is a raw id byte followed by the payload,
/// which is kept even when empty. Decoding the wire form of any packet without
/// an empty text payload gives that packet back.
pub fn decode_packet(data: &PacketData) -> (r: Result<Packet, PacketError>)
    requires
        fits_in_memory(data@),
    ensures
        result_view(r) == decoded(data@),
        forall|p: PacketView, supports_binary: bool|
            no_empty_text(p) && #[trigger] encoded(p, supports_binary) == data@ ==> result_view(r)
                == Ok::<PacketView, PacketError>(p),
{
    match data {
        PacketData::Text(text) => decode_text(text.as_str()),
        PacketData::Bytes(bytes) => {
            let r = decode_bytes(bytes);
            proof {
                assert forall|p: PacketView, supports_binary: bool|
                    no_empty_text(p) && #[trigger] encoded(p, supports_binary) == data@ implies result_view(r)
                        == Ok::<PacketView, PacketError>(p) by {
                    lemma_decode_encode(p, supports_binary);
                }
            }
            r
        },
    }
}

/// The one-character text of a packet type's digit.
fn digit_str(t: PacketType) -> (r: &'static str)
    ensures
        r@ =~= seq![digit_of(t)],
{
    match t {
        PacketType::Open => {
            proof {
                reveal_strlit("0");
            }
            "0"
        },
        PacketType::Close => {
            proof {
                reveal_strlit("1");
            }
            "1"
        },
        PacketType::Ping => {
            proof {
                reveal_strlit("2");
            }
            "2"
        },
        PacketType::Pong => {
            proof {
                reveal_strlit("3");
            }
            "3"
        },
        PacketType::Message => {
            proof {
                reveal_strlit("4");
            }
            "4"
        },
        PacketType::Upgrade => {
            proof {
                reveal_strlit("5");
            }
            "5"
        },
        PacketType::Noop => {
            proof {
                reveal_strlit("6");
            }
            "6"
        },
    }
}

/// The text frame of the binary-over-text fallback for a packet of type `typ`
/// whose payload has the base64 text `encoded`.
pub fn fallback_text(typ: PacketType, encoded: &str) -> (r: String)
    ensures
        r@ == fallback_text_of(typ, encoded@),
{
    let mut out = "b".to_owned();
    proof {
        reveal_strlit("b");
    }
    out.append(digit_str(typ));
    out.append(encoded);
    proof {
        assert(out@ =~= fallback_text_of(typ, encoded@));
    }
    out
}

/// A packet can be encoded when its payload fits in memory.
pub open spec fn encodable(p: PacketView) -> bool {
    match p.data {
        Some(d) => fits_in_memory(d),
        None => true,
    }
}

/// Encodes a packet into its wire frame.
///
/// The frame is the type's digit followed by the text payload, if any. A
/// binary payload becomes a binary frame (the raw id byte, then the payload)
/// where the channel carries binary frames, and otherwise a text frame: `b`,
/// the type's digit and the base64 text of the payload.
pub fn encode_packet(packet: &Packet, supports_binary: bool) -> (r: PacketData)
    requires
        encodable(packet@),
    ensures
        r@ == encoded(packet@, supports_binary),
{
    match &packet.data {
        None => PacketData::Text(digit_str(packet.typ).to_owned()),
        Some(PacketData::Text(text)) => {
            let mut out = digit_str(packet.typ).to_owned();
            out.append(text.as_str());
            PacketData::Text(out)
        },
        Some(PacketData::Bytes(bytes)) => {
            if supports_binary {
                let mut data: Vec<u8> = Vec::new();
                data.push(packet.typ.id());
                let mut i: usize = 0;
                while i < bytes.len()
                    invariant
                        i <= bytes@.len(),
                        data@ =~= seq![spec_id(packet.typ)] + bytes@.subrange(0, i as int),
                    decreases bytes@.len() - i,
                {
                    data.push(bytes[i]);
                    i = i + 1;
                }
                proof {
                    assert(bytes@.subrange(0, i as int) =~= bytes@);
                }
                PacketData::Bytes(data)
            } else {
                let text = base64_codec::encode(bytes.as_slice());
                PacketData::Text(fallback_text(packet.typ, text.as_str()))
            }
        },
    }
}

} // verus!

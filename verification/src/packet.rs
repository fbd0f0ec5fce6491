//! The packets that client and server exchange, and their bytes on the wire.
use vstd::prelude::*;
use vstd::utf8::{decode_utf8, encode_utf8, valid_utf8, encode_utf8_valid_utf8, encode_utf8_decode_utf8};
use crate::wire::{
    le_bytes_u32, le_bytes_u64, le_u64,
    le_u32, tag_frame, tagged_bytes_frame, holds_tagged_frame, frame_payload,
    lemma_le_u32_roundtrip, lemma_le_u64_roundtrip, lemma_tagged_frame_roundtrip, serialize_tag, serialize_tagged_bytes,
    deserialize_tag, deserialize_tagged_bytes,
};
use crate::text::str_from_utf8;

verus! {

/// A message of the tunnel protocol.
#[derive(Debug, Clone, PartialEq, Eq)]
pub enum Packet {
    /// Client to server, on a new control channel: asks for a domain.
    Init,
    /// Server to client: the domain assigned to the client.
    Success(String),
    /// Client to server: the client took the domain and keeps the control channel open.
    Ack,
    /// Client to server, on a new data channel: the channel serves this domain.
    DataInit(String),
    /// Server to client, on a data channel: a public request follows on this channel.
    DataForward,
}

/// The mathematical value of a [`Packet`]: domains as character sequences.
pub enum PacketView {
    Init,
    Success(Seq<char>),
    Ack,
    DataInit(Seq<char>),
    DataForward,
}

impl View for Packet {
    type V = PacketView;

    open spec fn view(&self) -> PacketView {
        match self {
            Packet::Init => PacketView::Init,
            Packet::Success(d) => PacketView::Success(d@),
            Packet::Ack => PacketView::Ack,
            Packet::DataInit(d) => PacketView::DataInit(d@),
            Packet::DataForward => PacketView::DataForward,
        }
    }
}

/// The variant index that stands first on the wire, in declaration order.
pub open spec fn packet_tag(p: PacketView) -> u32 {
    match p {
        PacketView::Init => 0,
        PacketView::Success(_) => 1,
        PacketView::Ack => 2,
        PacketView::DataInit(_) => 3,
        PacketView::DataForward => 4,
    }
}

/// The bytes of a packet on the wire: variants without a domain are their tag
/// alone; a domain follows its tag as a length-prefixed UTF-8 string.
pub open spec fn wire_encoding(p: PacketView) -> Seq<u8> {
    match p {
        PacketView::Success(d) => tagged_bytes_frame(1, encode_utf8(d)),
        PacketView::DataInit(d) => tagged_bytes_frame(3, encode_utf8(d)),
        _ => tag_frame(packet_tag(p)),
    }
}

/// The packet that stands at the start of `b`, if any; bytes after it are ignored.
pub open spec fn wire_decoding(b: Seq<u8>) -> Option<PacketView> {
    if b.len() < 4 {
        None
    } else {
        let tag = le_u32(b);
        if tag == 0 {
            Some(PacketView::Init)
        } else if tag == 2 {
            Some(PacketView::Ack)
        } else if tag == 4 {
            Some(PacketView::DataForward)
        } else if (tag == 1 || tag == 3) && holds_tagged_frame(b) && valid_utf8(frame_payload(b)) {
            let domain = decode_utf8(frame_payload(b));
            if tag == 1 {
                Some(PacketView::Success(domain))
            } else {
                Some(PacketView::DataInit(domain))
            }
        } else {
            None
        }
    }
}

/// The packet's domain, if it carries one, fits the wire's `u64` length prefix.
pub open spec fn fits_wire(p: PacketView) -> bool {
    match p {
        PacketView::Success(d) => encode_utf8(d).len() <= u64::MAX,
        PacketView::DataInit(d) => encode_utf8(d).len() <= u64::MAX,
        _ => true,
    }
}

/// Decoding the bytes of a packet gives that packet back, whatever bytes follow it.
pub proof fn lemma_decode_encode(p: PacketView, rest: Seq<u8>)
    requires
        fits_wire(p),
    ensures
        wire_decoding(wire_encoding(p) + rest) == Some(p),
{
    let b = wire_encoding(p) + rest;
    match p {
        PacketView::Success(d) => {
            let e = encode_utf8(d);
            lemma_tagged_frame_roundtrip(1, e, rest);
            encode_utf8_valid_utf8(d);
            encode_utf8_decode_utf8(d);
            assert(le_u32(b) == 1);
            assert(holds_tagged_frame(b) && frame_payload(b) == e);
            assert(valid_utf8(frame_payload(b)) && decode_utf8(frame_payload(b)) == d);
        },
        PacketView::DataInit(d) => {
            let e = encode_utf8(d);
            lemma_tagged_frame_roundtrip(3, e, rest);
            encode_utf8_valid_utf8(d);
            encode_utf8_decode_utf8(d);
            assert(le_u32(b) == 3);
            assert(holds_tagged_frame(b) && frame_payload(b) == e);
            assert(valid_utf8(frame_payload(b)) && decode_utf8(frame_payload(b)) == d);
        },
        _ => {
            lemma_le_u32_roundtrip(packet_tag(p), rest);
        },
    }
}

/// Two packets with the same bytes on the wire are the same packet.
pub proof fn lemma_encoding_injective(p: PacketView, q: PacketView)
    requires
        fits_wire(p),
        fits_wire(q),
        wire_encoding(p) == wire_encoding(q),
    ensures
        p == q,
{
    lemma_decode_encode(p, Seq::empty());
    lemma_decode_encode(q, Seq::empty());
    assert(wire_encoding(p) + Seq::empty() =~= wire_encoding(p));
    assert(wire_encoding(q) + Seq::empty() =~= wire_encoding(q));
}

/// A packet without a domain takes four bytes on the wire.
pub proof fn lemma_bare_packet_len(p: PacketView)
    requires
        p is Init || p is Ack || p is DataForward,
    ensures
        wire_encoding(p).len() == 4,
{
}

/// The bytes of a tag-only frame.
fn tag_only(tag: u32) -> (bytes: Vec<u8>)
    ensures
        bytes@ == tag_frame(tag),
{
    match serialize_tag(tag) {
        Ok(bytes) => bytes,
        Err(_) => Vec::new(),
    }
}

/// The bytes of a frame that carries a domain.
fn with_domain(tag: u32, domain: &String) -> (bytes: Vec<u8>)
    ensures
        bytes@ == tagged_bytes_frame(tag, encode_utf8(domain@)),
{
    let raw: &[u8] = domain.as_str().as_bytes();
    match serialize_tagged_bytes(tag, raw) {
        Ok(bytes) => bytes,
        Err(_) => Vec::new(),
    }
}

impl Packet {
    /// The packet's bytes on the wire.
    pub fn encode(&self) -> (bytes: Vec<u8>)
        ensures
            bytes@ == wire_encoding(self@),
    {
        match self {
            Packet::Init => tag_only(0),
            Packet::Success(d) => with_domain(1, d),
            Packet::Ack => tag_only(2),
            Packet::DataInit(d) => with_domain(3, d),
            Packet::DataForward => tag_only(4),
        }
    }

    /// The packet at the start of `bytes`, or `None` where they hold none: fewer
    /// than four bytes, an unknown tag, a domain cut short or not UTF-8.
    pub fn parse(bytes: &[u8]) -> (r: Option<Packet>)
        ensures
            r is Some <==> wire_decoding(bytes@) is Some,
            r matches Some(p) ==> wire_decoding(bytes@) == Some(p@),
    {
        let tag = match deserialize_tag(bytes) {
            Ok(t) => t,
            Err(_) => return None,
        };
        if tag == 0 {
            Some(Packet::Init)
        } else if tag == 2 {
            Some(Packet::Ack)
        } else if tag == 4 {
            Some(Packet::DataForward)
        } else if tag == 1 || tag == 3 {
            let payload = match deserialize_tagged_bytes(bytes) {
                Ok((_, payload)) => payload,
                Err(_) => return None,
            };
            let text = match str_from_utf8(payload.as_slice()) {
                Some(s) => s,
                None => return None,
            };
            let domain: String = text.to_owned();
            if tag == 1 {
                Some(Packet::Success(domain))
            } else {
                Some(Packet::DataInit(domain))
            }
        } else {
            None
        }
    }
}

/// A small tag's four little-endian bytes: the tag, then three zeros.
proof fn lemma_small_tag_bytes(tag: u32)
    requires
        tag < 256,
    ensures
        le_bytes_u32(tag) == seq![tag as u8, 0u8, 0u8, 0u8],
{
    let b0 = (tag & 0xff) as u8;
    let b1 = ((tag >> 8u32) & 0xff) as u8;
    let b2 = ((tag >> 16u32) & 0xff) as u8;
    let b3 = ((tag >> 24u32) & 0xff) as u8;
    assert(b0 == tag as u8 && b1 == 0u8 && b2 == 0u8 && b3 == 0u8) by (bit_vector)
        requires
            tag < 256u32,
            b0 == (tag & 0xff) as u8,
            b1 == ((tag >> 8u32) & 0xff) as u8,
            b2 == ((tag >> 16u32) & 0xff) as u8,
            b3 == ((tag >> 24u32) & 0xff) as u8,
    ;
    assert(le_bytes_u32(tag) =~= seq![tag as u8, 0u8, 0u8, 0u8]);
}

/// The bytes of each packet, written out: a packet starts with its variant
/// index in declaration order as four little-endian bytes (Init 0, Success 1,
/// Ack 2, DataInit 3, DataForward 4); a packet without a domain is those four
/// bytes alone; a domain follows as its UTF-8 length in eight little-endian
/// bytes, then its UTF-8 bytes.
pub proof fn lemma_wire_layout(d: Seq<char>)
    requires
        encode_utf8(d).len() <= u64::MAX,
    ensures
        wire_encoding(PacketView::Init) == seq![0u8, 0u8, 0u8, 0u8],
        wire_encoding(PacketView::Ack) == seq![2u8, 0u8, 0u8, 0u8],
        wire_encoding(PacketView::DataForward) == seq![4u8, 0u8, 0u8, 0u8],
        wire_encoding(PacketView::Success(d)).take(4) == seq![1u8, 0u8, 0u8, 0u8],
        wire_encoding(PacketView::DataInit(d)).take(4) == seq![3u8, 0u8, 0u8, 0u8],
        wire_encoding(PacketView::Success(d)).len() == 12 + encode_utf8(d).len(),
        wire_encoding(PacketView::DataInit(d)).len() == 12 + encode_utf8(d).len(),
        le_u64(wire_encoding(PacketView::Success(d)).subrange(4, 12)) == encode_utf8(d).len(),
        le_u64(wire_encoding(PacketView::DataInit(d)).subrange(4, 12)) == encode_utf8(d).len(),
        wire_encoding(PacketView::Success(d)).skip(12) == encode_utf8(d),
        wire_encoding(PacketView::DataInit(d)).skip(12) == encode_utf8(d),
{
    lemma_small_tag_bytes(0);
    lemma_small_tag_bytes(1);
    lemma_small_tag_bytes(2);
    lemma_small_tag_bytes(3);
    lemma_small_tag_bytes(4);
    let e = encode_utf8(d);
    let n = le_bytes_u64(e.len() as u64);
    lemma_le_u64_roundtrip(e.len() as u64);
    let s = wire_encoding(PacketView::Success(d));
    let q = wire_encoding(PacketView::DataInit(d));
    assert(s == seq![1u8, 0u8, 0u8, 0u8] + n + e);
    assert(q == seq![3u8, 0u8, 0u8, 0u8] + n + e);
    assert(s.take(4) =~= seq![1u8, 0u8, 0u8, 0u8]);
    assert(q.take(4) =~= seq![3u8, 0u8, 0u8, 0u8]);
    assert(s.subrange(4, 12) =~= n);
    assert(q.subrange(4, 12) =~= n);
    assert(s.skip(12) =~= e);
    assert(q.skip(12) =~= e);
}

} // verus!

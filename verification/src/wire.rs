//! Byte-level framing of packets, done by bincode with its default options
//! (fixed-width little-endian integers, `u64` length prefixes, trailing bytes
//! allowed).
use vstd::prelude::*;

verus! {

/// The four little-endian bytes of `v`.
pub open spec fn le_bytes_u32(v: u32) -> Seq<u8> {
    seq![
        (v & 0xff) as u8,
        ((v >> 8u32) & 0xff) as u8,
        ((v >> 16u32) & 0xff) as u8,
        ((v >> 24u32) & 0xff) as u8,
    ]
}

/// The eight little-endian bytes of `v`.
pub open spec fn le_bytes_u64(v: u64) -> Seq<u8> {
    seq![
        (v & 0xff) as u8,
        ((v >> 8u64) & 0xff) as u8,
        ((v >> 16u64) & 0xff) as u8,
        ((v >> 24u64) & 0xff) as u8,
        ((v >> 32u64) & 0xff) as u8,
        ((v >> 40u64) & 0xff) as u8,
        ((v >> 48u64) & 0xff) as u8,
        ((v >> 56u64) & 0xff) as u8,
    ]
}

/// The `u32` whose little-endian bytes are the first four of `b`.
pub open spec fn le_u32(b: Seq<u8>) -> u32 {
    (b[0] as u32) | ((b[1] as u32) << 8u32) | ((b[2] as u32) << 16u32) | ((b[3] as u32) << 24u32)
}

/// The `u64` whose little-endian bytes are the first eight of `b`.
pub open spec fn le_u64(b: Seq<u8>) -> u64 {
    (b[0] as u64) | ((b[1] as u64) << 8u64) | ((b[2] as u64) << 16u64) | ((b[3] as u64) << 24u64)
        | ((b[4] as u64) << 32u64) | ((b[5] as u64) << 40u64) | ((b[6] as u64) << 48u64) | ((
    b[7] as u64) << 56u64)
}

/// A frame that carries only a tag: the tag's four bytes.
pub open spec fn tag_frame(tag: u32) -> Seq<u8> {
    le_bytes_u32(tag)
}

/// A frame that carries a tag and a byte payload: the tag, the payload's length
/// as a `u64`, then the payload.
pub open spec fn tagged_bytes_frame(tag: u32, payload: Seq<u8>) -> Seq<u8> {
    le_bytes_u32(tag) + le_bytes_u64(payload.len() as u64) + payload
}

/// The payload length that a tagged frame at the start of `b` announces.
pub open spec fn announced_len(b: Seq<u8>) -> int {
    le_u64(b.subrange(4, 12)) as int
}

/// `b` starts with a whole tagged frame: its header and all the payload it announces.
pub open spec fn holds_tagged_frame(b: Seq<u8>) -> bool {
    &&& b.len() >= 12
    &&& announced_len(b) <= b.len() - 12
}

/// The payload of the tagged frame at the start of `b`.
pub open spec fn frame_payload(b: Seq<u8>) -> Seq<u8> {
    b.subrange(12, 12 + announced_len(b))
}

/// Reading back the four little-endian bytes of a `u32` gives the `u32`.
pub proof fn lemma_le_u32_roundtrip(v: u32, rest: Seq<u8>)
    ensures
        le_u32(le_bytes_u32(v) + rest) == v,
{
    let b = le_bytes_u32(v) + rest;
    let b0 = b[0];
    let b1 = b[1];
    let b2 = b[2];
    let b3 = b[3];
    assert((b0 as u32) | ((b1 as u32) << 8u32) | ((b2 as u32) << 16u32) | ((b3 as u32) << 24u32)
        == v) by (bit_vector)
        requires
            b0 == (v & 0xff) as u8,
            b1 == ((v >> 8u32) & 0xff) as u8,
            b2 == ((v >> 16u32) & 0xff) as u8,
            b3 == ((v >> 24u32) & 0xff) as u8,
    ;
}

/// Reading back the eight little-endian bytes of a `u64` gives the `u64`.
pub proof fn lemma_le_u64_roundtrip(v: u64)
    ensures
        le_u64(le_bytes_u64(v)) == v,
{
    let b = le_bytes_u64(v);
    let b0 = b[0];
    let b1 = b[1];
    let b2 = b[2];
    let b3 = b[3];
    let b4 = b[4];
    let b5 = b[5];
    let b6 = b[6];
    let b7 = b[7];
    assert((b0 as u64) | ((b1 as u64) << 8u64) | ((b2 as u64) << 16u64) | ((b3 as u64) << 24u64)
        | ((b4 as u64) << 32u64) | ((b5 as u64) << 40u64) | ((b6 as u64) << 48u64) | ((b7 as u64)
        << 56u64) == v) by (bit_vector)
        requires
            b0 == (v & 0xff) as u8,
            b1 == ((v >> 8u64) & 0xff) as u8,
            b2 == ((v >> 16u64) & 0xff) as u8,
            b3 == ((v >> 24u64) & 0xff) as u8,
            b4 == ((v >> 32u64) & 0xff) as u8,
            b5 == ((v >> 40u64) & 0xff) as u8,
            b6 == ((v >> 48u64) & 0xff) as u8,
            b7 == ((v >> 56u64) & 0xff) as u8,
    ;
}

/// A tagged frame, followed by anything, holds a whole frame whose tag and
/// payload are the ones it was made of.
pub proof fn lemma_tagged_frame_roundtrip(tag: u32, payload: Seq<u8>, rest: Seq<u8>)
    requires
        payload.len() <= u64::MAX,
    ensures
        holds_tagged_frame(tagged_bytes_frame(tag, payload) + rest),
        le_u32(tagged_bytes_frame(tag, payload) + rest) == tag,
        frame_payload(tagged_bytes_frame(tag, payload) + rest) == payload,
{
    let b = tagged_bytes_frame(tag, payload) + rest;
    let lenb = le_bytes_u64(payload.len() as u64);
    assert(b =~= le_bytes_u32(tag) + (lenb + payload + rest));
    lemma_le_u32_roundtrip(tag, lenb + payload + rest);
    assert(b.subrange(4, 12) =~= lenb);
    lemma_le_u64_roundtrip(payload.len() as u64);
    assert(announced_len(b) == payload.len());
    assert(frame_payload(b) =~= payload);
}

/// The little-endian bytes of a `u32`, by arithmetic: byte `i` is the `i`-th
/// base-256 digit of the value, least significant first.
pub proof fn lemma_le_bytes_u32_digits(v: u32)
    ensures
        le_bytes_u32(v)[0] == v % 256,
        le_bytes_u32(v)[1] == (v / 256) % 256,
        le_bytes_u32(v)[2] == (v / 65536) % 256,
        le_bytes_u32(v)[3] == v / 16777216,
{
    let b = le_bytes_u32(v);
    let b0 = b[0];
    let b1 = b[1];
    let b2 = b[2];
    let b3 = b[3];
    assert(b0 == v % 256 && b1 == (v / 256) % 256 && b2 == (v / 65536) % 256 && b3 == v
        / 16777216) by (bit_vector)
        requires
            b0 == (v & 0xff) as u8,
            b1 == ((v >> 8u32) & 0xff) as u8,
            b2 == ((v >> 16u32) & 0xff) as u8,
            b3 == ((v >> 24u32) & 0xff) as u8,
    ;
}

/// The little-endian bytes of a `u64`, by arithmetic: byte `i` is the `i`-th
/// base-256 digit of the value, least significant first.
pub proof fn lemma_le_bytes_u64_digits(v: u64)
    ensures
        le_bytes_u64(v)[0] == v % 0x100,
        le_bytes_u64(v)[1] == (v / 0x100) % 0x100,
        le_bytes_u64(v)[2] == (v / 0x1_0000) % 0x100,
        le_bytes_u64(v)[3] == (v / 0x100_0000) % 0x100,
        le_bytes_u64(v)[4] == (v / 0x1_0000_0000) % 0x100,
        le_bytes_u64(v)[5] == (v / 0x100_0000_0000) % 0x100,
        le_bytes_u64(v)[6] == (v / 0x1_0000_0000_0000) % 0x100,
        le_bytes_u64(v)[7] == v / 0x100_0000_0000_0000,
{
    let b = le_bytes_u64(v);
    let b0 = b[0];
    let b1 = b[1];
    let b2 = b[2];
    let b3 = b[3];
    let b4 = b[4];
    let b5 = b[5];
    let b6 = b[6];
    let b7 = b[7];
    assert(b0 == v % 0x100 && b1 == (v / 0x100) % 0x100 && b2 == (v / 0x1_0000) % 0x100 && b3 == (v
        / 0x100_0000) % 0x100) by (bit_vector)
        requires
            b0 == (v & 0xff) as u8,
            b1 == ((v >> 8u64) & 0xff) as u8,
            b2 == ((v >> 16u64) & 0xff) as u8,
            b3 == ((v >> 24u64) & 0xff) as u8,
    ;
    assert(b4 == (v / 0x1_0000_0000) % 0x100 && b5 == (v / 0x100_0000_0000) % 0x100 && b6 == (v
        / 0x1_0000_0000_0000) % 0x100 && b7 == v / 0x100_0000_0000_0000) by (bit_vector)
        requires
            b4 == ((v >> 32u64) & 0xff) as u8,
            b5 == ((v >> 40u64) & 0xff) as u8,
            b6 == ((v >> 48u64) & 0xff) as u8,
            b7 == ((v >> 56u64) & 0xff) as u8,
    ;
}

#[verifier::external_type_specification]
#[verifier::external_body]
pub struct ExBincodeErrorKind(bincode::ErrorKind);

/// Calls `bincode::serialize` on a `u32` tag. With bincode's default options a
/// `u32` is written as its four little-endian bytes, and serialising it cannot fail.
#[verifier::external_body]
pub(crate) fn serialize_tag(tag: u32) -> (r: Result<Vec<u8>, Box<bincode::ErrorKind>>)
    ensures
        r is Ok,
        r matches Ok(bytes) ==> bytes@ == tag_frame(tag),
{
    bincode::serialize(&tag)
}

/// Calls `bincode::serialize` on the pair `(tag, payload)`. With bincode's default
/// options the pair is written as the tag's four little-endian bytes, the payload's
/// length as eight little-endian bytes, then the payload's bytes; a slice always
/// has a known length, so serialising it cannot fail.
#[verifier::external_body]
pub(crate) fn serialize_tagged_bytes(tag: u32, payload: &[u8]) -> (r: Result<Vec<u8>, Box<bincode::ErrorKind>>)
    ensures
        r is Ok,
        r matches Ok(bytes) ==> bytes@ == tagged_bytes_frame(tag, payload@),
{
    bincode::serialize(&(tag, payload))
}

/// Calls `bincode::deserialize::<u32>`. With bincode's default options it reads the
/// first four bytes as a little-endian `u32`, fails when fewer than four bytes are
/// given, and ignores the bytes after them.
#[verifier::external_body]
pub(crate) fn deserialize_tag(bytes: &[u8]) -> (r: Result<u32, Box<bincode::ErrorKind>>)
    ensures
        r is Ok <==> bytes@.len() >= 4,
        r matches Ok(tag) ==> tag == le_u32(bytes@),
{
    bincode::deserialize::<u32>(bytes)
}

/// Calls `bincode::deserialize::<(u32, Vec<u8>)>`. With bincode's default options it
/// reads a little-endian `u32`, then a little-endian `u64` length, then that many
/// bytes one by one; it fails when the input ends before that, and ignores the
/// bytes after them.
#[verifier::external_body]
pub(crate) fn deserialize_tagged_bytes(bytes: &[u8]) -> (r: Result<(u32, Vec<u8>), Box<bincode::ErrorKind>>)
    ensures
        r is Ok <==> holds_tagged_frame(bytes@),
        r matches Ok((tag, payload)) ==> tag == le_u32(bytes@) && payload@ == frame_payload(
            bytes@,
        ),
{
    bincode::deserialize::<(u32, Vec<u8>)>(bytes)
}

} // verus!

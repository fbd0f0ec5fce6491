//! The client's decisions: what it sends on the control channel and on each data
//! channel, and how it reads the server's answers.
use vstd::prelude::*;
use crate::packet::{Packet, PacketView, wire_decoding, wire_encoding, fits_wire, lemma_decode_encode};

verus! {

/// The bytes that open a control channel: a request for a domain.
pub fn hello() -> (bytes: Vec<u8>)
    ensures
        bytes@ == wire_encoding(PacketView::Init),
{
    Packet::Init.encode()
}

/// The domain that the server's reply assigns, or `None` when the reply is not
/// an assignment, in which case the client gives up.
pub fn accept_offer(reply: &[u8]) -> (r: Option<String>)
    ensures
        r is Some <==> wire_decoding(reply@) matches Some(PacketView::Success(_)),
        r matches Some(domain) ==> wire_decoding(reply@) == Some(PacketView::Success(domain@)),
{
    match Packet::parse(reply) {
        Some(Packet::Success(domain)) => Some(domain),
        _ => None,
    }
}

/// What the client prints once it holds a domain.
pub open spec fn banner_text(domain: Seq<char>) -> Seq<char> {
    "tunnel up!\nHost: "@ + domain
}

/// What the client prints once it holds `domain`.
pub fn tunnel_banner(domain: &String) -> (s: String)
    ensures
        s@ == banner_text(domain@),
{
    let mut s = String::from_str("tunnel up!\nHost: ");
    s.append(domain.as_str());
    s
}

/// The bytes that tell the server the client took its domain.
pub fn acknowledgement() -> (bytes: Vec<u8>)
    ensures
        bytes@ == wire_encoding(PacketView::Ack),
{
    Packet::Ack.encode()
}

/// The byte that the client writes on the control channel to show it is alive.
pub fn heartbeat() -> (b: u8)
    ensures
        b == 1,
{
    1
}

/// What the client does after writing a heartbeat: while writes succeed it
/// writes the next one after this many milliseconds; once one fails the server
/// is gone and the heartbeat stops.
pub fn next_heartbeat(write_ok: bool) -> (delay_ms: Option<u64>)
    ensures
        write_ok ==> delay_ms == Some(500u64),
        !write_ok ==> delay_ms is None,
{
    if write_ok {
        Some(500)
    } else {
        None
    }
}

/// The bytes that open a data channel for `domain`.
pub fn data_request(domain: &String) -> (bytes: Vec<u8>)
    ensures
        bytes@ == wire_encoding(PacketView::DataInit(domain@)),
{
    Packet::DataInit(domain.clone()).encode()
}

/// How many bytes the client reads on a data channel before it proxies: the
/// length of the server's signal that a public request follows.
pub fn forward_signal_len() -> (n: usize)
    ensures
        n == wire_encoding(PacketView::DataForward).len(),
        n == 4,
{
    let signal = Packet::DataForward.encode();
    signal.len()
}

/// Whether the bytes read on a data channel are the server's signal that a
/// public request follows; otherwise the client opens the next data channel.
pub fn is_forward_signal(bytes: &[u8]) -> (r: bool)
    ensures
        r == (wire_decoding(bytes@) == Some(PacketView::DataForward)),
{
    match Packet::parse(bytes) {
        Some(Packet::DataForward) => true,
        _ => false,
    }
}

/// The server's offer of `domain`, read by the client, assigns `domain`: the
/// client takes the domain that the server took from its pool.
pub proof fn lemma_offer_accepted(domain: Seq<char>)
    requires
        fits_wire(PacketView::Success(domain)),
    ensures
        wire_decoding(wire_encoding(PacketView::Success(domain))) == Some(
            PacketView::Success(domain),
        ),
{
    lemma_decode_encode(PacketView::Success(domain), Seq::empty());
    assert(wire_encoding(PacketView::Success(domain)) + Seq::empty() =~= wire_encoding(
        PacketView::Success(domain),
    ));
}

/// The client's request for a data channel, read by the server, names the
/// client's domain, however many bytes follow it in the server's buffer.
pub proof fn lemma_data_request_routed(domain: Seq<char>, rest: Seq<u8>)
    requires
        fits_wire(PacketView::DataInit(domain)),
    ensures
        wire_decoding(wire_encoding(PacketView::DataInit(domain)) + rest) == Some(
            PacketView::DataInit(domain),
        ),
{
    lemma_decode_encode(PacketView::DataInit(domain), rest);
}

/// The client's acknowledgement reads as one on the server's side, and the
/// server's signal on a data channel reads as one on the client's side.
pub proof fn lemma_signals_recognised()
    ensures
        wire_decoding(wire_encoding(PacketView::Ack)) == Some(PacketView::Ack),
        wire_decoding(wire_encoding(PacketView::DataForward)) == Some(PacketView::DataForward),
        wire_decoding(wire_encoding(PacketView::Init)) == Some(PacketView::Init),
{
    lemma_decode_encode(PacketView::Ack, Seq::empty());
    lemma_decode_encode(PacketView::DataForward, Seq::empty());
    lemma_decode_encode(PacketView::Init, Seq::empty());
    assert(wire_encoding(PacketView::Ack) + Seq::empty() =~= wire_encoding(PacketView::Ack));
    assert(wire_encoding(PacketView::DataForward) + Seq::empty() =~= wire_encoding(
        PacketView::DataForward,
    ));
    assert(wire_encoding(PacketView::Init) + Seq::empty() =~= wire_encoding(PacketView::Init));
}

} // verus!

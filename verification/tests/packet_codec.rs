use rok::packet::Packet;

#[test]
fn init_is_its_tag_alone() {
    assert_eq!(Packet::Init.encode(), vec![0u8, 0, 0, 0]);
    assert_eq!(Packet::Ack.encode(), vec![2u8, 0, 0, 0]);
    assert_eq!(Packet::DataForward.encode(), vec![4u8, 0, 0, 0]);
}

#[test]
fn success_carries_length_prefixed_domain() {
    let bytes = Packet::Success("ab".to_string()).encode();
    assert_eq!(bytes, vec![1u8, 0, 0, 0, 2, 0, 0, 0, 0, 0, 0, 0, b'a', b'b']);
}

#[test]
fn data_init_carries_utf8_domain() {
    let bytes = Packet::DataInit("é".to_string()).encode();
    assert_eq!(bytes, vec![3u8, 0, 0, 0, 2, 0, 0, 0, 0, 0, 0, 0, 0xc3, 0xa9]);
}

#[test]
fn every_packet_parses_back() {
    let packets = vec![
        Packet::Init,
        Packet::Success("test.rok.me".to_string()),
        Packet::Ack,
        Packet::DataInit("test3.rok.me".to_string()),
        Packet::DataForward,
    ];
    for p in packets {
        assert_eq!(Packet::parse(&p.encode()), Some(p.clone()));
    }
}

#[test]
fn trailing_bytes_are_ignored() {
    let mut bytes = Packet::Success("x.rok.me".to_string()).encode();
    bytes.extend_from_slice(&[9, 9, 9]);
    assert_eq!(Packet::parse(&bytes), Some(Packet::Success("x.rok.me".to_string())));
    let mut ack = Packet::Ack.encode();
    ack.push(1);
    assert_eq!(Packet::parse(&ack), Some(Packet::Ack));
}

#[test]
fn short_input_is_no_packet() {
    assert_eq!(Packet::parse(&[]), None);
    assert_eq!(Packet::parse(&[0, 0, 0]), None);
}

#[test]
fn unknown_tag_is_no_packet() {
    assert_eq!(Packet::parse(&[5, 0, 0, 0]), None);
    assert_eq!(Packet::parse(&[0, 1, 0, 0]), None);
}

#[test]
fn cut_domain_is_no_packet() {
    assert_eq!(Packet::parse(&[1, 0, 0, 0, 3, 0, 0, 0, 0, 0, 0, 0, b'a', b'b']), None);
    assert_eq!(Packet::parse(&[3, 0, 0, 0, 1, 0, 0]), None);
}

#[test]
fn invalid_utf8_domain_is_no_packet() {
    assert_eq!(Packet::parse(&[1, 0, 0, 0, 1, 0, 0, 0, 0, 0, 0, 0, 0xff]), None);
}

#[test]
fn empty_domain_parses() {
    let bytes = [3u8, 0, 0, 0, 0, 0, 0, 0, 0, 0, 0, 0];
    assert_eq!(Packet::parse(&bytes), Some(Packet::DataInit(String::new())));
}

use rok::client::{
    accept_offer, acknowledgement, data_request, forward_signal_len, heartbeat, hello,
    is_forward_signal, next_heartbeat, tunnel_banner,
};
use rok::packet::Packet;
use rok::server::{
    acknowledged, finish_handshake, heartbeat_read, open_connection, ChannelTable, ControlChannel,
    DomainPool, Opening,
};

#[test]
fn standard_pool_hands_out_last_domain_first() {
    let mut pool = DomainPool::standard();
    assert_eq!(pool.len(), 3);
    assert_eq!(pool.take(), Some(("test3.rok.me".to_string(), 3004)));
    assert_eq!(pool.take(), Some(("test2.rok.me".to_string(), 3003)));
    assert_eq!(pool.take(), Some(("test.rok.me".to_string(), 3002)));
    assert_eq!(pool.take(), None);
    assert_eq!(pool.len(), 0);
}

#[test]
fn given_back_domain_is_handed_out_next() {
    let mut pool = DomainPool::standard();
    let taken = pool.take().unwrap();
    pool.give_back(taken.clone());
    assert_eq!(pool.len(), 3);
    assert_eq!(pool.take(), Some(taken));
}

#[test]
fn init_takes_a_domain_and_offers_it() {
    let mut pool = DomainPool::standard();
    match open_connection(&mut pool, &hello()) {
        Opening::Offer { domain_port, reply } => {
            assert_eq!(domain_port, ("test3.rok.me".to_string(), 3004));
            assert_eq!(accept_offer(&reply), Some("test3.rok.me".to_string()));
        }
        _ => panic!("expected an offer"),
    }
    assert_eq!(pool.len(), 2);
}

#[test]
fn init_on_empty_pool_gets_nothing() {
    let mut pool = DomainPool::new(Vec::new());
    assert!(matches!(open_connection(&mut pool, &hello()), Opening::NoDomain));
    assert_eq!(pool.len(), 0);
}

#[test]
fn data_request_names_the_domain() {
    let mut pool = DomainPool::standard();
    match open_connection(&mut pool, &data_request(&"test.rok.me".to_string())) {
        Opening::Data { domain } => assert_eq!(domain, "test.rok.me"),
        _ => panic!("expected a data channel"),
    }
    assert_eq!(pool.len(), 3);
}

#[test]
fn other_packets_are_unexpected() {
    let mut pool = DomainPool::standard();
    assert!(matches!(open_connection(&mut pool, &acknowledgement()), Opening::Unexpected));
    assert!(matches!(open_connection(&mut pool, &[7, 0, 0, 0]), Opening::Unexpected));
    assert!(matches!(open_connection(&mut pool, &[]), Opening::Unexpected));
    assert_eq!(pool.len(), 3);
}

#[test]
fn acknowledgement_is_recognised() {
    assert!(acknowledged(&acknowledgement()));
    assert!(!acknowledged(&hello()));
    assert!(!acknowledged(&[]));
}

#[test]
fn refused_offer_gives_no_domain() {
    assert_eq!(accept_offer(&Packet::Ack.encode()), None);
    assert_eq!(accept_offer(&[1, 0]), None);
}

#[test]
fn banner_names_the_host() {
    assert_eq!(tunnel_banner(&"c.domain.com".to_string()), "tunnel up!\nHost: c.domain.com");
}

#[test]
fn forward_signal_is_four_bytes() {
    assert_eq!(forward_signal_len(), 4);
    assert!(is_forward_signal(&Packet::DataForward.encode()));
    assert!(!is_forward_signal(&[0, 0, 0, 0]));
    assert_eq!(heartbeat(), 1);
}

#[test]
fn table_finds_what_was_recorded() {
    let mut table: ChannelTable<u32> = ChannelTable::new();
    assert!(table.get(&"a".to_string()).is_none());
    table.insert("a".to_string(), ControlChannel::new(("a".to_string(), 3002), 1));
    table.insert("b".to_string(), ControlChannel::new(("b".to_string(), 3003), 2));
    assert_eq!(table.get(&"a".to_string()).map(|c| c.data_tx), Some(1));
    assert_eq!(table.get(&"b".to_string()).map(|c| c.domain_port.1), Some(3003));
    assert!(table.contains(&"b".to_string()));
    assert!(!table.contains(&"c".to_string()));
}

#[test]
fn table_insert_replaces_same_domain() {
    let mut table: ChannelTable<u32> = ChannelTable::new();
    table.insert("a".to_string(), ControlChannel::new(("a".to_string(), 3002), 1));
    table.insert("a".to_string(), ControlChannel::new(("a".to_string(), 3004), 9));
    let c = table.get(&"a".to_string()).unwrap();
    assert_eq!(c.data_tx, 9);
    assert_eq!(c.domain_port.1, 3004);
}

#[test]
fn failed_handshake_returns_the_domain() {
    let mut pool = DomainPool::standard();
    let taken = match open_connection(&mut pool, &hello()) {
        Opening::Offer { domain_port, .. } => domain_port,
        _ => panic!("expected an offer"),
    };
    assert_eq!(pool.len(), 2);
    assert_eq!(finish_handshake(&mut pool, taken.clone(), false), None);
    assert_eq!(pool.len(), 3);
    assert_eq!(pool.take(), Some(taken));
}

#[test]
fn acknowledged_handshake_keeps_the_domain() {
    let mut pool = DomainPool::standard();
    let taken = pool.take().unwrap();
    assert_eq!(finish_handshake(&mut pool, taken.clone(), true), Some(taken));
    assert_eq!(pool.len(), 2);
}

#[test]
fn lost_heartbeat_returns_the_domain() {
    let mut pool = DomainPool::standard();
    let taken = pool.take().unwrap();
    assert!(heartbeat_read(&mut pool, taken.clone(), true));
    assert_eq!(pool.len(), 2);
    assert!(!heartbeat_read(&mut pool, taken.clone(), false));
    assert_eq!(pool.len(), 3);
    assert_eq!(pool.take(), Some(taken));
}

#[test]
fn heartbeat_every_half_second_until_a_write_fails() {
    assert_eq!(next_heartbeat(true), Some(500));
    assert_eq!(next_heartbeat(false), None);
}

#[test]
fn standard_pool_serves_distinct_domains() {
    let mut pool = DomainPool::standard();
    let mut seen = Vec::new();
    while let Some(dp) = pool.take() {
        assert!(!seen.contains(&dp));
        seen.push(dp);
    }
    assert_eq!(seen.len(), 3);
}

use simple_p2p::Endpoint;
use simple_p2p::Ipv4Address;
use simple_p2p::MacAddress;
use simple_p2p::Message;
use simple_p2p::ServerState;

fn mac(last: u8) -> MacAddress {
    MacAddress { b0: 0xAA, b1: 0xAA, b2: 0xAA, b3: 0xAA, b4: 0xAA, b5: last }
}

fn mac6(b0: u8, b1: u8, b2: u8, b3: u8, b4: u8, b5: u8) -> MacAddress {
    MacAddress { b0, b1, b2, b3, b4, b5 }
}

fn ep(port: u16) -> Endpoint {
    Endpoint { host: 1, port }
}

fn ip(a: u8, b: u8, c: u8, d: u8) -> Ipv4Address {
    Ipv4Address { a, b, c, d }
}

/// A 64-byte frame with the given destination and source MAC addresses.
fn frame(dst: MacAddress, src: MacAddress) -> Vec<u8> {
    let mut f = vec![0u8; 64];
    f[0] = dst.b0;
    f[1] = dst.b1;
    f[2] = dst.b2;
    f[3] = dst.b3;
    f[4] = dst.b4;
    f[5] = dst.b5;
    f[6] = src.b0;
    f[7] = src.b1;
    f[8] = src.b2;
    f[9] = src.b3;
    f[10] = src.b4;
    f[11] = src.b5;
    f
}

fn assert_invariant(s: &ServerState) {
    // Lease conservation: free pool plus held leases account for the whole
    // initial pool.
    assert_eq!(s.ip_pool.len() + s.connections.len(), 256);
    // No address both free and leased, none repeated; MAC keys unique.
    for (i, c) in s.connections.iter().enumerate() {
        assert!(!s.ip_pool.contains(&c.ip));
        for d in &s.connections[i + 1..] {
            assert_ne!(c.ip, d.ip);
            assert_ne!(c.mac_address, d.mac_address);
        }
    }
}

#[test]
fn fresh_server_has_full_pool() {
    let s = ServerState::new();
    assert_eq!(s.ip_pool.len(), 256);
    assert!(s.connections.is_empty());
    assert_eq!(s.ip_pool[0], ip(10, 123, 123, 0));
    assert_eq!(s.ip_pool[255], ip(10, 123, 123, 255));
    assert_invariant(&s);
}

#[test]
fn register_leases_a_pool_address() {
    let mut s = ServerState::new();
    let reply = s.register(mac(1), ep(1000), 0);
    match reply {
        Message::RegisterSuccess { ip: got, subnet_mask } => {
            assert_eq!(got.a, 10);
            assert_eq!(got.b, 123);
            assert_eq!(got.c, 123);
            assert_eq!(subnet_mask, ip(255, 255, 255, 0));
            assert!(!s.ip_pool.contains(&got));
        }
        _ => panic!("expected RegisterSuccess"),
    }
    assert_eq!(s.ip_pool.len(), 255);
    assert_eq!(s.connections.len(), 1);
    assert_eq!(s.connections[0].mac_address, mac(1));
    assert_eq!(s.connections[0].socket_address, ep(1000));
    assert_invariant(&s);
}

#[test]
fn sticky_lease_across_reconnect() {
    let mut s = ServerState::new();
    let first = match s.register(mac(1), ep(1000), 0) {
        Message::RegisterSuccess { ip, .. } => ip,
        _ => panic!("expected RegisterSuccess"),
    };
    let pool_after_first = s.ip_pool.len();
    // The peer's UDP endpoint changes; the lease must not.
    let second = match s.register(mac(1), ep(2000), 10) {
        Message::RegisterSuccess { ip, .. } => ip,
        _ => panic!("expected RegisterSuccess"),
    };
    assert_eq!(first, second);
    assert_eq!(s.ip_pool.len(), pool_after_first);
    assert_eq!(s.connections.len(), 1);
    assert_eq!(s.connections[0].socket_address, ep(2000));
    assert_eq!(s.connections[0].last_seen, 10);
    assert_invariant(&s);
}

#[test]
fn pool_exhaustion_refuses_the_257th_mac() {
    let mut s = ServerState::new();
    for i in 0u16..256 {
        let m = mac6(0xAA, 0xAA, 0xAA, 0xAA, (i / 256) as u8, (i % 256) as u8);
        assert!(matches!(
            s.register(m, ep(i), i as u64),
            Message::RegisterSuccess { .. }
        ));
    }
    assert!(s.ip_pool.is_empty());
    match s.register(mac6(0xBB, 0, 0, 0, 1, 0), ep(9999), 300) {
        Message::RegisterFail { reason } => assert_eq!(reason, "No available ip left"),
        _ => panic!("expected RegisterFail"),
    }
    assert_eq!(s.connections.len(), 256);
    assert_invariant(&s);
}

#[test]
fn pre_emptied_pool_serves_one_peer_then_refuses() {
    let mut s = ServerState::new();
    s.ip_pool = vec![ip(10, 123, 123, 9)];
    s.connections = Vec::new();
    let first = s.register(mac(1), ep(1), 0);
    match first {
        Message::RegisterSuccess { ip: got, .. } => assert_eq!(got, ip(10, 123, 123, 9)),
        _ => panic!("expected RegisterSuccess"),
    }
    match s.register(mac(2), ep(2), 1) {
        Message::RegisterFail { reason } => assert_eq!(reason, "No available ip left"),
        _ => panic!("expected RegisterFail"),
    }
}

#[test]
fn ping_refreshes_and_earns_pong() {
    let mut s = ServerState::new();
    s.register(mac(1), ep(1000), 0);
    assert!(s.on_ping(ep(1000), 42));
    assert_eq!(s.connections[0].last_seen, 42);
    // A ping from an endpoint nobody registered from is dropped.
    assert!(!s.on_ping(ep(7777), 43));
    assert_invariant(&s);
}

#[test]
fn purge_releases_idle_lease_for_reuse() {
    let mut s = ServerState::new();
    let leased = match s.register(mac(1), ep(1000), 0) {
        Message::RegisterSuccess { ip, .. } => ip,
        _ => panic!("expected RegisterSuccess"),
    };
    // 200 seconds of silence: the sweep reclaims the lease.
    s.purge_timedout_connections(200);
    assert!(s.connections.is_empty());
    assert_eq!(s.ip_pool.len(), 256);
    assert!(s.ip_pool.contains(&leased));
    assert_invariant(&s);
    // The freed address is the next one drawn.
    let reused = match s.register(mac(2), ep(2000), 201) {
        Message::RegisterSuccess { ip, .. } => ip,
        _ => panic!("expected RegisterSuccess"),
    };
    assert_eq!(reused, leased);
    assert_invariant(&s);
}

#[test]
fn ping_shields_connection_from_purge() {
    let mut s = ServerState::new();
    s.register(mac(1), ep(1000), 0);
    s.on_ping(ep(1000), 150);
    // Less than 200 s after the ping: the connection survives.
    s.purge_timedout_connections(349);
    assert_eq!(s.connections.len(), 1);
    assert_eq!(s.connections[0].mac_address, mac(1));
    // 200 s after the ping it is gone.
    s.purge_timedout_connections(350);
    assert!(s.connections.is_empty());
    assert_invariant(&s);
}

#[test]
fn purge_keeps_fresh_connections_only() {
    let mut s = ServerState::new();
    s.register(mac(1), ep(1), 0);
    s.register(mac(2), ep(2), 150);
    s.purge_timedout_connections(210);
    assert_eq!(s.connections.len(), 1);
    assert_eq!(s.connections[0].mac_address, mac(2));
    assert_invariant(&s);
}

#[test]
fn forward_unicast_reaches_only_the_owner() {
    let mut s = ServerState::new();
    s.register(mac(1), ep(1), 0);
    s.register(mac(2), ep(2), 0);
    let targets = s.forward_data(&frame(mac(2), mac(1)));
    assert_eq!(targets, vec![ep(2)]);
}

#[test]
fn forward_unicast_to_unknown_mac_drops() {
    let mut s = ServerState::new();
    s.register(mac(1), ep(1), 0);
    let targets = s.forward_data(&frame(mac(9), mac(1)));
    assert!(targets.is_empty());
}

#[test]
fn forward_broadcast_fans_out_except_source() {
    let mut s = ServerState::new();
    s.register(mac(1), ep(1), 0);
    s.register(mac(2), ep(2), 0);
    s.register(mac(3), ep(3), 0);
    let broadcast = mac6(0xFF, 0xFF, 0xFF, 0xFF, 0xFF, 0xFF);
    let targets = s.forward_data(&frame(broadcast, mac(1)));
    assert_eq!(targets, vec![ep(2), ep(3)]);
}

#[test]
fn forward_multicast_uses_the_same_fan_out() {
    let mut s = ServerState::new();
    s.register(mac(1), ep(1), 0);
    s.register(mac(2), ep(2), 0);
    s.register(mac(3), ep(3), 0);
    let multicast = mac6(0x01, 0x00, 0x5E, 0x12, 0x34, 0x56);
    let targets = s.forward_data(&frame(multicast, mac(2)));
    assert_eq!(targets, vec![ep(1), ep(3)]);
}

#[test]
fn forward_drops_eleven_byte_frame() {
    let mut s = ServerState::new();
    s.register(mac(1), ep(1), 0);
    s.register(mac(2), ep(2), 0);
    let targets = s.forward_data(&[0u8; 11]);
    assert!(targets.is_empty());
}

#[test]
fn handle_message_register_replies_to_sender() {
    let mut s = ServerState::new();
    let out = s.handle_message(Message::Register { mac_address: mac(1) }, ep(1000), 0);
    assert_eq!(out.len(), 1);
    assert_eq!(out[0].0, ep(1000));
    assert!(matches!(out[0].1, Message::RegisterSuccess { .. }));
}

#[test]
fn handle_message_data_forwards_same_bytes() {
    let mut s = ServerState::new();
    s.register(mac(1), ep(1), 0);
    s.register(mac(2), ep(2), 0);
    let f = frame(mac(2), mac(1));
    let out = s.handle_message(Message::Data { ethernet_frame: f.clone() }, ep(1), 5);
    assert_eq!(out.len(), 1);
    assert_eq!(out[0].0, ep(2));
    match &out[0].1 {
        Message::Data { ethernet_frame } => assert_eq!(*ethernet_frame, f),
        _ => panic!("expected Data"),
    }
}

#[test]
fn handle_message_ping_earns_pong_only_when_registered() {
    let mut s = ServerState::new();
    s.register(mac(1), ep(1), 0);
    let out = s.handle_message(Message::Ping, ep(1), 7);
    assert_eq!(out.len(), 1);
    assert_eq!(out[0].0, ep(1));
    assert!(matches!(out[0].1, Message::Pong));
    let out = s.handle_message(Message::Ping, ep(9), 8);
    assert!(out.is_empty());
}

#[test]
fn handle_message_ignores_unexpected_variants() {
    let mut s = ServerState::new();
    let out = s.handle_message(Message::Pong, ep(1), 0);
    assert!(out.is_empty());
    let out = s.handle_message(
        Message::RegisterSuccess { ip: ip(10, 123, 123, 1), subnet_mask: ip(255, 255, 255, 0) },
        ep(1),
        0,
    );
    assert!(out.is_empty());
}

#[test]
fn overlay_constants() {
    assert_eq!(simple_p2p::server::subnet(), ip(10, 123, 123, 0));
    assert_eq!(simple_p2p::server::subnet_mask(), ip(255, 255, 255, 0));
}

use atlas_sdk::discovery::{
    Broadcaster, DiscoveryPacket, Listener, PacketOutcome, BROADCAST_INTERVAL_SECS, DISCOVERY_PORT,
    PEER_TTL_SECS, TRANSPORT_PORT,
};
use atlas_sdk::ip::{ipv4_from_octets, IpAddress, SocketAddress};
use atlas_sdk::registry::{Peer, PeerRegistry};
use atlas_sdk::subnet::{network_info_from_interface, Ipv4Prefix};

fn addr(d: u8, port: u16) -> SocketAddress {
    SocketAddress { ip: IpAddress::V4(ipv4_from_octets(192, 168, 1, d)), port }
}

fn peer(id: &str, name: &str, last_seen: u64) -> Peer {
    Peer { id: id.to_string(), name: name.to_string(), address: addr(9, 5000), last_seen }
}

fn packet(id: &str, name: &str) -> DiscoveryPacket {
    DiscoveryPacket { id: id.to_string(), name: name.to_string(), version: "0.1".to_string() }
}

#[test]
fn registry_update_replaces_and_counts() {
    let mut r = PeerRegistry::new();
    assert_eq!(r.count(), 0);
    r.update(peer("a", "Alpha", 1));
    r.update(peer("b", "Beta", 2));
    assert_eq!(r.count(), 2);
    r.update(peer("a", "Alpha2", 3));
    assert_eq!(r.count(), 2);
    let peers = r.peers();
    let a = peers.iter().find(|p| p.id == "a").unwrap();
    assert_eq!(a.name, "Alpha2");
    assert_eq!(a.last_seen, 3);
    assert!(r.contains("b"));
    assert!(!r.contains("c"));
}

#[test]
fn registry_remove() {
    let mut r = PeerRegistry::new();
    r.update(peer("a", "Alpha", 1));
    r.update(peer("b", "Beta", 2));
    r.remove("a");
    assert_eq!(r.count(), 1);
    assert!(!r.contains("a"));
    assert!(r.contains("b"));
    r.remove("zzz");
    assert_eq!(r.count(), 1);
}

#[test]
fn prune_drops_exactly_the_stale_peers() {
    let mut r = PeerRegistry::new();
    r.update(peer("old", "Old", 100));
    r.update(peer("edge", "Edge", 110));
    r.update(peer("new", "New", 119));
    r.update(peer("future", "Future", 500));
    r.prune_stale_at(120, 10);
    assert!(!r.contains("old"));
    assert!(r.contains("edge"));
    assert!(r.contains("new"));
    assert!(r.contains("future"));
    assert_eq!(r.count(), 3);
    r.prune_stale_at(120, 10);
    assert_eq!(r.count(), 3);
}

#[test]
fn prune_by_clock_keeps_recent_peers() {
    let mut r = PeerRegistry::new();
    r.update(peer("ancient", "Ancient", 0));
    r.update(peer("soon", "Soon", u64::MAX));
    r.prune_stale(PEER_TTL_SECS);
    assert!(!r.contains("ancient"));
    assert!(r.contains("soon"));
}

#[test]
fn listener_ignores_own_broadcast() {
    let mut r = PeerRegistry::new();
    let out = Listener::record_packet(packet("me", "Me"), addr(2, 47000), "me", 10, &mut r);
    assert_eq!(out, PacketOutcome::OwnBroadcast);
    assert_eq!(r.count(), 0);
}

#[test]
fn listener_records_peer_and_connects_once() {
    let mut r = PeerRegistry::new();
    let out = Listener::record_packet(packet("p1", "Laptop"), addr(3, 51000), "me", 10, &mut r);
    assert_eq!(
        out,
        PacketOutcome::Recorded { first_time: true, connect_to: addr(3, TRANSPORT_PORT) }
    );
    let out = Listener::record_packet(packet("p1", "Laptop"), addr(3, 51001), "me", 12, &mut r);
    assert_eq!(
        out,
        PacketOutcome::Recorded { first_time: false, connect_to: addr(3, TRANSPORT_PORT) }
    );
    assert_eq!(r.count(), 1);
    let peers = r.peers();
    assert_eq!(peers[0].last_seen, 12);
    assert_eq!(peers[0].address, addr(3, 51001));
    assert_eq!(peers[0].name, "Laptop");
}

#[test]
fn listener_handle_packet_uses_clock() {
    let mut r = PeerRegistry::new();
    let out = Listener::handle_packet(packet("p2", "Phone"), addr(4, 47000), "me", &mut r);
    assert!(matches!(out, PacketOutcome::Recorded { first_time: true, .. }));
    assert!(r.peers()[0].last_seen > 1_600_000_000);
}

#[test]
fn announcement_carries_version() {
    let p = Broadcaster::announcement(&"id-1".to_string(), &"Ghost-PC".to_string());
    assert_eq!(p.id, "id-1");
    assert_eq!(p.name, "Ghost-PC");
    assert_eq!(p.version, "0.1");
}

#[test]
fn broadcast_targets_global_and_subnet() {
    let only_global = Broadcaster::broadcast_targets(None);
    assert_eq!(
        only_global,
        vec![SocketAddress { ip: IpAddress::V4(u32::MAX), port: DISCOVERY_PORT }]
    );
    let ni = network_info_from_interface(
        "eth0".to_string(),
        &vec![Ipv4Prefix { addr: ipv4_from_octets(192, 168, 1, 42), prefix_len: 24 }],
        None,
    )
    .unwrap();
    let both = Broadcaster::broadcast_targets(Some(&ni));
    assert_eq!(both.len(), 2);
    assert_eq!(both[0], SocketAddress { ip: IpAddress::V4(u32::MAX), port: 47000 });
    assert_eq!(
        both[1],
        SocketAddress { ip: IpAddress::V4(ipv4_from_octets(192, 168, 1, 255)), port: 47000 }
    );
}

#[test]
fn ttl_is_five_beats() {
    assert_eq!(PEER_TTL_SECS, 5 * BROADCAST_INTERVAL_SECS);
}

#[test]
fn second_announcement_from_elsewhere_is_not_first() {
    let mut r = PeerRegistry::new();
    Listener::record_packet(packet("p7", "Old name"), addr(5, 50000), "me", 3, &mut r);
    let out = Listener::record_packet(packet("p7", "New name"), addr(6, 50001), "me", 1, &mut r);
    assert_eq!(out, PacketOutcome::Recorded { first_time: false, connect_to: addr(6, TRANSPORT_PORT) });
    assert_eq!(r.count(), 1);
    let peers = r.peers();
    assert_eq!((peers[0].name.as_str(), peers[0].address, peers[0].last_seen), ("New name", addr(6, 50001), 1));
}

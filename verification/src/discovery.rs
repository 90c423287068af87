//! Atlas discovery over UDP broadcast: the announcement each device sends,
//! where it sends it, and what the listener does with an announcement it
//! receives. Sockets, threads and JSON live outside the library; the
//! decisions are here.

use vstd::prelude::*;
use vstd::string::StringExecFns;

use crate::clock::unix_time_secs;
use crate::ip::{IpAddress, SocketAddress};
use crate::registry::{Peer, PeerRecord, PeerRegistry};
use crate::subnet::{block_size, lemma_network_block, spec_network_info, Ipv4Prefix, NetworkInfo};
use crate::text::str_eq;

verus! {

/// UDP port discovery announcements are sent to and received on.
pub const DISCOVERY_PORT: u16 = 47000;

/// TCP port of the Atlas transport server, which a newly seen peer is
/// connected to.
pub const TRANSPORT_PORT: u16 = 47001;

/// Seconds between two announcements.
pub const BROADCAST_INTERVAL_SECS: u64 = 2;

/// Seconds between two prunings of the registry.
pub const PRUNE_INTERVAL_SECS: u64 = 5;

/// A peer not heard from for this many seconds (five missed announcements)
/// counts as offline.
pub const PEER_TTL_SECS: u64 = 10;

/// The protocol version announcements carry.
pub open spec fn spec_protocol_version() -> Seq<char> {
    "0.1"@
}

/// The announcement a device broadcasts.
#[derive(Clone, Debug)]
pub struct DiscoveryPacket {
    pub id: String,
    pub name: String,
    pub version: String,
}

/// Sends this device's announcement periodically.
pub struct Broadcaster;

impl Broadcaster {
    /// The announcement of the device `device_id` named `device_name`.
    pub fn announcement(device_id: &String, device_name: &String) -> (r: DiscoveryPacket)
        ensures
            r.id@ == device_id@,
            r.name@ == device_name@,
            r.version@ == spec_protocol_version(),
    {
        DiscoveryPacket {
            id: device_id.clone(),
            name: device_name.clone(),
            version: String::from_str("0.1"),
        }
    }

    /// Where announcements go: the global broadcast address
    /// 255.255.255.255 and, when the active network is known, its
    /// subnet-directed broadcast address as well (most routers forward the
    /// latter even where they block global broadcast).
    pub fn broadcast_targets(network: Option<&NetworkInfo>) -> (r: Vec<SocketAddress>)
        ensures
            r@ == spec_broadcast_targets(network),
    {
        let mut targets = Vec::new();
        targets.push(SocketAddress { ip: IpAddress::V4(0xffff_ffff), port: DISCOVERY_PORT });
        if let Some(net) = network {
            targets.push(SocketAddress { ip: IpAddress::V4(net.broadcast_addr), port: DISCOVERY_PORT });
        }
        targets
    }
}

/// What `broadcast_targets` returns.
pub open spec fn spec_broadcast_targets(network: Option<&NetworkInfo>) -> Seq<SocketAddress> {
    let global = SocketAddress { ip: IpAddress::V4(0xffff_ffff), port: DISCOVERY_PORT };
    match network {
        Some(net) => seq![
            global,
            SocketAddress { ip: IpAddress::V4(net.broadcast_addr), port: DISCOVERY_PORT },
        ],
        None => seq![global],
    }
}

/// Announcements go first to the global broadcast address and then, when
/// the network is known, to that network's own broadcast address, both on
/// the discovery port, and nowhere else.
pub proof fn lemma_broadcast_targets(network: Option<&NetworkInfo>)
    ensures
        spec_broadcast_targets(network).len() == (if network is Some { 2int } else { 1int }),
        spec_broadcast_targets(network)[0] == (SocketAddress { ip: IpAddress::V4(0xffff_ffff), port: 47000 }),
        network matches Some(net) ==> spec_broadcast_targets(network)[1] == (SocketAddress {
            ip: IpAddress::V4(net.broadcast_addr),
            port: 47000,
        }),
{
}

/// For the network of an interface address, the subnet-directed target is
/// the last address of the aligned block the prefix length makes around
/// the local address, the one all hosts of that subnet receive.
pub proof fn lemma_directed_broadcast_is_last_address(
    interface_name: String,
    addr: Ipv4Prefix,
    gateway: Option<IpAddress>,
)
    requires
        addr.prefix_len <= 32,
    ensures
        ({
            let net = spec_network_info(interface_name, addr, gateway);
            let target = spec_broadcast_targets(Some(&net))[1];
            &&& target.port == 47000
            &&& target.ip matches IpAddress::V4(b)
            &&& b as nat == addr.addr as nat - addr.addr as nat % block_size(addr.prefix_len)
                + block_size(addr.prefix_len) - 1
        }),
{
    lemma_network_block(addr.addr, addr.prefix_len);
}

/// What the listener made of an announcement.
#[derive(Clone, Copy, Debug, PartialEq, Eq, Structural)]
pub enum PacketOutcome {
    /// The announcement was this device's own; it was ignored.
    OwnBroadcast,
    /// The sender was recorded. `first_time` tells whether it was unknown
    /// before, in which case a transport connection to `connect_to` is
    /// due.
    Recorded { first_time: bool, connect_to: SocketAddress },
}

/// What handling an announcement from the device `id` named `name`,
/// received from `address` at `now`, yields, and the registry it leaves:
/// the device's own announcement is ignored; any other sender is recorded
/// (name, address, `now`), and reported as seen for the first time when
/// the registry did not know its ID, with the transport port at its
/// address to connect to.
pub open spec fn spec_record_packet(
    registry: Map<Seq<char>, PeerRecord>,
    id: Seq<char>,
    name: Seq<char>,
    address: SocketAddress,
    local_device_id: Seq<char>,
    now: u64,
) -> (PacketOutcome, Map<Seq<char>, PeerRecord>) {
    if id == local_device_id {
        (PacketOutcome::OwnBroadcast, registry)
    } else {
        (
            PacketOutcome::Recorded {
                first_time: !registry.contains_key(id),
                connect_to: SocketAddress { ip: address.ip, port: TRANSPORT_PORT },
            },
            registry.insert(id, (name, address, now)),
        )
    }
}

/// Receives announcements and keeps the peer registry up to date.
pub struct Listener;

impl Listener {
    /// Handles an announcement received from `address`, heard at `now`:
    /// the device's own announcement is ignored; any other sender is
    /// recorded (name, address, `now`), and reported as seen for the first
    /// time when the registry did not know its ID.
    pub fn record_packet(
        packet: DiscoveryPacket,
        address: SocketAddress,
        local_device_id: &str,
        now: u64,
        registry: &mut PeerRegistry,
    ) -> (r: PacketOutcome)
        ensures
            (r, final(registry)@) == spec_record_packet(
                old(registry)@,
                packet.id@,
                packet.name@,
                address,
                local_device_id@,
                now,
            ),
    {
        if str_eq(packet.id.as_str(), local_device_id) {
            return PacketOutcome::OwnBroadcast;
        }
        let first_time = !registry.contains(packet.id.as_str());
        let peer = Peer { id: packet.id, name: packet.name, address, last_seen: now };
        registry.update(peer);
        PacketOutcome::Recorded {
            first_time,
            connect_to: SocketAddress { ip: address.ip, port: TRANSPORT_PORT },
        }
    }

    /// Handles an announcement received from `address` now, by the system
    /// clock.
    pub fn handle_packet(
        packet: DiscoveryPacket,
        address: SocketAddress,
        local_device_id: &str,
        registry: &mut PeerRegistry,
    ) -> (r: PacketOutcome)
        ensures
            exists|now: u64|
                (r, final(registry)@) == spec_record_packet(
                    old(registry)@,
                    packet.id@,
                    packet.name@,
                    address,
                    local_device_id@,
                    now,
                ),
    {
        let now = unix_time_secs();
        Self::record_packet(packet, address, local_device_id, now, registry)
    }
}

/// Broadcasting, listening and pruning together.
pub struct DiscoveryService;

/// A peer counts as offline after missing five announcements in a row.
pub proof fn lemma_ttl_is_five_missed_announcements()
    ensures
        PEER_TTL_SECS == 5 * BROADCAST_INTERVAL_SECS,
{
}

/// An announcement from another device is reported as the first from it
/// exactly when the registry did not hold its ID, whatever other peers the
/// registry holds: then, and only then, the registry grows by one. The
/// sender's record afterwards is what it announced, every other peer's
/// record is untouched, and a transport connection is due at the sender's
/// address, on the transport port. The device's own announcement changes
/// nothing.
pub proof fn lemma_first_time_exactly_when_unknown(
    registry: Map<Seq<char>, PeerRecord>,
    id: Seq<char>,
    name: Seq<char>,
    address: SocketAddress,
    local_device_id: Seq<char>,
    now: u64,
    other: Seq<char>,
)
    requires
        registry.dom().finite(),
    ensures
        ({
            let (outcome, after) = spec_record_packet(registry, id, name, address, local_device_id, now);
            &&& id == local_device_id ==> outcome == PacketOutcome::OwnBroadcast && after == registry
            &&& id != local_device_id ==> {
                &&& outcome matches PacketOutcome::Recorded { first_time, connect_to }
                &&& (first_time <==> !registry.contains_key(id))
                &&& (first_time <==> after.len() == registry.len() + 1)
                &&& (!first_time <==> after.len() == registry.len())
                &&& connect_to.ip == address.ip && connect_to.port == 47001
                &&& after.contains_key(id) && after[id] == (name, address, now)
                &&& other != id ==> (after.contains_key(other) <==> registry.contains_key(other))
                &&& other != id && registry.contains_key(other) ==> after[other] == registry[other]
            }
        }),
{
    if id != local_device_id && registry.contains_key(id) {
        assert(registry.insert(id, (name, address, now)).dom() =~= registry.dom());
    }
}

/// Once a sender has been recorded, a later announcement from the same
/// device is no longer its first, wherever and whenever it comes from: a
/// transport connection is attempted only once per peer while it stays in
/// the registry. The registry then holds what the later announcement said.
pub proof fn lemma_first_time_only_once(
    registry: Map<Seq<char>, PeerRecord>,
    id: Seq<char>,
    local_device_id: Seq<char>,
    name1: Seq<char>,
    address1: SocketAddress,
    now1: u64,
    name2: Seq<char>,
    address2: SocketAddress,
    now2: u64,
)
    requires
        id != local_device_id,
    ensures
        ({
            let after_first = spec_record_packet(registry, id, name1, address1, local_device_id, now1).1;
            let second = spec_record_packet(after_first, id, name2, address2, local_device_id, now2);
            &&& second.0 == (PacketOutcome::Recorded {
                first_time: false,
                connect_to: SocketAddress { ip: address2.ip, port: TRANSPORT_PORT },
            })
            &&& second.1 == registry.insert(id, (name2, address2, now2))
        }),
{
    let after_first = spec_record_packet(registry, id, name1, address1, local_device_id, now1).1;
    assert(after_first.insert(id, (name2, address2, now2)) =~= registry.insert(
        id,
        (name2, address2, now2),
    ));
}

} // verus!

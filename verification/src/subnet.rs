//! Active network and subnet arithmetic: the IPv4 network an interface
//! address lies in, its mask, network and broadcast addresses, membership,
//! and the list of host addresses a scan walks through.
//!
//! The CIDR arithmetic is `ipnet`'s; what this module adds, and proves, is
//! how the scanner uses it: which prefixes are refused, how many hosts a
//! subnet has, and exactly which addresses are enumerated.

use vstd::prelude::*;
use vstd::arithmetic::power2::pow2;
use vstd::bits::{
    low_bits_mask, lemma_u32_low_bits_mask_is_mod, lemma_u32_pow2_no_overflow,
    lemma_u32_shl_is_mul, lemma_u64_pow2_no_overflow, lemma_u64_shl_is_mul,
};

use crate::ip::IpAddress;

verus! {

/// The largest number of host addresses a single scan will enumerate.
/// A /16 (65,534 hosts) is allowed; anything larger is refused.
pub const MAX_SCANNABLE_HOSTS: u64 = 65_534;

/// Errors that can occur while detecting the active network or expanding it
/// into a host list.
#[derive(Debug)]
pub enum SubnetError {
    /// The default network interface could not be queried.
    InterfaceDetection(String),
    /// The default interface has no IPv4 address assigned.
    NoIpv4Address,
    /// The prefix length is above 32.
    InvalidPrefix(u8),
    /// The subnet holds more hosts than a scan will enumerate.
    SubnetTooLarge(u8, u64),
}

/// An IPv4 address of an interface together with its prefix length.
#[derive(Clone, Copy, Debug, PartialEq, Eq, Structural)]
pub struct Ipv4Prefix {
    pub addr: u32,
    pub prefix_len: u8,
}

/// Everything the scanner needs to know about the network it runs on.
/// Addresses are IPv4 addresses as big-endian `u32` values.
#[derive(Clone, Debug, PartialEq, Eq)]
pub struct NetworkInfo {
    /// OS-level interface name, e.g. `"eth0"`, `"en0"`, `"Ethernet"`.
    pub interface_name: String,
    /// The local machine's IPv4 address on this interface.
    pub local_ip: u32,
    /// CIDR prefix length, e.g. `24` for a /24.
    pub prefix_len: u8,
    /// Subnet mask derived from `prefix_len`, e.g. `255.255.255.0`.
    pub subnet_mask: u32,
    /// Network address of the subnet, e.g. `192.168.1.0`.
    pub network_addr: u32,
    /// Broadcast address of the subnet, e.g. `192.168.1.255`.
    pub broadcast_addr: u32,
    /// Default gateway, if one could be determined.
    pub gateway: Option<u32>,
}

// ---------------------------------------------------------------------
// The CIDR arithmetic of `ipnet::Ipv4Net`, as its source computes it.
// ---------------------------------------------------------------------

/// Netmask of a prefix length: `u32::MAX` shifted left by `32 - prefix_len`
/// bits, or 0 when that shift is 32 bits.
pub open spec fn spec_netmask(prefix_len: u8) -> u32 {
    if prefix_len == 0 {
        0
    } else {
        0xffff_ffffu32 << ((32 - prefix_len) as u32)
    }
}

/// Host mask of a prefix length: `u32::MAX` shifted right by `prefix_len`
/// bits, or 0 when that shift is 32 bits.
pub open spec fn spec_hostmask(prefix_len: u8) -> u32 {
    if prefix_len >= 32 {
        0
    } else {
        0xffff_ffffu32 >> (prefix_len as u32)
    }
}

/// Network address: the address with its host bits cleared.
pub open spec fn spec_network(addr: u32, prefix_len: u8) -> u32 {
    addr & spec_netmask(prefix_len)
}

/// Broadcast address: the address with its host bits set.
pub open spec fn spec_broadcast(addr: u32, prefix_len: u8) -> u32 {
    addr | spec_hostmask(prefix_len)
}

/// The addresses `start..=end` in ascending order (empty when `start > end`).
pub open spec fn spec_addr_range(start: u32, end: u32) -> Seq<u32> {
    if start <= end {
        Seq::new((end - start + 1) as nat, |i: int| (start + i) as u32)
    } else {
        Seq::empty()
    }
}

/// `u32::saturating_add(x, 1)`.
pub open spec fn spec_succ_sat(x: u32) -> u32 {
    if x == u32::MAX { x } else { (x + 1) as u32 }
}

/// `u32::saturating_sub(x, 1)`.
pub open spec fn spec_pred_sat(x: u32) -> u32 {
    if x == 0 { x } else { (x - 1) as u32 }
}

/// What `Ipv4Net::hosts` iterates over: network through broadcast, both
/// excluded when the prefix is below 31.
pub open spec fn spec_ipnet_hosts(addr: u32, prefix_len: u8) -> Seq<u32> {
    let network = spec_network(addr, prefix_len);
    let broadcast = spec_broadcast(addr, prefix_len);
    if prefix_len < 31 {
        spec_addr_range(spec_succ_sat(network), spec_pred_sat(broadcast))
    } else {
        spec_addr_range(network, broadcast)
    }
}

// ---------------------------------------------------------------------
// The same arithmetic in terms of block sizes.
// ---------------------------------------------------------------------

/// Number of addresses in a network with this prefix: 2^(32 - prefix_len).
pub open spec fn block_size(prefix_len: u8) -> nat {
    pow2((32 - prefix_len) as nat)
}

/// Number of usable host addresses: every address for /31 and /32, all but
/// the network and broadcast addresses below that.
pub open spec fn spec_usable_host_count(prefix_len: u8) -> nat {
    if prefix_len >= 32 {
        1
    } else if prefix_len == 31 {
        2
    } else {
        (block_size(prefix_len) - 2) as nat
    }
}

/// The usable host addresses of the network containing `addr`, ascending:
/// every address of the block for /31 and /32; network + 1 through
/// broadcast - 1 below that.
pub open spec fn spec_usable_hosts(addr: u32, prefix_len: u8) -> Seq<u32> {
    let network = spec_network(addr, prefix_len);
    if prefix_len >= 31 {
        Seq::new(block_size(prefix_len), |i: int| (network + i) as u32)
    } else {
        Seq::new((block_size(prefix_len) - 2) as nat, |i: int| (network + 1 + i) as u32)
    }
}

/// Whether `ip` lies in the network of `addr`/`prefix_len`.
pub open spec fn spec_in_network(addr: u32, prefix_len: u8, ip: u32) -> bool {
    spec_network(addr, prefix_len) <= ip <= spec_broadcast(addr, prefix_len)
}

/// Network and broadcast addresses are the two ends of an aligned block of
/// `block_size` addresses around `addr`.
pub proof fn lemma_network_block(addr: u32, prefix_len: u8)
    requires
        prefix_len <= 32,
    ensures
        spec_network(addr, prefix_len) as nat == addr as nat - addr as nat % block_size(prefix_len),
        spec_broadcast(addr, prefix_len) as nat == spec_network(addr, prefix_len) as nat
            + block_size(prefix_len) - 1,
        1 <= block_size(prefix_len) <= 0x1_0000_0000,
        prefix_len < 32 ==> block_size(prefix_len) >= 2,
        prefix_len < 31 ==> block_size(prefix_len) >= 4,
        prefix_len >= 31 ==> block_size(prefix_len) == (if prefix_len == 31 { 2nat } else { 1nat }),
{
    let k: u64 = (32 - prefix_len) as u64;
    lemma_u64_pow2_no_overflow(k as nat);
    lemma_u64_shl_is_mul(1, k);
    assert(k <= 32 ==> 1u64 << k <= 0x1_0000_0000u64) by (bit_vector);
    assert(k >= 1 && k <= 32 ==> 1u64 << k >= 2) by (bit_vector);
    assert(k >= 2 && k <= 32 ==> 1u64 << k >= 4) by (bit_vector);
    assert(k == 1 ==> 1u64 << k == 2) by (bit_vector);
    assert(k == 0 ==> 1u64 << k == 1) by (bit_vector);
    assert(k == 32 ==> 1u64 << k == 0x1_0000_0000u64) by (bit_vector);
    assert(block_size(prefix_len) == 1u64 << k);
    if prefix_len == 0 {
        assert(addr & 0u32 == 0u32) by (bit_vector);
        assert(addr | (0xffff_ffffu32 >> 0u32) == 0xffff_ffffu32) by (bit_vector);
        assert(addr as nat % 0x1_0000_0000nat == addr as nat);
        assert(spec_broadcast(addr, prefix_len) == 0xffff_ffffu32);
        assert(spec_network(addr, prefix_len) == 0);
    } else if prefix_len == 32 {
        assert(addr & (0xffff_ffffu32 << 0u32) == addr) by (bit_vector);
        assert(addr | 0u32 == addr) by (bit_vector);
        assert(spec_broadcast(addr, prefix_len) == addr);
        assert(spec_network(addr, prefix_len) == addr);
    } else {
        let kk: u32 = (32 - prefix_len) as u32;
        let pp: u32 = prefix_len as u32;
        lemma_u32_pow2_no_overflow(kk as nat);
        lemma_u32_shl_is_mul(1, kk);
        lemma_u32_low_bits_mask_is_mod(addr, kk as nat);
        assert(block_size(prefix_len) == pow2(kk as nat));
        assert(low_bits_mask(kk as nat) as u32 == (1u32 << kk) - 1);
        let low: u32 = addr & (((1u32 << kk) - 1) as u32);
        assert(low == addr % (pow2(kk as nat) as u32));
        assert(low as nat == addr as nat % pow2(kk as nat));
        assert(spec_netmask(prefix_len) == 0xffff_ffffu32 << kk);
        assert(spec_hostmask(prefix_len) == 0xffff_ffffu32 >> pp);
        assert((1u32 << kk) - 1 == 0xffff_ffffu32 >> pp) by (bit_vector)
            requires
                1 <= kk < 32,
                pp == 32 - kk,
        ;
        assert((addr & (0xffff_ffffu32 << kk)) as u64 + (addr & (((1u32 << kk) - 1) as u32)) as u64
            == addr as u64) by (bit_vector)
            requires
                1 <= kk < 32,
        ;
        assert((addr | (((1u32 << kk) - 1) as u32)) as u64 == (addr & (0xffff_ffffu32 << kk)) as u64
            + (((1u32 << kk) - 1) as u32) as u64) by (bit_vector)
            requires
                1 <= kk < 32,
        ;
        assert(spec_hostmask(prefix_len) == (((1u32 << kk) - 1) as u32));
        assert(spec_broadcast(addr, prefix_len) == (addr | (((1u32 << kk) - 1) as u32)));
        assert(spec_broadcast(addr, prefix_len) as nat == spec_network(addr, prefix_len) as nat
            + pow2(kk as nat) - 1);
    }
}

/// The hosts `ipnet` iterates over are exactly the usable hosts.
proof fn lemma_ipnet_hosts_are_usable(addr: u32, prefix_len: u8)
    requires
        prefix_len <= 32,
    ensures
        spec_ipnet_hosts(addr, prefix_len) =~= spec_usable_hosts(addr, prefix_len),
{
    lemma_network_block(addr, prefix_len);
    let network = spec_network(addr, prefix_len);
    let broadcast = spec_broadcast(addr, prefix_len);
    if prefix_len < 31 {
        assert(spec_succ_sat(network) == network + 1);
        assert(spec_pred_sat(broadcast) == broadcast - 1);
    }
}

// ---------------------------------------------------------------------
// Verified operations.
// ---------------------------------------------------------------------

/// Number of usable host addresses in a network with this prefix length,
/// matching the semantics of [`enumerate_hosts`] (network and broadcast
/// excluded for prefixes below /31).
fn usable_host_count(prefix_len: u8) -> (r: u64)
    requires
        prefix_len <= 32,
    ensures
        r == spec_usable_host_count(prefix_len),
{
    if prefix_len >= 32 {
        return 1;
    }
    if prefix_len == 31 {
        return 2;
    }
    let host_bits: u64 = 32 - prefix_len as u64;
    proof {
        lemma_network_block(0, prefix_len);
        lemma_u64_pow2_no_overflow(host_bits as nat);
        lemma_u64_shl_is_mul(1, host_bits);
    }
    (1u64 << host_bits) - 2
}

impl NetworkInfo {
    /// Total number of usable host addresses in this subnet, excluding the
    /// network and broadcast addresses (for prefixes below 31); 0 when the
    /// prefix length is invalid.
    pub fn host_count(&self) -> (r: u64)
        ensures
            r == spec_host_count(self),
    {
        match ipv4_net_new(self.network_addr, self.prefix_len) {
            Ok(()) => usable_host_count(self.prefix_len),
            Err(_) => 0,
        }
    }

    /// Returns true if `ip` falls within this subnet (false when the prefix
    /// length is invalid).
    pub fn contains(&self, ip: u32) -> (r: bool)
        ensures
            r == spec_contains(self, ip),
    {
        match ipv4_net_new(self.network_addr, self.prefix_len) {
            Ok(()) => ipv4_net_contains(self.network_addr, self.prefix_len, ip),
            Err(_) => false,
        }
    }
}

/// What `host_count` returns.
pub open spec fn spec_host_count(info: &NetworkInfo) -> nat {
    if info.prefix_len <= 32 {
        spec_usable_host_count(info.prefix_len)
    } else {
        0
    }
}

/// What `contains` returns.
pub open spec fn spec_contains(info: &NetworkInfo, ip: u32) -> bool {
    info.prefix_len <= 32 && spec_in_network(info.network_addr, info.prefix_len, ip)
}

/// Expands a [`NetworkInfo`] into the list of host addresses to scan, in
/// ascending order, excluding the network and broadcast addresses for
/// prefixes below /31. The local machine's own address is included.
///
/// Fails with `InvalidPrefix` when the prefix is above 32, and with
/// `SubnetTooLarge` when the subnet has more than [`MAX_SCANNABLE_HOSTS`]
/// usable hosts.
pub fn enumerate_hosts(network_info: &NetworkInfo) -> (r: Result<Vec<u32>, SubnetError>)
    ensures
        network_info.prefix_len > 32 ==> (r matches Err(SubnetError::InvalidPrefix(p)) && p
            == network_info.prefix_len),
        network_info.prefix_len <= 32 && spec_usable_host_count(network_info.prefix_len)
            > MAX_SCANNABLE_HOSTS ==> (r matches Err(SubnetError::SubnetTooLarge(p, c)) && p
            == network_info.prefix_len && c == spec_usable_host_count(network_info.prefix_len)),
        network_info.prefix_len <= 32 && spec_usable_host_count(network_info.prefix_len)
            <= MAX_SCANNABLE_HOSTS ==> (r matches Ok(hosts) && hosts@ == spec_usable_hosts(
            network_info.network_addr,
            network_info.prefix_len,
        )),
{
    let addr = network_info.network_addr;
    let prefix_len = network_info.prefix_len;
    match ipv4_net_new(addr, prefix_len) {
        Ok(()) => {},
        Err(_) => {
            return Err(SubnetError::InvalidPrefix(prefix_len));
        },
    }
    let count = usable_host_count(prefix_len);
    if count > MAX_SCANNABLE_HOSTS {
        return Err(SubnetError::SubnetTooLarge(prefix_len, count));
    }
    let all = ipv4_net_hosts(addr, prefix_len);
    proof {
        lemma_ipnet_hosts_are_usable(addr, prefix_len);
        lemma_network_block(addr, prefix_len);
    }
    if prefix_len == 31 || prefix_len == 32 {
        // No distinct network/broadcast address: every address in the
        // range is a usable host (RFC 3021 for /31).
        return Ok(all);
    }
    let network = ipv4_net_network(addr, prefix_len);
    let broadcast = ipv4_net_broadcast(addr, prefix_len);
    let mut hosts: Vec<u32> = Vec::new();
    let mut i: usize = 0;
    while i < all.len()
        invariant
            i <= all.len(),
            all@ == spec_usable_hosts(addr, prefix_len),
            prefix_len < 31,
            network == spec_network(addr, prefix_len),
            broadcast as nat == network as nat + block_size(prefix_len) - 1,
            block_size(prefix_len) >= 4,
            hosts@ == all@.take(i as int),
        decreases all.len() - i,
    {
        let ip = all[i];
        if ip != network && ip != broadcast {
            hosts.push(ip);
        }
        assert(all@.take(i + 1) =~= all@.take(i as int).push(ip));
        i = i + 1;
    }
    assert(all@.take(all.len() as int) =~= all@);
    Ok(hosts)
}

/// Builds the [`NetworkInfo`] of an interface from what the OS reports for
/// it: its name, its IPv4 addresses (the first one is used) and its
/// gateway (kept only when it is an IPv4 address).
///
/// Fails with `NoIpv4Address` when the interface has no IPv4 address, and
/// with `InvalidPrefix` when the first address has a prefix above 32.
pub fn network_info_from_interface(
    interface_name: String,
    ipv4: &Vec<Ipv4Prefix>,
    gateway: Option<IpAddress>,
) -> (r: Result<NetworkInfo, SubnetError>)
    ensures
        ipv4@.len() == 0 ==> r matches Err(SubnetError::NoIpv4Address),
        ipv4@.len() > 0 && ipv4@[0].prefix_len > 32 ==> (r matches Err(SubnetError::InvalidPrefix(p))
            && p == ipv4@[0].prefix_len),
        ipv4@.len() > 0 && ipv4@[0].prefix_len <= 32 ==> (r matches Ok(info) && info == spec_network_info(
            interface_name,
            ipv4@[0],
            gateway,
        )),
{
    if ipv4.len() == 0 {
        return Err(SubnetError::NoIpv4Address);
    }
    let first = ipv4[0];
    let local_ip = first.addr;
    let prefix_len = first.prefix_len;
    match ipv4_net_new(local_ip, prefix_len) {
        Ok(()) => {},
        Err(_) => {
            return Err(SubnetError::InvalidPrefix(prefix_len));
        },
    }
    let gateway = match gateway {
        Some(IpAddress::V4(v4)) => Some(v4),
        _ => None,
    };
    Ok(
        NetworkInfo {
            interface_name,
            local_ip,
            prefix_len,
            subnet_mask: ipv4_net_netmask(local_ip, prefix_len),
            network_addr: ipv4_net_network(local_ip, prefix_len),
            broadcast_addr: ipv4_net_broadcast(local_ip, prefix_len),
            gateway,
        },
    )
}

/// The [`NetworkInfo`] of an interface whose first IPv4 address is `addr`.
pub open spec fn spec_network_info(
    interface_name: String,
    addr: Ipv4Prefix,
    gateway: Option<IpAddress>,
) -> NetworkInfo {
    NetworkInfo {
        interface_name,
        local_ip: addr.addr,
        prefix_len: addr.prefix_len,
        subnet_mask: spec_netmask(addr.prefix_len),
        network_addr: spec_network(addr.addr, addr.prefix_len),
        broadcast_addr: spec_broadcast(addr.addr, addr.prefix_len),
        gateway: match gateway {
            Some(IpAddress::V4(v4)) => Some(v4),
            _ => None,
        },
    }
}

// ---------------------------------------------------------------------
// Laws.
// ---------------------------------------------------------------------

/// The number `host_count` reports is the length of the list
/// `enumerate_hosts` returns for the same network.
pub proof fn lemma_host_count_matches_enumeration(info: &NetworkInfo)
    requires
        info.prefix_len <= 32,
    ensures
        spec_usable_hosts(info.network_addr, info.prefix_len).len() == spec_host_count(info),
{
    lemma_network_block(info.network_addr, info.prefix_len);
}

/// Every enumerated host lies in the subnet, and below /31 it is neither
/// the network nor the broadcast address.
pub proof fn lemma_enumerated_hosts_in_subnet(info: &NetworkInfo, i: int)
    requires
        info.prefix_len <= 32,
        0 <= i < spec_usable_hosts(info.network_addr, info.prefix_len).len(),
    ensures
        spec_contains(info, spec_usable_hosts(info.network_addr, info.prefix_len)[i]),
        info.prefix_len < 31 ==> spec_usable_hosts(info.network_addr, info.prefix_len)[i]
            != spec_network(info.network_addr, info.prefix_len),
        info.prefix_len < 31 ==> spec_usable_hosts(info.network_addr, info.prefix_len)[i]
            != spec_broadcast(info.network_addr, info.prefix_len),
{
    lemma_network_block(info.network_addr, info.prefix_len);
}

/// Every address of the subnet that is a usable host is enumerated, at its
/// offset from the first host; in particular the local machine's own
/// address is, when it is a usable host of the subnet.
pub proof fn lemma_enumeration_complete(info: &NetworkInfo, ip: u32)
    requires
        spec_contains(info, ip),
        info.prefix_len < 31 ==> ip != spec_network(info.network_addr, info.prefix_len) && ip
            != spec_broadcast(info.network_addr, info.prefix_len),
    ensures
        spec_usable_hosts(info.network_addr, info.prefix_len).contains(ip),
{
    lemma_network_block(info.network_addr, info.prefix_len);
    let hosts = spec_usable_hosts(info.network_addr, info.prefix_len);
    let network = spec_network(info.network_addr, info.prefix_len);
    if info.prefix_len >= 31 {
        assert(hosts[ip - network] == ip);
    } else {
        assert(hosts[ip - network - 1] == ip);
    }
}

/// The enumerated hosts are strictly ascending, so none occurs twice.
pub proof fn lemma_enumerated_hosts_ascending(info: &NetworkInfo, i: int, j: int)
    requires
        info.prefix_len <= 32,
        0 <= i < j < spec_usable_hosts(info.network_addr, info.prefix_len).len(),
    ensures
        spec_usable_hosts(info.network_addr, info.prefix_len)[i] < spec_usable_hosts(
            info.network_addr,
            info.prefix_len,
        )[j],
{
    lemma_network_block(info.network_addr, info.prefix_len);
}

/// The network built for an interface contains the interface's own
/// address, and its mask, network and broadcast addresses agree.
pub proof fn lemma_interface_network_contains_local_ip(
    interface_name: String,
    addr: Ipv4Prefix,
    gateway: Option<IpAddress>,
)
    requires
        addr.prefix_len <= 32,
    ensures
        spec_contains(&spec_network_info(interface_name, addr, gateway), addr.addr),
        spec_network(spec_network_info(interface_name, addr, gateway).network_addr, addr.prefix_len)
            == spec_network_info(interface_name, addr, gateway).network_addr,
        spec_broadcast(spec_network_info(interface_name, addr, gateway).network_addr, addr.prefix_len)
            == spec_network_info(interface_name, addr, gateway).broadcast_addr,
{
    let network = spec_network(addr.addr, addr.prefix_len);
    lemma_network_block(addr.addr, addr.prefix_len);
    lemma_network_block(network, addr.prefix_len);
    vstd::arithmetic::div_mod::lemma_mod_multiples_basic(
        (addr.addr as nat / block_size(addr.prefix_len)) as int,
        block_size(addr.prefix_len) as int,
    );
    vstd::arithmetic::div_mod::lemma_fundamental_div_mod(addr.addr as int, block_size(addr.prefix_len) as int);
}

/// A scan is refused exactly for subnets larger than a /16.
pub proof fn lemma_scannable_iff_at_least_slash_16(prefix_len: u8)
    requires
        prefix_len <= 32,
    ensures
        spec_usable_host_count(prefix_len) <= MAX_SCANNABLE_HOSTS <==> prefix_len >= 16,
{
    vstd::arithmetic::power2::lemma2_to64();
    if prefix_len < 16 {
        vstd::arithmetic::power2::lemma_pow2_strictly_increases(16, (32 - prefix_len) as nat);
    } else if prefix_len < 31 {
        if prefix_len > 16 {
            vstd::arithmetic::power2::lemma_pow2_strictly_increases((32 - prefix_len) as nat, 16);
        }
    }
}

// ---------------------------------------------------------------------
// Trusted items: calls into `ipnet`.
// ---------------------------------------------------------------------

/// Declares `ipnet::PrefixLenError`, the error `Ipv4Net::new` returns.
#[verifier::external_type_specification]
#[verifier::external_body]
pub struct ExPrefixLenError(ipnet::PrefixLenError);

/// `ipnet::Ipv4Net::new`. Its source refuses exactly the prefix lengths
/// above 32; the network itself is not handed out, only whether it exists.
#[verifier::external_body]
fn ipv4_net_new(addr: u32, prefix_len: u8) -> (r: Result<(), ipnet::PrefixLenError>)
    ensures
        r is Ok <==> prefix_len <= 32,
{
    match ipnet::Ipv4Net::new(addr.into(), prefix_len) {
        Ok(_) => Ok(()),
        Err(e) => Err(e),
    }
}

/// `ipnet::Ipv4Net::netmask` of the network `addr`/`prefix_len`: its source
/// computes `u32::MAX.checked_shl(32 - prefix_len).unwrap_or(0)`.
#[verifier::external_body]
fn ipv4_net_netmask(addr: u32, prefix_len: u8) -> (r: u32)
    requires
        prefix_len <= 32,
    ensures
        r == spec_netmask(prefix_len),
{
    u32::from(ipnet::Ipv4Net::new(addr.into(), prefix_len).unwrap().netmask())
}

/// `ipnet::Ipv4Net::network`: the source computes `addr & netmask`.
#[verifier::external_body]
fn ipv4_net_network(addr: u32, prefix_len: u8) -> (r: u32)
    requires
        prefix_len <= 32,
    ensures
        r == spec_network(addr, prefix_len),
{
    u32::from(ipnet::Ipv4Net::new(addr.into(), prefix_len).unwrap().network())
}

/// `ipnet::Ipv4Net::broadcast`: the source computes `addr | hostmask`, the
/// host mask being `u32::MAX.checked_shr(prefix_len).unwrap_or(0)`.
#[verifier::external_body]
fn ipv4_net_broadcast(addr: u32, prefix_len: u8) -> (r: u32)
    requires
        prefix_len <= 32,
    ensures
        r == spec_broadcast(addr, prefix_len),
{
    u32::from(ipnet::Ipv4Net::new(addr.into(), prefix_len).unwrap().broadcast())
}

/// `ipnet::Ipv4Net::contains` for an address: the source tests
/// `network <= ip && ip <= broadcast`.
#[verifier::external_body]
fn ipv4_net_contains(addr: u32, prefix_len: u8, ip: u32) -> (r: bool)
    requires
        prefix_len <= 32,
    ensures
        r == spec_in_network(addr, prefix_len, ip),
{
    ipnet::Ipv4Net::new(addr.into(), prefix_len).unwrap().contains(&core::net::Ipv4Addr::from(ip))
}

/// `ipnet::Ipv4Net::hosts`, collected: the source iterates from network to
/// broadcast inclusive, moving both ends inward (saturating) when the
/// prefix is below 31.
#[verifier::external_body]
fn ipv4_net_hosts(addr: u32, prefix_len: u8) -> (r: Vec<u32>)
    requires
        prefix_len <= 32,
    ensures
        r@ == spec_ipnet_hosts(addr, prefix_len),
{
    ipnet::Ipv4Net::new(addr.into(), prefix_len).unwrap().hosts().map(u32::from).collect()
}

} // verus!

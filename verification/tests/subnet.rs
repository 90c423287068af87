use atlas_sdk::ip::{ipv4_from_octets, ipv4_octets, IpAddress};
use atlas_sdk::subnet::{
    enumerate_hosts, network_info_from_interface, Ipv4Prefix, NetworkInfo, SubnetError,
    MAX_SCANNABLE_HOSTS,
};

fn ip(a: u8, b: u8, c: u8, d: u8) -> u32 {
    ipv4_from_octets(a, b, c, d)
}

fn info(local_ip: u32, prefix_len: u8) -> NetworkInfo {
    network_info_from_interface(
        "test0".to_string(),
        &vec![Ipv4Prefix { addr: local_ip, prefix_len }],
        None,
    )
    .unwrap()
}

#[test]
fn enumerates_standard_slash_24() {
    let ni = info(ip(192, 168, 1, 42), 24);
    let hosts = enumerate_hosts(&ni).unwrap();

    assert_eq!(hosts.len(), 254);
    assert!(!hosts.contains(&ip(192, 168, 1, 0)));
    assert!(!hosts.contains(&ip(192, 168, 1, 255)));
    assert!(hosts.contains(&ip(192, 168, 1, 1)));
    assert!(hosts.contains(&ip(192, 168, 1, 254)));
}

#[test]
fn enumerates_small_slash_29() {
    let ni = info(ip(10, 0, 0, 10), 29);
    let hosts = enumerate_hosts(&ni).unwrap();
    // /29 = 8 addresses, minus network+broadcast = 6 usable hosts.
    assert_eq!(hosts.len(), 6);
}

#[test]
fn handles_point_to_point_slash_31() {
    let ni = info(ip(10, 0, 0, 0), 31);
    let hosts = enumerate_hosts(&ni).unwrap();
    assert_eq!(hosts.len(), 2);
}

#[test]
fn rejects_oversized_subnet() {
    let ni = info(ip(10, 0, 0, 1), 8);
    let err = enumerate_hosts(&ni).unwrap_err();
    assert!(matches!(err, SubnetError::SubnetTooLarge(8, _)));
}

#[test]
fn contains_checks_membership_correctly() {
    let ni = info(ip(192, 168, 1, 42), 24);
    assert!(ni.contains(ip(192, 168, 1, 200)));
    assert!(!ni.contains(ip(192, 168, 2, 1)));
}

#[test]
fn host_count_matches_enumeration_length() {
    let ni = info(ip(172, 16, 5, 5), 26);
    let hosts = enumerate_hosts(&ni).unwrap();
    assert_eq!(hosts.len() as u64, ni.host_count());
}

#[test]
fn interface_info_has_mask_network_and_broadcast() {
    let ni = info(ip(192, 168, 1, 42), 24);
    assert_eq!(ni.interface_name, "test0");
    assert_eq!(ni.local_ip, ip(192, 168, 1, 42));
    assert_eq!(ni.prefix_len, 24);
    assert_eq!(ni.subnet_mask, ip(255, 255, 255, 0));
    assert_eq!(ni.network_addr, ip(192, 168, 1, 0));
    assert_eq!(ni.broadcast_addr, ip(192, 168, 1, 255));
    assert_eq!(ni.gateway, None);
    assert!(ni.contains(ni.local_ip));

    let odd = info(ip(172, 16, 123, 123), 20);
    assert_eq!(odd.subnet_mask, ip(255, 255, 240, 0));
    assert_eq!(odd.network_addr, ip(172, 16, 112, 0));
    assert_eq!(odd.broadcast_addr, ip(172, 16, 127, 255));
}

#[test]
fn gateway_kept_only_when_ipv4() {
    let v4 = network_info_from_interface(
        "eth0".to_string(),
        &vec![Ipv4Prefix { addr: ip(10, 1, 2, 3), prefix_len: 16 }],
        Some(IpAddress::V4(ip(10, 1, 0, 1))),
    )
    .unwrap();
    assert_eq!(v4.gateway, Some(ip(10, 1, 0, 1)));

    let v6 = network_info_from_interface(
        "eth0".to_string(),
        &vec![Ipv4Prefix { addr: ip(10, 1, 2, 3), prefix_len: 16 }],
        Some(IpAddress::V6(1)),
    )
    .unwrap();
    assert_eq!(v6.gateway, None);
}

#[test]
fn first_ipv4_address_is_used() {
    let ni = network_info_from_interface(
        "wlan0".to_string(),
        &vec![
            Ipv4Prefix { addr: ip(192, 168, 0, 7), prefix_len: 24 },
            Ipv4Prefix { addr: ip(10, 0, 0, 7), prefix_len: 8 },
        ],
        None,
    )
    .unwrap();
    assert_eq!(ni.local_ip, ip(192, 168, 0, 7));
    assert_eq!(ni.prefix_len, 24);
}

#[test]
fn interface_without_ipv4_is_refused() {
    let r = network_info_from_interface("lo".to_string(), &vec![], None);
    assert!(matches!(r, Err(SubnetError::NoIpv4Address)));
}

#[test]
fn invalid_prefix_is_refused() {
    let r = network_info_from_interface(
        "eth0".to_string(),
        &vec![Ipv4Prefix { addr: ip(10, 0, 0, 1), prefix_len: 33 }],
        None,
    );
    assert!(matches!(r, Err(SubnetError::InvalidPrefix(33))));

    let mut ni = info(ip(10, 0, 0, 1), 24);
    ni.prefix_len = 40;
    assert!(matches!(enumerate_hosts(&ni), Err(SubnetError::InvalidPrefix(40))));
    assert_eq!(ni.host_count(), 0);
    assert!(!ni.contains(ip(10, 0, 0, 1)));
}

#[test]
fn slash_16_allowed_slash_15_refused() {
    let ni16 = info(ip(10, 20, 30, 40), 16);
    let hosts = enumerate_hosts(&ni16).unwrap();
    assert_eq!(hosts.len() as u64, MAX_SCANNABLE_HOSTS);
    assert_eq!(hosts[0], ip(10, 20, 0, 1));
    assert_eq!(hosts[hosts.len() - 1], ip(10, 20, 255, 254));

    let ni15 = info(ip(10, 20, 30, 40), 15);
    let err = enumerate_hosts(&ni15).unwrap_err();
    assert!(matches!(err, SubnetError::SubnetTooLarge(15, 131070)));
}

#[test]
fn slash_32_and_slash_31_hosts() {
    let ni32 = info(ip(10, 9, 8, 7), 32);
    assert_eq!(enumerate_hosts(&ni32).unwrap(), vec![ip(10, 9, 8, 7)]);
    assert_eq!(ni32.host_count(), 1);

    let ni31 = info(ip(10, 9, 8, 7), 31);
    assert_eq!(enumerate_hosts(&ni31).unwrap(), vec![ip(10, 9, 8, 6), ip(10, 9, 8, 7)]);
    assert_eq!(ni31.host_count(), 2);
}

#[test]
fn hosts_are_ascending_and_include_local_ip() {
    let ni = info(ip(192, 168, 7, 100), 27);
    let hosts = enumerate_hosts(&ni).unwrap();
    assert_eq!(hosts.len(), 30);
    assert_eq!(hosts[0], ip(192, 168, 7, 97));
    assert!(hosts.windows(2).all(|w| w[0] < w[1]));
    assert!(hosts.contains(&ni.local_ip));
    assert!(hosts.iter().all(|h| ni.contains(*h)));
}

#[test]
fn octets_round_trip() {
    let a = ip(172, 16, 5, 200);
    assert_eq!(a, 0xAC10_05C8);
    assert_eq!(ipv4_octets(a), [172, 16, 5, 200]);
    assert_eq!(ipv4_octets(0), [0, 0, 0, 0]);
    assert_eq!(ipv4_octets(u32::MAX), [255, 255, 255, 255]);
}

use atlas_sdk::arp::{
    arp_line_well_formed, arp_output_well_formed, lookup_vendor, normalize_mac, parse_arp_command_output, parse_arp_line, parse_proc_net_arp,
    ArpTable,
};
use atlas_sdk::ip::{ipv4_from_octets, IpAddress};

fn v4(a: u8, b: u8, c: u8, d: u8) -> IpAddress {
    IpAddress::V4(ipv4_from_octets(a, b, c, d))
}

#[test]
fn normalizes_dashes_and_case() {
    assert_eq!(normalize_mac("AA-BB-CC-DD-EE-FF"), "aa:bb:cc:dd:ee:ff");
    assert_eq!(normalize_mac("aa:bb:cc:dd:ee:ff"), "aa:bb:cc:dd:ee:ff");
    assert_eq!(normalize_mac(""), "");
}

#[test]
fn vendor_lookup_is_case_insensitive() {
    assert_eq!(lookup_vendor("a4:77:33:12:34:56"), Some("Apple".to_string()));
    assert_eq!(lookup_vendor("B8:27:EB:00:00:01"), Some("Raspberry Pi Foundation".to_string()));
    assert_eq!(lookup_vendor("00:17:88:aa:bb:cc"), Some("Philips (Hue)".to_string()));
    assert_eq!(lookup_vendor("94:83:c4:00:00:00"), Some("TP-Link".to_string()));
    assert_eq!(lookup_vendor("08:00:27"), Some("VirtualBox".to_string()));
}

#[test]
fn vendor_lookup_unknown_or_short() {
    assert_eq!(lookup_vendor("12:34:56:78:9a:bc"), None);
    assert_eq!(lookup_vendor("a4:77:3"), None);
    assert_eq!(lookup_vendor(""), None);
    // the eighth byte falls inside a multi-byte char
    assert_eq!(lookup_vendor("a4:77:3é"), None);
}

#[test]
fn parses_proc_net_arp() {
    let contents = "IP address       HW type     Flags       HW address            Mask     Device\n\
192.168.1.1      0x1         0x2         AA:BB:CC:DD:EE:FF     *        eth0\n\
192.168.1.20     0x1         0x0         00:00:00:00:00:00     *        eth0\n\
not-an-ip        0x1         0x2         11:22:33:44:55:66     *        eth0\n\
192.168.1.30     0x1\n\
192.168.1.40\t0x1\t0x2\tb8-27-eb-01-02-03\t*\teth0\n";
    let table = parse_proc_net_arp(contents);
    assert_eq!(table.entries().len(), 2);
    assert_eq!(table.get(v4(192, 168, 1, 1)).map(|s| s.as_str()), Some("aa:bb:cc:dd:ee:ff"));
    assert_eq!(table.get(v4(192, 168, 1, 40)).map(|s| s.as_str()), Some("b8:27:eb:01:02:03"));
    assert_eq!(table.get(v4(192, 168, 1, 20)), None);
    assert_eq!(table.get(v4(192, 168, 1, 30)), None);
}

#[test]
fn proc_net_arp_header_only_or_empty() {
    assert!(parse_proc_net_arp("").entries().is_empty());
    assert!(parse_proc_net_arp("IP address HW type Flags HW address Mask Device\n").entries().is_empty());
    // the header line is skipped even when it looks like an entry
    let t = parse_proc_net_arp("10.0.0.1 0x1 0x2 aa:aa:aa:aa:aa:aa * eth0");
    assert!(t.entries().is_empty());
}

#[test]
fn later_lines_override_earlier_ones() {
    let contents = "header\n10.0.0.1 0x1 0x2 aa:aa:aa:aa:aa:aa * eth0\r\n10.0.0.1 0x1 0x2 bb:bb:bb:bb:bb:bb * eth0\n";
    let table = parse_proc_net_arp(contents);
    assert_eq!(table.entries().len(), 1);
    assert_eq!(table.get(v4(10, 0, 0, 1)).map(|s| s.as_str()), Some("bb:bb:bb:bb:bb:bb"));
}

#[test]
fn parses_macos_arp_line() {
    let r = parse_arp_line("router.lan (192.168.1.1) at aa:bb:cc:dd:ee:ff on en0 ifscope [ethernet]");
    assert_eq!(r, Some((v4(192, 168, 1, 1), "aa:bb:cc:dd:ee:ff".to_string())));
    let r = parse_arp_line("? (10.0.0.5) at 0:1b:63:4:5:6 on en0");
    assert_eq!(r, Some((v4(10, 0, 0, 5), "0:1b:63:4:5:6".to_string())));
}

#[test]
fn macos_hostname_ending_in_at_is_not_taken_for_the_mac() {
    let r = parse_arp_line("thermostat (192.168.1.50) at aa:bb:cc:dd:ee:ff on en0 ifscope [ethernet]");
    assert_eq!(r, Some((v4(192, 168, 1, 50), "aa:bb:cc:dd:ee:ff".to_string())));
    let r = parse_arp_line("at (10.0.0.7) at AA:BB:CC:DD:EE:07 on en0");
    assert_eq!(r, Some((v4(10, 0, 0, 7), "aa:bb:cc:dd:ee:07".to_string())));
}

#[test]
fn macos_line_without_valid_ip_or_mac_is_none() {
    assert_eq!(parse_arp_line("host (not-an-ip) at aa:bb:cc:dd:ee:ff on en0"), None);
    assert_eq!(parse_arp_line("host (10.0.0.1) incomplete"), None);
    assert_eq!(parse_arp_line("host (10.0.0.1) at "), None);
    assert_eq!(parse_arp_line("host (10.0.0.1) at"), None);
    assert_eq!(parse_arp_line("cat (10.0.0.1) flat"), None);
}

#[test]
fn parses_windows_arp_line() {
    let r = parse_arp_line("  192.168.1.1          aa-bb-cc-dd-ee-ff     dynamic");
    assert_eq!(r, Some((v4(192, 168, 1, 1), "aa:bb:cc:dd:ee:ff".to_string())));
    assert_eq!(parse_arp_line("Interface: 192.168.1.5 --- 0x4"), None);
    assert_eq!(parse_arp_line("  Internet Address      Physical Address      Type"), None);
    assert_eq!(parse_arp_line("  192.168.1.1   static"), None);
    assert_eq!(parse_arp_line(""), None);
}

#[test]
fn parses_ipv6_neighbors() {
    let r = parse_arp_line("fe80::1   AA-BB-CC-DD-EE-01   stale");
    assert_eq!(r, Some((IpAddress::V6(0xfe80_0000_0000_0000_0000_0000_0000_0001), "aa:bb:cc:dd:ee:01".to_string())));
}

#[test]
fn parses_arp_command_output() {
    let text = "\nInterface: 192.168.1.5 --- 0x4\n  Internet Address      Physical Address      Type\n  192.168.1.1           aa-bb-cc-dd-ee-ff     dynamic\n  192.168.1.255         ff-ff-ff-ff-ff-ff     static\n";
    let table = parse_arp_command_output(text);
    assert_eq!(table.entries().len(), 2);
    assert_eq!(table.get(v4(192, 168, 1, 255)).map(|s| s.as_str()), Some("ff:ff:ff:ff:ff:ff"));
}

#[test]
fn arp_table_insert_replaces() {
    let mut t = ArpTable::new();
    t.insert(v4(1, 2, 3, 4), "a".to_string());
    t.insert(v4(1, 2, 3, 5), "b".to_string());
    t.insert(v4(1, 2, 3, 4), "c".to_string());
    assert_eq!(t.entries().len(), 2);
    assert_eq!(t.get(v4(1, 2, 3, 4)).map(|s| s.as_str()), Some("c"));
    assert_eq!(t.get(v4(1, 2, 3, 5)).map(|s| s.as_str()), Some("b"));
    assert_eq!(t.get(v4(1, 2, 3, 6)), None);
}

#[test]
fn well_formedness_of_arp_output() {
    assert!(arp_line_well_formed("host (10.0.0.1) at aa:bb:cc:dd:ee:ff"));
    assert!(arp_line_well_formed("no parentheses at all"));
    assert!(arp_line_well_formed("only ) one"));
    assert!(!arp_line_well_formed("odd ) then ( line"));
    assert!(arp_output_well_formed("a (1) b\nc d\n"));
    assert!(!arp_output_well_formed("a (1) b\n) (\n"));
}

#[test]
fn normalizing_keeps_the_vendor() {
    let mac = "DC-A6-32-01-02-03";
    assert_eq!(lookup_vendor(&normalize_mac(mac)), Some("Raspberry Pi Foundation".to_string()));
    assert_eq!(lookup_vendor(&normalize_mac(mac)), lookup_vendor(&mac.replace('-', ":")));
    // with dashes left in, the OUI is not found
    assert_eq!(lookup_vendor(mac), None);
    let other = "aa-bb-cc-00-11-22";
    assert_eq!(lookup_vendor(&normalize_mac(other)), lookup_vendor(&other.replace('-', ":")));
}

#[test]
fn vendor_depends_only_on_the_oui_in_any_case() {
    assert_eq!(lookup_vendor("fc:ec:da:00:00:01"), lookup_vendor("FC:EC:DA:99:99:99"));
    assert_eq!(lookup_vendor("Fc:eC:dA"), Some("Amazon Technologies".to_string()));
    assert_eq!(lookup_vendor("3c:5a:b4:xx"), lookup_vendor(&"3c:5a:b4:xx".to_uppercase()));
    assert_eq!(lookup_vendor("3C:5A:B4:xx"), Some("Google".to_string()));
}

#[test]
fn normalizes_each_char_on_its_own() {
    assert_eq!(normalize_mac("Ab-Cd:eF-09"), "ab:cd:ef:09");
    assert_eq!(normalize_mac("--"), "::");
}

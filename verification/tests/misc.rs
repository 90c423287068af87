use atlas_sdk::identity::resolve_device_id;
use atlas_sdk::ip::IpAddress;
use atlas_sdk::scanner::{
    host_online, port_alive, usable_hostname, Device, NetworkScanner, PortOutcome, ATLAS_PORT, PROBE_PORTS,
};
use atlas_sdk::transport::{ReadEvent, ServerAction, TransportClient, TransportServer};

#[test]
fn stored_device_id_is_trimmed() {
    let (id, fresh) = resolve_device_id(Some("  3f2c9a1e-0000-4000-8000-000000000000 \n"), [7; 16]);
    assert_eq!(id, "3f2c9a1e-0000-4000-8000-000000000000");
    assert!(!fresh);
}

#[test]
fn trimming_matches_str_trim() {
    for stored in ["\u{3000}id-1\u{85}", "\t\r\n", "", "a b", " \u{2009}x\u{200a} y \u{feff}", "\u{1680}z"] {
        let (id, fresh) = resolve_device_id(Some(stored), [0; 16]);
        assert_eq!(id, stored.trim());
        assert!(!fresh);
    }
}

#[test]
fn new_device_id_is_a_v4_uuid() {
    let (id, fresh) = resolve_device_id(None, uuid::Uuid::new_v4().into_bytes());
    assert!(fresh);
    assert_eq!(id.len(), 36);
    let b = id.as_bytes();
    for (i, c) in b.iter().enumerate() {
        if i == 8 || i == 13 || i == 18 || i == 23 {
            assert_eq!(*c, b'-');
        } else {
            assert!(c.is_ascii_digit() || (b'a'..=b'f').contains(c));
        }
    }
    assert_eq!(b[14], b'4');
    assert!(b"89ab".contains(&b[19]));
    let (other, _) = resolve_device_id(None, uuid::Uuid::new_v4().into_bytes());
    assert_ne!(id, other);
}

#[test]
fn new_device_id_is_made_from_the_given_bytes() {
    assert_eq!(resolve_device_id(None, [0; 16]), ("00000000-0000-4000-8000-000000000000".to_string(), true));
    assert_eq!(resolve_device_id(None, [0xff; 16]), ("ffffffff-ffff-4fff-bfff-ffffffffffff".to_string(), true));
    let counting: [u8; 16] = [0, 1, 2, 3, 4, 5, 6, 7, 8, 9, 10, 11, 12, 13, 14, 0xab];
    assert_eq!(resolve_device_id(None, counting).0, "00010203-0405-4607-8809-0a0b0c0d0eab");
}

#[test]
fn hostnames_filtered() {
    assert_eq!(usable_hostname(Some("printer.lan".to_string())), Some("printer.lan".to_string()));
    assert_eq!(usable_hostname(Some(String::new())), None);
    assert_eq!(usable_hostname(Some("192.168.1.7".to_string())), None);
    assert_eq!(usable_hostname(Some("::1".to_string())), None);
    assert_eq!(usable_hostname(None), None);
}

#[test]
fn refusal_proves_the_host_exists() {
    assert!(port_alive(PortOutcome::Accepted));
    assert!(port_alive(PortOutcome::Refused));
    assert!(!port_alive(PortOutcome::TimedOut));
    assert!(!port_alive(PortOutcome::Unreachable));
}

#[test]
fn online_when_any_port_answers() {
    let (accepted, refused, timed_out, unreachable) =
        (PortOutcome::Accepted, PortOutcome::Refused, PortOutcome::TimedOut, PortOutcome::Unreachable);
    assert!(host_online(true, &vec![]));
    assert!(host_online(false, &vec![timed_out, timed_out, accepted]));
    assert!(host_online(false, &vec![timed_out, refused, unreachable]));
    assert!(!host_online(false, &vec![timed_out; PROBE_PORTS.len()]));
    assert!(!host_online(false, &vec![unreachable, timed_out]));
    assert!(!host_online(false, &vec![]));
    assert_eq!(ATLAS_PORT, 47001);
    assert_eq!(PROBE_PORTS, [80, 443, 22, 445, 139, 53, 8080]);
}

#[test]
fn device_model_fields() {
    let d = Device {
        ip: IpAddress::V4(0x0A00_0001),
        hostname: None,
        mac: None,
        vendor: None,
        online: true,
        atlas: false,
        latency_ms: Some(3),
    };
    assert!(d.online && !d.atlas);
}

#[test]
fn found_device_keeps_only_real_hostnames() {
    let d = Device::found(IpAddress::V4(0xC0A8_0107), true, 12, Some("printer.lan".to_string()));
    assert_eq!(d.ip, IpAddress::V4(0xC0A8_0107));
    assert!(d.online && d.atlas);
    assert_eq!(d.latency_ms, Some(12));
    assert_eq!(d.hostname, Some("printer.lan".to_string()));
    assert_eq!(d.mac, None);
    assert_eq!(d.vendor, None);
    let d = Device::found(IpAddress::V4(0xC0A8_0107), false, 0, Some("192.168.1.7".to_string()));
    assert_eq!(d.hostname, None);
    assert!(d.online && !d.atlas);
}

#[test]
fn preview_shows_first_ten() {
    let hosts: Vec<u32> = (1..=25).collect();
    let (shown, more) = NetworkScanner::preview(&hosts);
    assert_eq!(shown, (1..=10).collect::<Vec<u32>>());
    assert!(more);
    let few: Vec<u32> = vec![7, 8, 9];
    let (shown, more) = NetworkScanner::preview(&few);
    assert_eq!(shown, few);
    assert!(!more);
    let ten: Vec<u32> = (0..10).collect();
    assert!(!NetworkScanner::preview(&ten).1);
}

#[test]
fn server_acknowledges_until_closed() {
    assert_eq!(TransportServer::next_action(ReadEvent::Received(5)), ServerAction::Acknowledge);
    assert_eq!(TransportServer::next_action(ReadEvent::Closed), ServerAction::Close);
    assert_eq!(TransportServer::next_action(ReadEvent::Failed), ServerAction::Close);
    assert_eq!(TransportServer::ACK, "ACK\n");
    assert_eq!(TransportClient::GREETING, "Hello from Atlas!\n");
    assert_eq!(TransportClient::CONNECT_TIMEOUT_SECS, 3);
}

//! The LAN scanner: the device model it produces and the rules by which a
//! probed host counts as online and a reverse-DNS name counts as a
//! hostname. Probing itself (TCP connects, DNS) happens outside the
//! library.

use vstd::prelude::*;

use crate::ip::{parse_ip_addr, spec_parse_ip_addr, IpAddress};

verus! {

/// The Atlas node's transport port, probed first.
pub const ATLAS_PORT: u16 = 47001;

/// Milliseconds a TCP connection attempt may take before the port counts
/// as silent.
pub const CONNECT_TIMEOUT_MS: u64 = 400;

/// Hosts probed concurrently (a worker pool, not one thread per address).
pub const MAX_CONCURRENT_PROBES: usize = 128;

/// Common ports probed to tell whether a host is alive.
pub const PROBE_PORTS: [u16; 7] = [80, 443, 22, 445, 139, 53, 8080];

/// A device found on the local network.
#[derive(Clone, Debug)]
pub struct Device {
    pub ip: IpAddress,
    pub hostname: Option<String>,
    pub mac: Option<String>,
    pub vendor: Option<String>,
    pub online: bool,
    pub atlas: bool,
    pub latency_ms: Option<u128>,
}

/// How one TCP connection attempt ended.
#[derive(Clone, Copy, Debug, PartialEq, Eq)]
pub enum PortOutcome {
    /// The connection was established.
    Accepted,
    /// The host answered and refused the connection.
    Refused,
    /// No answer came within the connect timeout.
    TimedOut,
    /// The attempt failed otherwise: no route to the host or its network.
    Unreachable,
}

/// Whether an attempt that ended so shows that a host is there: a refusal
/// proves the host exists as well as an accepted connection does; silence
/// or an unreachable address does not.
pub open spec fn spec_port_alive(outcome: PortOutcome) -> bool {
    outcome is Accepted || outcome is Refused
}

/// Whether a connection attempt that ended with `outcome` shows that the
/// host is there.
pub fn port_alive(outcome: PortOutcome) -> (r: bool)
    ensures
        r == spec_port_alive(outcome),
{
    match outcome {
        PortOutcome::Accepted => true,
        PortOutcome::Refused => true,
        PortOutcome::TimedOut => false,
        PortOutcome::Unreachable => false,
    }
}

/// Whether the host answered on at least one of the common ports.
pub open spec fn any_port_alive(outcomes: Seq<PortOutcome>) -> bool {
    exists|i: int| 0 <= i < outcomes.len() && spec_port_alive(#[trigger] outcomes[i])
}

/// A connection attempt shows a host is there exactly when the host
/// answered it, accepting or refusing; silence or an unreachable address
/// shows nothing. A host answered on some port of a list exactly when it
/// did on some port of a shorter list or on the one added, and never on an
/// empty list.
pub proof fn lemma_answers(outcomes: Seq<PortOutcome>, outcome: PortOutcome)
    ensures
        spec_port_alive(outcome) <==> (outcome == PortOutcome::Accepted || outcome == PortOutcome::Refused),
        !spec_port_alive(PortOutcome::TimedOut),
        !spec_port_alive(PortOutcome::Unreachable),
        !any_port_alive(Seq::<PortOutcome>::empty()),
        any_port_alive(outcomes.push(outcome)) == (any_port_alive(outcomes) || spec_port_alive(outcome)),
{
    let longer = outcomes.push(outcome);
    if any_port_alive(outcomes) {
        let i = choose|i: int| 0 <= i < outcomes.len() && spec_port_alive(#[trigger] outcomes[i]);
        assert(longer[i] == outcomes[i]);
    }
    if spec_port_alive(outcome) {
        assert(longer[outcomes.len() as int] == outcome);
    }
    if any_port_alive(longer) {
        let i = choose|i: int| 0 <= i < longer.len() && spec_port_alive(#[trigger] longer[i]);
        if i < outcomes.len() {
            assert(longer[i] == outcomes[i]);
        }
    }
}

/// A host is online when it accepted a connection on the Atlas port or
/// answered (accepting or refusing) on any of the common ports probed.
pub fn host_online(atlas_accepted: bool, common_ports: &Vec<PortOutcome>) -> (r: bool)
    ensures
        r == (atlas_accepted || any_port_alive(common_ports@)),
{
    if atlas_accepted {
        return true;
    }
    let mut i: usize = 0;
    while i < common_ports.len()
        invariant
            i <= common_ports@.len(),
            forall|j: int| 0 <= j < i ==> !spec_port_alive(#[trigger] common_ports@[j]),
        decreases common_ports.len() - i,
    {
        if port_alive(common_ports[i]) {
            return true;
        }
        i = i + 1;
    }
    false
}

/// The chars of an optional string.
pub open spec fn opt_view(s: Option<String>) -> Option<Seq<char>> {
    match s {
        Some(s) => Some(s@),
        None => None,
    }
}

/// What `usable_hostname` keeps: a name that is neither empty nor an IP
/// address written out.
pub open spec fn spec_usable_hostname(name: Option<Seq<char>>) -> Option<Seq<char>> {
    match name {
        Some(n) => if n.len() > 0 && spec_parse_ip_addr(n) is None {
            Some(n)
        } else {
            None
        },
        None => None,
    }
}

/// A reverse-lookup answer is kept unchanged when it is a real hostname, a
/// name that is not empty and does not parse as an IP address, and dropped
/// otherwise; no answer gives no hostname.
pub proof fn lemma_usable_hostname(name: Option<Seq<char>>)
    ensures
        name is None ==> spec_usable_hostname(name) is None,
        name matches Some(n) ==> (spec_usable_hostname(name) is Some <==> (n.len() > 0
            && spec_parse_ip_addr(n) is None)),
        spec_usable_hostname(name) matches Some(h) ==> name == Some(h),
{
}

/// Keeps the name a reverse lookup returned only when it is a real
/// hostname: not empty, and not merely the address itself.
pub fn usable_hostname(name: Option<String>) -> (r: Option<String>)
    ensures
        r matches Some(n) ==> spec_usable_hostname(opt_view(name)) == Some(n@),
        r is None ==> spec_usable_hostname(opt_view(name)) is None,
{
    match name {
        Some(n) => {
            if n.as_str().is_empty() {
                return None;
            }
            match parse_ip_addr(n.as_str()) {
                Some(_) => None,
                None => Some(n),
            }
        },
        None => None,
    }
}

impl Device {
    /// The device a probe found online: its address, whether it runs an
    /// Atlas node, the time the probe took and the name a reverse lookup
    /// returned (kept only when it is a usable hostname). Its MAC address
    /// and vendor are filled in later from the ARP table.
    pub fn found(ip: IpAddress, atlas: bool, latency_ms: u128, name: Option<String>) -> (d: Device)
        ensures
            d.ip == ip,
            d.atlas == atlas,
            d.online,
            d.latency_ms == Some(latency_ms),
            opt_view(d.hostname) == spec_usable_hostname(opt_view(name)),
            d.mac is None,
            d.vendor is None,
    {
        let hostname = usable_hostname(name);
        Device { ip, hostname, mac: None, vendor: None, online: true, atlas, latency_ms: Some(latency_ms) }
    }
}

/// Runs the scanner and reports what it found.
pub struct NetworkScanner;

impl NetworkScanner {
    /// Number of host addresses a scan report lists.
    pub const PREVIEW_LEN: usize = 10;

    /// The hosts a scan report lists (the first ten) and whether more
    /// hosts follow them.
    pub fn preview(hosts: &Vec<u32>) -> (r: (Vec<u32>, bool))
        ensures
            r.0@ == hosts@.take(if hosts@.len() < 10 { hosts@.len() as int } else { 10 }),
            r.1 == (hosts@.len() > 10),
    {
        let n = if hosts.len() < Self::PREVIEW_LEN { hosts.len() } else { Self::PREVIEW_LEN };
        let mut shown: Vec<u32> = Vec::new();
        let mut i: usize = 0;
        while i < n
            invariant
                n <= hosts@.len(),
                i <= n,
                shown@ == hosts@.take(i as int),
            decreases n - i,
        {
            shown.push(hosts[i]);
            assert(hosts@.take(i + 1) =~= hosts@.take(i as int).push(hosts@[i as int]));
            i = i + 1;
        }
        (shown, hosts.len() > Self::PREVIEW_LEN)
    }
}

} // verus!

//! Finding other servers on the local network: which address this host
//! announces, what it announces, and what it makes of an announcement.

use vstd::prelude::*;
use crate::util::text::{nat_digits, push_nat_digits, parse_u16_spec, int_text};

verus! {

/// The kind of service the servers announce.
pub const SERVICE: &'static str = "_autobahn._udp.local.";

/// A network interface of this host, and its address when it is an IPv4 one.
pub struct NetInterface {
    pub name: String,
    pub ipv4: Option<(u8, u8, u8, u8)>,
}

/// The operating systems whose interface names the server knows.
#[derive(Clone, Copy, Debug, PartialEq, Eq, Structural)]
pub enum HostOs {
    Linux,
    MacOs,
    Windows,
    Other,
}

/// The dotted text of an IPv4 address.
pub open spec fn ipv4_text(ip: (u8, u8, u8, u8)) -> Seq<char> {
    nat_digits(ip.0 as nat) + seq!['.'] + nat_digits(ip.1 as nat) + seq!['.'] + nat_digits(ip.2 as nat)
        + seq!['.'] + nat_digits(ip.3 as nat)
}

/// The dotted text of an IPv4 address.
pub fn ipv4_to_string(ip: (u8, u8, u8, u8)) -> (r: String)
    ensures
        r@ == ipv4_text(ip),
{
    let mut out = String::new();
    push_nat_digits(&mut out, ip.0 as u64);
    out.append(".");
    push_nat_digits(&mut out, ip.1 as u64);
    out.append(".");
    push_nat_digits(&mut out, ip.2 as u64);
    out.append(".");
    push_nat_digits(&mut out, ip.3 as u64);
    proof {
        reveal_strlit(".");
        assert(out@ =~= ipv4_text(ip));
    }
    out
}

/// The interface names and addresses of this host, from `get_if_addrs`.
/// Trusted: the list is whatever the system reports, and nothing is stated
/// of it; `None` where the crate reports an error.
#[verifier::external_body]
fn host_interfaces() -> (r: Option<Vec<NetInterface>>) {
    let ifaces = get_if_addrs::get_if_addrs().ok()?;
    let mut out = Vec::new();
    for iface in ifaces {
        let ipv4 = match iface.addr {
            get_if_addrs::IfAddr::V4(a) => {
                let o = a.ip.octets();
                Some((o[0], o[1], o[2], o[3]))
            },
            get_if_addrs::IfAddr::V6(_) => None,
        };
        out.push(NetInterface { name: iface.name, ipv4 });
    }
    Some(out)
}

/// The address of the first IPv4 entry of the named interface.
pub open spec fn local_ip_spec(name: Seq<char>, ifaces: Seq<(Seq<char>, Option<(u8, u8, u8, u8)>)>) -> Option<Seq<char>>
    decreases ifaces.len(),
{
    if ifaces.len() == 0 {
        None
    } else if ifaces[0].0 == name && ifaces[0].1 is Some {
        Some(ipv4_text(ifaces[0].1.unwrap()))
    } else {
        local_ip_spec(name, ifaces.drop_first())
    }
}

/// An address that is neither loopback (`127.x.x.x`) nor unspecified
/// (`0.0.0.0`).
pub open spec fn routable(ip: (u8, u8, u8, u8)) -> bool {
    ip.0 != 127 && !(ip.0 == 0 && ip.1 == 0 && ip.2 == 0 && ip.3 == 0)
}

/// The address of the first IPv4 entry that is routable.
pub open spec fn first_routable_spec(ifaces: Seq<(Seq<char>, Option<(u8, u8, u8, u8)>)>) -> Option<Seq<char>>
    decreases ifaces.len(),
{
    if ifaces.len() == 0 {
        None
    } else if ifaces[0].1 matches Some(ip) && routable(ip) {
        Some(ipv4_text(ifaces[0].1.unwrap()))
    } else {
        first_routable_spec(ifaces.drop_first())
    }
}

/// Interfaces as plain values.
pub open spec fn interfaces_view(v: Seq<NetInterface>) -> Seq<(Seq<char>, Option<(u8, u8, u8, u8)>)> {
    v.map_values(|i: NetInterface| (i.name@, i.ipv4))
}

/// The address of the first IPv4 entry of the named interface in a list.
pub fn local_ip_in(iface_name: &str, ifaces: &Vec<NetInterface>) -> (r: Option<String>)
    ensures
        match r {
            Some(s) => local_ip_spec(iface_name@, interfaces_view(ifaces@)) == Some(s@),
            None => local_ip_spec(iface_name@, interfaces_view(ifaces@)) is None,
        },
{
    let name = iface_name.to_owned();
    let ghost all = interfaces_view(ifaces@);
    let mut i: usize = 0;
    assert(all.skip(0) =~= all);
    while i < ifaces.len()
        invariant
            i <= ifaces@.len(),
            all == interfaces_view(ifaces@),
            name@ == iface_name@,
            local_ip_spec(iface_name@, all) == local_ip_spec(iface_name@, all.skip(i as int)),
        decreases ifaces@.len() - i,
    {
        proof {
            assert(all.skip(i as int)[0] == all[i as int]);
            assert(all.skip(i as int).drop_first() =~= all.skip(i + 1));
        }
        if ifaces[i].name == name {
            match ifaces[i].ipv4 {
                Some(ip) => return Some(ipv4_to_string(ip)),
                None => {},
            }
        }
        i = i + 1;
    }
    None
}

/// The address of the first routable IPv4 entry in a list.
pub fn first_non_loopback_in(ifaces: &Vec<NetInterface>) -> (r: Option<String>)
    ensures
        match r {
            Some(s) => first_routable_spec(interfaces_view(ifaces@)) == Some(s@),
            None => first_routable_spec(interfaces_view(ifaces@)) is None,
        },
{
    let ghost all = interfaces_view(ifaces@);
    let mut i: usize = 0;
    assert(all.skip(0) =~= all);
    while i < ifaces.len()
        invariant
            i <= ifaces@.len(),
            all == interfaces_view(ifaces@),
            first_routable_spec(all) == first_routable_spec(all.skip(i as int)),
        decreases ifaces@.len() - i,
    {
        proof {
            assert(all.skip(i as int)[0] == all[i as int]);
            assert(all.skip(i as int).drop_first() =~= all.skip(i + 1));
        }
        match ifaces[i].ipv4 {
            Some(ip) => {
                if ip.0 != 127 && !(ip.0 == 0 && ip.1 == 0 && ip.2 == 0 && ip.3 == 0) {
                    return Some(ipv4_to_string(ip));
                }
            },
            None => {},
        }
        i = i + 1;
    }
    None
}

/// The interface names tried on each system, in order.
pub open spec fn candidate_names(os: HostOs) -> Seq<Seq<char>> {
    match os {
        HostOs::Linux => seq!["eth0"@],
        HostOs::MacOs => seq!["eth0"@, "en0"@],
        HostOs::Windows => seq!["Ethernet"@, "Wi-Fi"@],
        HostOs::Other => Seq::empty(),
    }
}

/// The address of the named interface on this host, read afresh.
pub fn get_local_ip(iface_name: &str) -> (r: Option<String>)
    ensures
        r matches Some(s) ==> exists|ifs: Seq<(Seq<char>, Option<(u8, u8, u8, u8)>)>|
            local_ip_spec(iface_name@, ifs) == Some(s@),
{
    match host_interfaces() {
        Some(ifaces) => local_ip_in(iface_name, &ifaces),
        None => None,
    }
}

/// The first routable IPv4 address of this host, read afresh.
pub fn get_first_non_loopback_ip() -> (r: Option<String>)
    ensures
        r matches Some(s) ==> exists|ifs: Seq<(Seq<char>, Option<(u8, u8, u8, u8)>)>|
            first_routable_spec(ifs) == Some(s@),
{
    match host_interfaces() {
        Some(ifaces) => first_non_loopback_in(&ifaces),
        None => None,
    }
}

/// The address of the first of `names` that has one in the list.
pub open spec fn first_candidate(names: Seq<Seq<char>>, ifaces: Seq<(Seq<char>, Option<(u8, u8, u8, u8)>)>) -> Option<Seq<char>>
    decreases names.len(),
{
    if names.len() == 0 {
        None
    } else {
        match local_ip_spec(names[0], ifaces) {
            Some(a) => Some(a),
            None => first_candidate(names.drop_first(), ifaces),
        }
    }
}

/// The address of a host on the interface its system usually uses for the
/// network, in a list of its interfaces: the first of the system's names,
/// in order, that has an address.
pub open spec fn system_ip_spec(os: HostOs, ifaces: Seq<(Seq<char>, Option<(u8, u8, u8, u8)>)>) -> Option<Seq<char>> {
    first_candidate(candidate_names(os), ifaces)
}

/// The address, in a list of interfaces, on the interface the system
/// usually uses for the network: `eth0` on Linux; `eth0`, else `en0`, on
/// macOS; `Ethernet`, else `Wi-Fi`, on Windows; none elsewhere.
pub fn local_ip_for_os(os: HostOs, ifaces: &Vec<NetInterface>) -> (r: Option<String>)
    ensures
        match r {
            Some(s) => system_ip_spec(os, interfaces_view(ifaces@)) == Some(s@),
            None => system_ip_spec(os, interfaces_view(ifaces@)) is None,
        },
{
    let ghost all = interfaces_view(ifaces@);
    proof {
        reveal_strlit("eth0");
        reveal_strlit("en0");
        reveal_strlit("Ethernet");
        reveal_strlit("Wi-Fi");
        reveal_with_fuel(first_candidate, 3);
    }
    match os {
        HostOs::Linux => {
            proof {
                assert(candidate_names(os).drop_first() =~= Seq::<Seq<char>>::empty());
            }
            local_ip_in("eth0", ifaces)
        },
        HostOs::MacOs => {
            proof {
                assert(candidate_names(os).drop_first() =~= seq!["en0"@]);
                assert(seq!["en0"@].drop_first() =~= Seq::<Seq<char>>::empty());
            }
            match local_ip_in("eth0", ifaces) {
                Some(a) => Some(a),
                None => local_ip_in("en0", ifaces),
            }
        },
        HostOs::Windows => {
            proof {
                assert(candidate_names(os).drop_first() =~= seq!["Wi-Fi"@]);
                assert(seq!["Wi-Fi"@].drop_first() =~= Seq::<Seq<char>>::empty());
            }
            match local_ip_in("Ethernet", ifaces) {
                Some(a) => Some(a),
                None => local_ip_in("Wi-Fi", ifaces),
            }
        },
        HostOs::Other => None,
    }
}

/// The address of this host on the interface its system usually uses for
/// the network: `eth0` on Linux; `eth0`, else `en0`, on macOS; `Ethernet`,
/// else `Wi-Fi`, on Windows; none elsewhere. The interfaces are read afresh.
pub fn get_local_ip_system_dependent(os: HostOs) -> (r: Option<String>)
    ensures
        os == HostOs::Other ==> r is None,
        r matches Some(s) ==> exists|ifs: Seq<(Seq<char>, Option<(u8, u8, u8, u8)>)>|
            #[trigger] system_ip_spec(os, ifs) == Some(s@),
{
    match host_interfaces() {
        Some(ifaces) => {
            let r = local_ip_for_os(os, &ifaces);
            proof {
                if os == HostOs::Other {
                    assert(candidate_names(os).len() == 0);
                }
            }
            r
        },
        None => None,
    }
}

/// The properties a server announces: its address and its port.
pub fn service_properties(self_ip: &String, self_port: u16) -> (r: Vec<(String, String)>)
    ensures
        r@.len() == 2,
        r@[0].0@ == "ip"@ && r@[0].1@ == self_ip@,
        r@[1].0@ == "port"@ && r@[1].1@ == int_text(self_port as int),
{
    let mut port = String::new();
    push_nat_digits(&mut port, self_port as u64);
    let mut r: Vec<(String, String)> = Vec::new();
    r.push(("ip".to_owned(), self_ip.clone()));
    r.push(("port".to_owned(), port));
    r
}

/// What a resolved announcement means for this server: the address and
/// port of another server, or nothing when a property is missing or the
/// announcement is this server's own.
pub open spec fn discovered_spec(self_ip: Seq<char>, ip: Option<Seq<char>>, port: Option<Seq<char>>) -> Option<(Seq<char>, u16)> {
    match (ip, port) {
        (Some(a), Some(p)) => if a == self_ip { None } else { Some((a, parse_u16_spec(p).unwrap())) },
        _ => None,
    }
}

/// What a resolved announcement means for this server. A port property
/// that comes with an address property must read as a port.
pub fn discovered_peer(self_ip: &String, ip: Option<&str>, port: Option<&str>) -> (r: Option<(String, u16)>)
    requires
        ip is Some && port is Some ==> parse_u16_spec(port.unwrap()@) is Some,
    ensures
        match (r, discovered_spec(self_ip@, match ip { Some(a) => Some(a@), None => None }, match port { Some(p) => Some(p@), None => None })) {
            (Some((a, p)), Some((sa, sp))) => a@ == sa && p == sp,
            (None, None) => true,
            _ => false,
        },
{
    match (ip, port) {
        (Some(a), Some(p)) => {
            let addr = a.to_owned();
            if addr == *self_ip {
                None
            } else {
                match crate::util::text::parse_u16(p) {
                    Some(n) => Some((addr, n)),
                    None => None,
                }
            }
        },
        _ => None,
    }
}

#[verifier::external_type_specification]
#[verifier::external_body]
pub struct ExServiceInfo(mdns_sd::ServiceInfo);

/// What an mDNS announcement is made of: the service type, the instance
/// name, the host name, the address text, the port and the TXT properties.
#[derive(Debug)]
pub struct Announcement {
    pub ty_domain: String,
    pub my_name: String,
    pub host_name: String,
    pub ip: String,
    pub port: u16,
    pub properties: Vec<(String, String)>,
}

/// The parts of an announcement as plain values.
pub struct AnnouncementView {
    pub ty_domain: Seq<char>,
    pub my_name: Seq<char>,
    pub host_name: Seq<char>,
    pub ip: Seq<char>,
    pub port: u16,
    pub properties: Seq<(Seq<char>, Seq<char>)>,
}

/// Properties as plain values.
pub open spec fn properties_view(v: Seq<(String, String)>) -> Seq<(Seq<char>, Seq<char>)> {
    v.map_values(|p: (String, String)| (p.0@, p.1@))
}

impl View for Announcement {
    type V = AnnouncementView;

    open spec fn view(&self) -> AnnouncementView {
        AnnouncementView {
            ty_domain: self.ty_domain@,
            my_name: self.my_name@,
            host_name: self.host_name@,
            ip: self.ip@,
            port: self.port,
            properties: properties_view(self.properties@),
        }
    }
}

/// An announcement that mDNS has built, together with the parts it was
/// built from.
#[derive(Debug)]
pub struct ServiceAnnouncement {
    parts: Announcement,
    info: mdns_sd::ServiceInfo,
}

impl View for ServiceAnnouncement {
    type V = AnnouncementView;

    closed spec fn view(&self) -> AnnouncementView {
        self.parts@
    }
}

impl ServiceAnnouncement {
    /// The parts the announcement was built from.
    pub fn parts(&self) -> (r: &Announcement)
        ensures
            r@ == self@,
    {
        &self.parts
    }

    /// The announcement, to hand to the mDNS daemon.
    pub fn into_info(self) -> mdns_sd::ServiceInfo {
        self.info
    }
}

/// A key that an mDNS TXT record accepts: ASCII, without `'='`.
pub open spec fn txt_key_ok(k: Seq<char>) -> bool {
    forall|j: int| 0 <= j < k.len() ==> (k[j] as u32) < 128 && k[j] != '='
}

/// Builds an mDNS announcement from its parts with
/// `mdns_sd::ServiceInfo::new`, and keeps the parts beside it. Trusted: the
/// crate refuses an address text of which some comma-separated part does
/// not parse as an IP address, and a property key that is not ASCII or
/// holds `'='`, and nothing else. So it states that an empty address text,
/// or the dot-decimal text of one IPv4 address (which `Ipv4Addr`'s parser
/// is documented to accept), with such keys, gives an announcement, and
/// that an announcement holds the parts it was given.
#[verifier::external_body]
fn new_service_info(parts: Announcement) -> (r: Option<ServiceAnnouncement>)
    ensures
        r matches Some(a) ==> a@ == parts@,
        (parts.ip@.len() == 0 || exists|q: (u8, u8, u8, u8)| #[trigger] ipv4_text(q) == parts.ip@)
            && (forall|i: int| 0 <= i < parts.properties@.len() ==> txt_key_ok(#[trigger] parts.properties@[i].0@))
            ==> r is Some,
{
    let info = mdns_sd::ServiceInfo::new(
        &parts.ty_domain,
        &parts.my_name,
        &parts.host_name,
        parts.ip.clone(),
        parts.port,
        parts.properties.as_slice(),
    ).ok()?;
    Some(ServiceAnnouncement { parts, info })
}

/// The announcement of a server at `self_ip` and `self_port`: the service
/// kind, the instance name `AutobahnDiscovery`, the host name
/// `autobahn.local.`, the address and port, and the properties that carry
/// them.
pub open spec fn announcement_spec(self_ip: Seq<char>, self_port: u16) -> AnnouncementView {
    AnnouncementView {
        ty_domain: SERVICE@,
        my_name: "AutobahnDiscovery"@,
        host_name: "autobahn.local."@,
        ip: self_ip,
        port: self_port,
        properties: seq![("ip"@, self_ip), ("port"@, int_text(self_port as int))],
    }
}

/// The parts of this server's announcement.
pub fn announcement(self_ip: &String, self_port: u16) -> (r: Announcement)
    ensures
        r@ == announcement_spec(self_ip@, self_port),
{
    let properties = service_properties(self_ip, self_port);
    let r = Announcement {
        ty_domain: SERVICE.to_owned(),
        my_name: "AutobahnDiscovery".to_owned(),
        host_name: "autobahn.local.".to_owned(),
        ip: self_ip.clone(),
        port: self_port,
        properties,
    };
    proof {
        assert(properties_view(r.properties@) =~= seq![("ip"@, self_ip@), ("port"@, int_text(self_port as int))]);
    }
    r
}

/// The announcement of this server, built by mDNS. `None` where it cannot
/// be built; it is built for the dotted text of an IPv4 address, such as
/// this host's own, and for an empty address.
pub fn create_service_info(self_ip: &String, self_port: u16) -> (r: Option<ServiceAnnouncement>)
    ensures
        r matches Some(a) ==> a@ == announcement_spec(self_ip@, self_port),
        (self_ip@.len() == 0 || exists|q: (u8, u8, u8, u8)| #[trigger] ipv4_text(q) == self_ip@) ==> r is Some,
{
    let parts = announcement(self_ip, self_port);
    proof {
        reveal_strlit("ip");
        reveal_strlit("port");
        let pv = properties_view(parts.properties@);
        assert(pv == seq![("ip"@, self_ip@), ("port"@, int_text(self_port as int))]);
        assert(pv.len() == parts.properties@.len());
        assert forall|i: int| 0 <= i < parts.properties@.len() implies txt_key_ok(#[trigger] parts.properties@[i].0@) by {
            assert(pv[i] == (parts.properties@[i].0@, parts.properties@[i].1@));
            if i == 0 {
                assert(pv[0].0 == "ip"@);
            } else {
                assert(pv[1].0 == "port"@);
            }
        }
    }
    new_service_info(parts)
}

} // verus!

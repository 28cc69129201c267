use autobahn::discovery::{
    announcement, create_service_info, discovered_peer, first_non_loopback_in, get_local_ip_system_dependent,
    ipv4_to_string, local_ip_for_os, local_ip_in, service_properties, HostOs, NetInterface, SERVICE,
};

#[test]
fn test_get_local_ip_system_dependent() {
    let ip = get_local_ip_system_dependent(HostOs::Linux);
    println!("IP: {:?}", ip);
    if let Some(ip) = ip {
        assert_eq!(ip.split('.').count(), 4);
    }
}

fn iface(name: &str, ipv4: Option<(u8, u8, u8, u8)>) -> NetInterface {
    NetInterface { name: name.to_string(), ipv4 }
}

#[test]
fn other_systems_have_no_local_ip() {
    assert_eq!(get_local_ip_system_dependent(HostOs::Other), None);
}

#[test]
fn ipv4_text_is_dotted_decimal() {
    assert_eq!(ipv4_to_string((192, 168, 0, 17)), "192.168.0.17");
    assert_eq!(ipv4_to_string((0, 0, 0, 0)), "0.0.0.0");
    assert_eq!(ipv4_to_string((255, 255, 255, 255)), "255.255.255.255");
}

#[test]
fn local_ip_takes_first_ipv4_entry_of_the_interface() {
    let ifaces = vec![
        iface("lo", Some((127, 0, 0, 1))),
        iface("eth0", None),
        iface("eth0", Some((10, 1, 2, 3))),
        iface("eth0", Some((10, 9, 9, 9))),
    ];
    assert_eq!(local_ip_in("eth0", &ifaces), Some("10.1.2.3".to_string()));
    assert_eq!(local_ip_in("wlan0", &ifaces), None);
}

#[test]
fn first_non_loopback_skips_loopback_and_unspecified() {
    let ifaces = vec![
        iface("lo", Some((127, 0, 0, 1))),
        iface("any", Some((0, 0, 0, 0))),
        iface("v6", None),
        iface("eth1", Some((172, 16, 4, 2))),
    ];
    assert_eq!(first_non_loopback_in(&ifaces), Some("172.16.4.2".to_string()));
    assert_eq!(first_non_loopback_in(&vec![iface("lo", Some((127, 1, 1, 1)))]), None);
}

#[test]
fn announcement_properties() {
    let props = service_properties(&"10.0.0.5".to_string(), 8080);
    assert_eq!(props, vec![("ip".to_string(), "10.0.0.5".to_string()), ("port".to_string(), "8080".to_string())]);
}

#[test]
fn discovered_announcements() {
    let me = "10.0.0.5".to_string();
    assert_eq!(discovered_peer(&me, Some("10.0.0.6"), Some("9001")), Some(("10.0.0.6".to_string(), 9001)));
    assert_eq!(discovered_peer(&me, Some("10.0.0.5"), Some("9001")), None);
    assert_eq!(discovered_peer(&me, None, Some("9001")), None);
    assert_eq!(discovered_peer(&me, Some("10.0.0.6"), None), None);
}

#[test]
fn system_interface_order() {
    let ifaces = vec![
        iface("en0", Some((10, 0, 0, 2))),
        iface("eth0", Some((10, 0, 0, 1))),
        iface("Wi-Fi", Some((10, 0, 0, 4))),
    ];
    assert_eq!(local_ip_for_os(HostOs::Linux, &ifaces), Some("10.0.0.1".to_string()));
    assert_eq!(local_ip_for_os(HostOs::MacOs, &ifaces), Some("10.0.0.1".to_string()));
    assert_eq!(local_ip_for_os(HostOs::Windows, &ifaces), Some("10.0.0.4".to_string()));
    assert_eq!(local_ip_for_os(HostOs::Other, &ifaces), None);
    let mac_only = vec![iface("en0", Some((10, 0, 0, 2))), iface("eth0", None)];
    assert_eq!(local_ip_for_os(HostOs::MacOs, &mac_only), Some("10.0.0.2".to_string()));
    assert_eq!(local_ip_for_os(HostOs::Linux, &mac_only), None);
}

#[test]
fn announcement_parts() {
    let a = announcement(&"10.0.0.5".to_string(), 8080);
    assert_eq!(a.ty_domain, SERVICE);
    assert_eq!(a.my_name, "AutobahnDiscovery");
    assert_eq!(a.host_name, "autobahn.local.");
    assert_eq!(a.ip, "10.0.0.5");
    assert_eq!(a.port, 8080);
    assert_eq!(a.properties, vec![("ip".to_string(), "10.0.0.5".to_string()), ("port".to_string(), "8080".to_string())]);
}

#[test]
fn service_info_is_built_for_dotted_addresses() {
    let built = create_service_info(&"10.0.0.5".to_string(), 8080).unwrap();
    assert_eq!(built.parts().port, 8080);
    assert_eq!(built.parts().ip, "10.0.0.5");
    let info = built.into_info();
    assert_eq!(info.get_port(), 8080);
    assert_eq!(info.get_fullname(), "AutobahnDiscovery._autobahn._udp.local.");
    assert!(create_service_info(&"not an address".to_string(), 8080).is_none());
}

#[test]
fn announcements_with_a_bad_port_but_no_address_are_skipped() {
    assert_eq!(discovered_peer(&"10.0.0.5".to_string(), None, Some("x")), None);
}

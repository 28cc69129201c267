use autobahn::util::Address;

#[test]
fn test_address_from_str() {
    let addr = Address::from_str("127.0.0.1:8080").unwrap();
    assert_eq!(addr.host, "127.0.0.1");
    assert_eq!(addr.port, 8080);
}

#[test]
fn address_without_colon_is_refused() {
    assert_eq!(Address::from_str("localhost").unwrap_err(), "Invalid address format");
}

#[test]
fn address_with_two_colons_is_refused() {
    assert_eq!(Address::from_str("a:1:2").unwrap_err(), "Invalid address format");
}

#[test]
fn address_with_bad_port_is_refused() {
    assert_eq!(Address::from_str("host:80x").unwrap_err(), "Invalid port number");
    assert_eq!(Address::from_str("host:").unwrap_err(), "Invalid port number");
    assert_eq!(Address::from_str("host:2147483648").unwrap_err(), "Invalid port number");
    assert_eq!(Address::from_str("host:-").unwrap_err(), "Invalid port number");
}

#[test]
fn address_ports_read_like_std() {
    assert_eq!(Address::from_str("h:-5").unwrap().port, -5);
    assert_eq!(Address::from_str("h:+7").unwrap().port, 7);
    assert_eq!(Address::from_str("h:2147483647").unwrap().port, 2147483647);
    assert_eq!(Address::from_str("h:-2147483648").unwrap().port, -2147483648);
    assert_eq!(Address::from_str(":1").unwrap().host, "");
}

#[test]
fn address_text_and_url() {
    let a = Address::new("10.0.0.2".to_string(), 9000);
    assert_eq!(a.to_string(), "10.0.0.2:9000");
    assert_eq!(a.build_ws_url(), "ws://10.0.0.2:9000");
    let b = Address::new("h".to_string(), -12);
    assert_eq!(b.to_string(), "h:-12");
}

#[test]
fn address_text_reads_back() {
    for (host, port) in [("127.0.0.1", 8080), ("example", 0), ("x", -2147483648), ("", 65535)] {
        let a = Address::new(host.to_string(), port);
        let b = Address::from_str(&a.to_string()).unwrap();
        assert!(a == b);
    }
}

#[test]
fn address_equality_and_clone() {
    let a = Address::new("h".to_string(), 1);
    let c = a.clone();
    assert!(a == c);
    assert!(a != Address::new("h".to_string(), 2));
    assert!(a != Address::new("g".to_string(), 1));
}

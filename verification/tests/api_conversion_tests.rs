use wakezilla::net::{mac_to_string, parse_ipv4, parse_mac};
use wakezilla::web::{api_port_forward_to_internal, machine_to_api_machine, Machine};

#[test]
fn api_port_forward_allows_missing_name() {
    let pf = wakezilla::PortForward {
        name: None,
        local_port: 2222,
        target_port: 22,
    };

    let internal = api_port_forward_to_internal(&pf);
    assert_eq!(internal.name, "");
}

#[test]
fn machine_maps_to_api_shape() {
    let machine = Machine {
        mac: "AA:BB:CC:DD:EE:FF".into(),
        ip: "192.168.1.10".parse().unwrap(),
        name: "Desktop".into(),
        description: None,
        turn_off_port: Some(3001),
        can_be_turned_off: true,
        inactivity_period: 30,
        port_forwards: vec![],
    };

    let api = machine_to_api_machine(&machine);
    assert_eq!(api.ip, "192.168.1.10");
    assert_eq!(api.turn_off_port, Some(3001));
}

#[test]
fn machine_from_api_parses_address() {
    let api = wakezilla::Machine {
        name: "desktop".into(),
        mac: "AA:BB:CC:DD:EE:FF".into(),
        ip: "192.168.1.10".into(),
        description: None,
        turn_off_port: None,
        can_be_turned_off: false,
        inactivity_period: 30,
        port_forwards: vec![wakezilla::PortForward {
            name: Some("ssh".into()),
            local_port: 2222,
            target_port: 22,
        }],
    };
    let m = wakezilla::web::machine_from_api(&api).unwrap();
    assert_eq!(m.ip.octets, [192, 168, 1, 10]);
    assert_eq!(m.port_forwards.len(), 1);
    assert_eq!(m.port_forwards[0].name, "ssh");

    let bad = wakezilla::Machine { ip: "bad-ip".into(), ..api };
    assert!(wakezilla::web::machine_from_api(&bad).is_none());
}

#[test]
fn validate_machine_form_rejects_invalid_ip() {
    let machine = wakezilla::Machine {
        name: "x".into(),
        mac: "AA:BB:CC:DD:EE:FF".into(),
        ip: "bad-ip".into(),
        description: None,
        turn_off_port: None,
        can_be_turned_off: false,
        inactivity_period: 30,
        port_forwards: vec![],
    };

    let errors = wakezilla::models::validate_machine_form(&machine);
    assert!(errors.contains_key("ip"));
}

#[test]
fn validate_machine_form_accepts_good_form() {
    let machine = wakezilla::Machine {
        name: "desktop".into(),
        mac: "AA:BB:CC:DD:EE:FF".into(),
        ip: "192.168.1.10".into(),
        description: None,
        turn_off_port: Some(3001),
        can_be_turned_off: true,
        inactivity_period: 30,
        port_forwards: vec![],
    };
    let errors = wakezilla::models::validate_machine_form(&machine);
    assert_eq!(errors.len(), 0);
}

#[test]
fn validate_machine_form_flags_each_field() {
    let machine = wakezilla::Machine {
        name: "   ".into(),
        mac: "not-a-mac".into(),
        ip: "999.1.2.3".into(),
        description: None,
        turn_off_port: Some(0),
        can_be_turned_off: true,
        inactivity_period: 30,
        port_forwards: vec![],
    };
    let errors = wakezilla::models::validate_machine_form(&machine);
    assert!(errors.contains_key("name"));
    assert!(errors.contains_key("ip"));
    assert!(errors.contains_key("turn_off_port"));
    assert!(errors.contains_key("mac"));
    assert_eq!(errors.len(), 4);
}

#[test]
fn parse_ipv4_rejects_malformed_quads() {
    assert_eq!(parse_ipv4("192.168.1.10").unwrap().octets, [192, 168, 1, 10]);
    assert_eq!(parse_ipv4("0.0.0.0").unwrap().octets, [0, 0, 0, 0]);
    assert_eq!(parse_ipv4("255.255.255.255").unwrap().octets, [255, 255, 255, 255]);
    assert!(parse_ipv4("256.1.1.1").is_none());
    assert!(parse_ipv4("01.2.3.4").is_none());
    assert!(parse_ipv4("1.2.3").is_none());
    assert!(parse_ipv4("1.2.3.4.5").is_none());
    assert!(parse_ipv4("").is_none());
    assert!(parse_ipv4("a.b.c.d").is_none());
}

#[test]
fn mac_parses_both_forms_and_renders_canonically() {
    let m = parse_mac("aa:bb:cc:dd:ee:01").unwrap();
    assert_eq!(m.octets, [0xAA, 0xBB, 0xCC, 0xDD, 0xEE, 0x01]);
    assert_eq!(mac_to_string(&m), "AA:BB:CC:DD:EE:01");
    let raw = parse_mac("aabbccddee01").unwrap();
    assert_eq!(raw.octets, m.octets);
    assert!(parse_mac("aa:bb:cc:dd:ee").is_none());
    assert!(parse_mac("zz:bb:cc:dd:ee:01").is_none());
    assert!(parse_mac("").is_none());
}

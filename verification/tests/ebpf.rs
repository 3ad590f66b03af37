use yxorp::addr::{IpAddr, SocketAddr};
use yxorp::proxy::ebpf::{
    cid_key, detect_interface, get_arp_mac, get_interface_mac, parse_arp_table, parse_mac_address,
    quic_route,
};

#[test]
fn test_parse_mac_address_valid() {
    let mac_str = "00:15:5d:01:02:03";
    assert_eq!(parse_mac_address(mac_str), Some([0x00, 0x15, 0x5d, 0x01, 0x02, 0x03]));

    let mac_str_newline = "00:15:5d:01:02:03\n";
    assert_eq!(parse_mac_address(mac_str_newline), Some([0x00, 0x15, 0x5d, 0x01, 0x02, 0x03]));
}

#[test]
fn test_parse_mac_address_invalid() {
    assert_eq!(parse_mac_address("invalid-mac"), None);
    assert_eq!(parse_mac_address("00:15:5d:01:02"), None);
    assert_eq!(parse_mac_address("00:15:5d:01:02:03:04"), None);
    assert_eq!(parse_mac_address("00:15:5d:01:02:zz"), None);
}

const ARP: &str = "\
IP address       HW type     Flags       HW address            Mask     Device
192.168.1.1      0x1         0x2         00:15:5d:0a:0b:0c     *        eth0
10.0.0.5         0x1         0x2         00:11:22:33:44:55     *        eth0
";

#[test]
fn test_parse_arp_table_match() {
    let target_ip = IpAddr::v4(10, 0, 0, 5);
    assert_eq!(parse_arp_table(ARP, target_ip), Some([0x00, 0x11, 0x22, 0x33, 0x44, 0x55]));

    let missing_ip = IpAddr::v4(10, 0, 0, 6);
    assert_eq!(parse_arp_table(ARP, missing_ip), None);
}

#[test]
fn arp_heading_is_not_an_entry() {
    let content = "10.0.0.5 0x1 0x2 00:11:22:33:44:55 * eth0\n";
    assert_eq!(parse_arp_table(content, IpAddr::v4(10, 0, 0, 5)), None);
    assert_eq!(parse_arp_table("", IpAddr::v4(10, 0, 0, 5)), None);
}

#[test]
fn loopback_has_no_hardware_address() {
    assert_eq!(get_arp_mac(IpAddr::v4(127, 0, 0, 1), Some(ARP)), None);
    assert_eq!(
        get_arp_mac(IpAddr::v4(192, 168, 1, 1), Some(ARP)),
        Some([0x00, 0x15, 0x5d, 0x0a, 0x0b, 0x0c])
    );
    assert_eq!(get_arp_mac(IpAddr::v4(192, 168, 1, 1), None), None);
    assert_eq!(get_interface_mac("lo", Some("00:15:5d:01:02:03")), None);
    assert_eq!(get_interface_mac("eth0", Some("00:15:5d:01:02:03\n")), Some([0, 0x15, 0x5d, 1, 2, 3]));
    assert_eq!(get_interface_mac("eth0", None), None);
}

#[test]
fn interface_is_detected() {
    let names: Vec<String> =
        vec!["lo".to_string(), "veth1".to_string(), "br-ab".to_string(), "ens3".to_string()];
    assert_eq!(detect_interface(IpAddr::v4(127, 0, 0, 1), &names), "lo");
    assert_eq!(detect_interface(IpAddr::V6(1), &names), "lo");
    assert_eq!(detect_interface(IpAddr::v4(10, 0, 0, 1), &names), "ens3");
    assert_eq!(detect_interface(IpAddr::v4(10, 0, 0, 1), &names[..3].to_vec()), "eth0");
}

#[test]
fn connection_keys_are_padded() {
    assert_eq!(cid_key(&[1, 2, 3]), [1, 2, 3, 0, 0, 0, 0, 0]);
    assert_eq!(cid_key(&[1, 2, 3, 4, 5, 6, 7, 8, 9]), [1, 2, 3, 4, 5, 6, 7, 8]);
    assert_ne!(cid_key(&[1, 2, 3]), cid_key(&[1, 2, 4]));
}

#[test]
fn routes_are_in_network_order() {
    let addr = SocketAddr::new(IpAddr::v4(10, 1, 2, 3), 0x1f90);
    let route = quic_route(Some(addr), Some([1; 6]), Some([2; 6])).unwrap();
    assert_eq!(route.dst_ip, [10, 1, 2, 3]);
    assert_eq!(route.dst_port, [0x1f, 0x90]);
    assert_eq!(route.dst_mac, [1; 6]);
    assert_eq!(route.src_mac, [2; 6]);
    assert!(quic_route(Some(addr), None, Some([2; 6])).is_none());
    assert!(quic_route(Some(addr), Some([1; 6]), None).is_none());
    assert!(quic_route(None, Some([1; 6]), Some([2; 6])).is_none());
    assert!(quic_route(Some(SocketAddr::new(IpAddr::V6(1), 1)), Some([1; 6]), Some([2; 6])).is_none());
}

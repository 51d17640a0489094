use nispor::mac::chars_of;
use nispor::{
    decimal_text, mac_address_str_to_u8, parse_as_mac, set_mac_address, ErrorKind, Fault, Iface,
    IfaceFlags, IfaceState, IfaceType, Request,
};

fn iface_with_mac(mac: Vec<u8>) -> Iface {
    Iface {
        name: "eth0".to_string(),
        index: 7,
        iface_type: IfaceType::Ethernet,
        state: IfaceState::Up,
        mtu: 1500,
        flags: IfaceFlags {
            broadcast: true,
            loopback: false,
            lower_up: true,
            multicast: true,
            no_arp: false,
            point_to_point: false,
            promisc: false,
            running: true,
            up: true,
        },
        ipv4: vec![],
        ipv6: vec![],
        mac_address: mac,
        veth: None,
    }
}

#[test]
fn mac_text_of_six_bytes() {
    let data = [0x00u8, 0x23, 0x45, 0x67, 0x89, 0x1a];
    assert_eq!(parse_as_mac(6, &data).unwrap(), "00:23:45:67:89:1a");
}

#[test]
fn mac_text_of_the_first_bytes_only() {
    let data = [0xffu8, 0x00, 0x0a, 0xb0];
    assert_eq!(parse_as_mac(2, &data).unwrap(), "ff:00");
    assert_eq!(parse_as_mac(1, &data).unwrap(), "ff");
    assert_eq!(parse_as_mac(4, &data).unwrap(), "ff:00:0a:b0");
}

#[test]
fn mac_text_of_no_bytes_is_empty() {
    assert_eq!(parse_as_mac(0, &[]).unwrap(), "");
    assert_eq!(parse_as_mac(0, &[1, 2, 3]).unwrap(), "");
}

#[test]
fn mac_text_of_more_bytes_than_there_are_is_a_bug() {
    let e = parse_as_mac(3, &[1, 2]).unwrap_err();
    assert_eq!(e.kind, ErrorKind::Bug);
    assert_eq!(e.fault, Fault::MacTooShort);
    assert_eq!(e.iface, "");
    assert_eq!(e.cause, "");
}

#[test]
fn mac_bytes_of_text() {
    assert_eq!(
        mac_address_str_to_u8("00:23:45:67:89:1a").unwrap(),
        vec![0x00u8, 0x23, 0x45, 0x67, 0x89, 0x1a]
    );
}

#[test]
fn mac_bytes_take_either_case_and_any_number_of_digits() {
    assert_eq!(mac_address_str_to_u8("AB:cD:0:00f").unwrap(), vec![0xabu8, 0xcd, 0x00, 0x0f]);
    assert_eq!(mac_address_str_to_u8("ff").unwrap(), vec![0xffu8]);
    assert_eq!(mac_address_str_to_u8("0000000ff:1").unwrap(), vec![0xffu8, 1]);
}

#[test]
fn mac_bytes_take_a_plus_sign_before_the_digits() {
    assert_eq!(mac_address_str_to_u8("+a:+0f").unwrap(), vec![0x0au8, 0x0f]);
}

#[test]
fn mac_text_with_a_bad_piece_is_refused() {
    for text in ["00:23:4g", "", ":", "00:", ":00", "00::01", "+", "-1", "1 ", "0x1", "a+", "++1"] {
        let e = mac_address_str_to_u8(text).unwrap_err();
        assert_eq!(e.kind, ErrorKind::InvalidArgument);
        assert_eq!(e.fault, Fault::MalformedMac);
        assert_eq!(e.iface, "");
        assert_eq!(e.cause, text);
    }
}

#[test]
fn mac_piece_above_a_byte_is_refused() {
    assert!(mac_address_str_to_u8("100").is_err());
    assert!(mac_address_str_to_u8("00:fff").is_err());
    assert!(mac_address_str_to_u8("ffffffffffffffffffffffffffff").is_err());
    assert!(mac_address_str_to_u8("1000000000000000g").is_err());
}

#[test]
fn mac_bytes_agree_with_the_standard_parser() {
    for piece in ["0", "7f", "FF", "+9", "100", "", "+", "g", "0a0", "00000001", "é"] {
        let ours = mac_address_str_to_u8(piece).ok();
        let std = u8::from_str_radix(piece, 16).ok().map(|b| vec![b]);
        assert_eq!(ours, std);
    }
}

#[test]
fn mac_text_and_bytes_are_inverse() {
    let data = vec![0xdeu8, 0xad, 0xbe, 0xef, 0x00, 0x01];
    let text = parse_as_mac(data.len(), &data).unwrap();
    assert_eq!(text, "de:ad:be:ef:00:01");
    assert_eq!(mac_address_str_to_u8(&text).unwrap(), data);
}

#[test]
fn same_mac_needs_no_request() {
    let iface = iface_with_mac(vec![0x00, 0x23, 0x45, 0x67, 0x89, 0x1a]);
    assert_eq!(set_mac_address(&iface, &"00:23:45:67:89:1a".to_string()).unwrap(), None);
}

#[test]
fn same_mac_in_another_spelling_needs_no_request() {
    let iface = iface_with_mac(vec![0x00, 0x23, 0x45, 0x67, 0x89, 0x1a]);
    assert_eq!(set_mac_address(&iface, &"0:23:45:67:89:1A".to_string()).unwrap(), None);
}

#[test]
fn other_mac_is_set() {
    let iface = iface_with_mac(vec![0x00, 0x23, 0x45, 0x67, 0x89, 0x1a]);
    assert_eq!(
        set_mac_address(&iface, &"00:23:45:67:89:1b".to_string()).unwrap(),
        Some(Request::SetMac { index: 7, mac: vec![0x00, 0x23, 0x45, 0x67, 0x89, 0x1b] })
    );
}

#[test]
fn malformed_mac_is_the_callers_error() {
    let iface = iface_with_mac(vec![0x00, 0x23, 0x45, 0x67, 0x89, 0x1a]);
    let e = set_mac_address(&iface, &"zz".to_string()).unwrap_err();
    assert_eq!(e.kind, ErrorKind::InvalidArgument);
    assert_eq!(e.fault, Fault::MalformedMac);
    assert_eq!(e.cause, "zz");
}

#[test]
fn empty_mac_text_on_an_interface_without_mac_needs_no_request() {
    let iface = iface_with_mac(vec![]);
    assert_eq!(set_mac_address(&iface, &"".to_string()).unwrap(), None);
    let iface = iface_with_mac(vec![1]);
    assert!(set_mac_address(&iface, &"".to_string()).is_err());
}

#[test]
fn numbers_in_decimal() {
    assert_eq!(decimal_text(0), "0");
    assert_eq!(decimal_text(7), "7");
    assert_eq!(decimal_text(10), "10");
    assert_eq!(decimal_text(4096), "4096");
    assert_eq!(decimal_text(u32::MAX), "4294967295");
}

#[test]
fn characters_of_a_text() {
    assert_eq!(chars_of(""), vec![]);
    assert_eq!(chars_of("a:é"), vec!['a', ':', 'é']);
}

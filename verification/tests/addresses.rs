use nispor::{
    has_address, AddrOrigin, Iface, IfaceFlags, IfaceState, IfaceType, IpAddrConf, IpAddrInfo,
    IpConf, IpFamily, Lifetime, Request,
};

const V4: u128 = 0xc000_0201;
const V6: u128 = 0x2001_0db8_000a_0000_0000_0000_0000_0009;
const LINK_LOCAL: u128 = 0xfe80_0000_0000_0000_0223_45ff_fe67_891a;

fn info(address: u128, prefix_len: u8, origin: AddrOrigin) -> IpAddrInfo {
    IpAddrInfo {
        address,
        prefix_len,
        origin,
        valid_lft: Lifetime::Forever,
        preferred_lft: Lifetime::Forever,
    }
}

fn conf(address: u128, prefix_len: u8) -> IpAddrConf {
    IpAddrConf { address, prefix_len }
}

fn live_iface() -> Iface {
    Iface {
        name: "veth1".to_string(),
        index: 5,
        iface_type: IfaceType::Veth,
        state: IfaceState::Up,
        mtu: 1500,
        flags: IfaceFlags {
            broadcast: true,
            loopback: false,
            lower_up: true,
            multicast: true,
            no_arp: false,
            point_to_point: false,
            promisc: false,
            running: true,
            up: true,
        },
        ipv4: vec![info(V4, 24, AddrOrigin::Manual)],
        ipv6: vec![
            info(V6, 64, AddrOrigin::Manual),
            info(LINK_LOCAL, 64, AddrOrigin::Autoconfigured),
        ],
        mac_address: vec![0x00, 0x23, 0x45, 0x67, 0x89, 0x1a],
        veth: None,
    }
}

fn del(family: IpFamily, address: u128, prefix_len: u8) -> Request {
    Request::DelAddress { index: 5, family, address, prefix_len }
}

fn add(family: IpFamily, address: u128, prefix_len: u8) -> Request {
    Request::AddAddress { index: 5, family, address, prefix_len }
}

#[test]
fn empty_configuration_removes_the_manual_addresses_only() {
    let empty = IpConf { addresses: vec![] };
    assert_eq!(empty.apply(&live_iface(), IpFamily::Ipv4), vec![del(IpFamily::Ipv4, V4, 24)]);
    assert_eq!(empty.apply(&live_iface(), IpFamily::Ipv6), vec![del(IpFamily::Ipv6, V6, 64)]);
}

#[test]
fn desired_addresses_that_are_live_need_nothing() {
    let same = IpConf { addresses: vec![conf(V6, 64)] };
    assert_eq!(same.apply(&live_iface(), IpFamily::Ipv6), vec![]);
}

#[test]
fn removals_come_before_additions() {
    let other = IpConf { addresses: vec![conf(0xc000_0202, 24), conf(0xc000_0203, 25)] };
    assert_eq!(
        other.apply(&live_iface(), IpFamily::Ipv4),
        vec![
            del(IpFamily::Ipv4, V4, 24),
            add(IpFamily::Ipv4, 0xc000_0202, 24),
            add(IpFamily::Ipv4, 0xc000_0203, 25),
        ]
    );
}

#[test]
fn another_prefix_length_is_another_address() {
    let other = IpConf { addresses: vec![conf(V4, 25)] };
    assert_eq!(
        other.apply(&live_iface(), IpFamily::Ipv4),
        vec![del(IpFamily::Ipv4, V4, 24), add(IpFamily::Ipv4, V4, 25)]
    );
}

#[test]
fn an_address_desired_twice_is_added_once() {
    let twice = IpConf { addresses: vec![conf(7, 8), conf(V4, 24), conf(7, 8)] };
    assert_eq!(twice.apply(&live_iface(), IpFamily::Ipv4), vec![add(IpFamily::Ipv4, 7, 8)]);
}

#[test]
fn an_address_live_twice_is_removed_once() {
    let mut iface = live_iface();
    iface.ipv4.push(info(V4, 24, AddrOrigin::Manual));
    let empty = IpConf { addresses: vec![] };
    assert_eq!(empty.apply(&iface, IpFamily::Ipv4), vec![del(IpFamily::Ipv4, V4, 24)]);
}

#[test]
fn an_autoconfigured_address_is_neither_removed_nor_added() {
    let same = IpConf { addresses: vec![conf(LINK_LOCAL, 64)] };
    assert_eq!(same.apply(&live_iface(), IpFamily::Ipv6), vec![del(IpFamily::Ipv6, V6, 64)]);
}

#[test]
fn an_interface_without_addresses_gets_the_desired_ones_in_order() {
    let mut iface = live_iface();
    iface.ipv6.clear();
    let desired = IpConf { addresses: vec![conf(3, 64), conf(1, 64), conf(2, 64)] };
    assert_eq!(
        desired.apply(&iface, IpFamily::Ipv6),
        vec![add(IpFamily::Ipv6, 3, 64), add(IpFamily::Ipv6, 1, 64), add(IpFamily::Ipv6, 2, 64)]
    );
}

#[test]
fn an_address_is_found_by_address_and_prefix_length() {
    let live = live_iface().ipv6;
    assert!(has_address(&live, conf(V6, 64)));
    assert!(has_address(&live, conf(LINK_LOCAL, 64)));
    assert!(!has_address(&live, conf(V6, 65)));
    assert!(!has_address(&live, conf(V4, 64)));
    assert!(!has_address(&vec![], conf(V4, 24)));
}

#[test]
fn no_removal_names_an_autoconfigured_address() {
    let mut iface = live_iface();
    iface.ipv6.push(info(LINK_LOCAL, 64, AddrOrigin::Manual));
    let empty = IpConf { addresses: vec![] };
    assert_eq!(empty.apply(&iface, IpFamily::Ipv6), vec![del(IpFamily::Ipv6, V6, 64)]);
}

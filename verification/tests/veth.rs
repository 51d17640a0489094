use netlink_packet_route::rule::RuleMessage;
use nispor::{
    AddrOrigin, Iface, IfaceConf, IfaceFlags, IfaceState, IfaceType, IpAddrConf, IpAddrInfo,
    IpConf, Lifetime, NetConf, NetState, VethConf, VethInfo,
};

const IFACE_NAME: &str = "veth1";

const LINK_LOCAL: u128 = 0xfe80_0000_0000_0000_0223_45ff_fe67_891a;

fn iface_conf(name: &str) -> IfaceConf {
    IfaceConf { name: name.to_string(), ..Default::default() }
}

fn create_veth1() -> NetConf {
    NetConf {
        ifaces: Some(vec![IfaceConf {
            iface_type: Some(IfaceType::Veth),
            mac_address: Some("00:23:45:67:89:1a".to_string()),
            veth: Some(VethConf { peer: "veth1.ep".to_string() }),
            ..iface_conf("veth1")
        }]),
    }
}

fn delete_veth1() -> NetConf {
    NetConf { ifaces: Some(vec![IfaceConf { state: IfaceState::Absent, ..iface_conf("veth1") }]) }
}

fn down_veth1() -> NetConf {
    NetConf { ifaces: Some(vec![IfaceConf { state: IfaceState::Down, ..iface_conf("veth1") }]) }
}

fn add_ip_conf() -> NetConf {
    NetConf {
        ifaces: Some(vec![IfaceConf {
            ipv4: Some(IpConf {
                addresses: vec![IpAddrConf { address: 0xc000_0201, prefix_len: 24 }],
            }),
            ipv6: Some(IpConf {
                addresses: vec![IpAddrConf {
                    address: 0x2001_0db8_000a_0000_0000_0000_0000_0009,
                    prefix_len: 64,
                }],
            }),
            ..iface_conf("veth1")
        }]),
    }
}

fn empty_ip_conf() -> NetConf {
    NetConf {
        ifaces: Some(vec![IfaceConf {
            ipv4: Some(IpConf { addresses: vec![] }),
            ipv6: Some(IpConf { addresses: vec![] }),
            ..iface_conf("veth1")
        }]),
    }
}

fn change_peer_veth1() -> NetConf {
    NetConf {
        ifaces: Some(vec![IfaceConf {
            iface_type: Some(IfaceType::Veth),
            mac_address: Some("00:23:45:67:89:1a".to_string()),
            veth: Some(VethConf { peer: "veth1.end".to_string() }),
            ..iface_conf("veth1")
        }]),
    }
}

fn forever(address: u128, prefix_len: u8, origin: AddrOrigin) -> IpAddrInfo {
    IpAddrInfo {
        address,
        prefix_len,
        origin,
        valid_lft: Lifetime::Forever,
        preferred_lft: Lifetime::Forever,
    }
}

fn expected_iface_state(index: u32) -> Iface {
    Iface {
        name: "veth1".to_string(),
        index,
        iface_type: IfaceType::Veth,
        state: IfaceState::Up,
        mtu: 1500,
        flags: IfaceFlags {
            broadcast: true,
            loopback: false,
            lower_up: true,
            multicast: true,
            no_arp: false,
            point_to_point: false,
            promisc: false,
            running: true,
            up: true,
        },
        ipv4: vec![],
        ipv6: vec![forever(LINK_LOCAL, 64, AddrOrigin::Autoconfigured)],
        mac_address: vec![0x00, 0x23, 0x45, 0x67, 0x89, 0x1a],
        veth: Some(VethInfo { peer: "veth1.ep".to_string() }),
    }
}

fn expected_iface_state_add_ip(index: u32) -> Iface {
    Iface {
        ipv4: vec![forever(0xc000_0201, 24, AddrOrigin::Manual)],
        ipv6: vec![
            forever(0x2001_0db8_000a_0000_0000_0000_0000_0009, 64, AddrOrigin::Manual),
            forever(LINK_LOCAL, 64, AddrOrigin::Autoconfigured),
        ],
        ..expected_iface_state(index)
    }
}

/// What the kernel does unasked: an interface that is up has the
/// link-local address that follows from its MAC address.
fn autoconfigure(host: &mut NetState) {
    for iface in host.ifaces.iter_mut() {
        let m = &iface.mac_address;
        if iface.state != IfaceState::Up || m.len() != 6 {
            continue;
        }
        let low = [m[0] ^ 0x02, m[1], m[2], 0xff, 0xfe, m[3], m[4], m[5]];
        let mut address: u128 = 0xfe80 << 112;
        for (i, b) in low.iter().enumerate() {
            address |= (*b as u128) << (8 * (7 - i));
        }
        if !iface.ipv6.iter().any(|a| a.address == address) {
            iface.ipv6.push(forever(address, 64, AddrOrigin::Autoconfigured));
        }
    }
}

fn apply(conf: &NetConf, host: &mut NetState) -> bool {
    let changed = conf.dry_run(host).unwrap();
    autoconfigure(host);
    changed
}

/// The snapshot that a retrieval gives of the host. The kernel lists the
/// addresses of an interface by scope, the widest first: a link-local
/// address comes after the others.
fn retrieve(host: &NetState) -> NetState {
    let mut links = host.ifaces.clone();
    for link in links.iter_mut() {
        link.ipv6.sort_by_key(|a| a.address >> 118 == 0x3fa);
    }
    NetState::retrieve(Ok(links), Ok(host.routes.clone()), Ok(Vec::<RuleMessage>::new())).unwrap()
}

fn with_veth_iface<T>(test: T)
where
    T: FnOnce(&mut NetState),
{
    let mut host = NetState { ifaces: vec![], routes: vec![], rules: vec![] };
    assert!(apply(&create_veth1(), &mut host));
    test(&mut host);
    assert!(apply(&delete_veth1(), &mut host));
    assert!(host.ifaces.is_empty());
}

#[test]
fn test_get_veth_iface_yaml() {
    with_veth_iface(|host| {
        let state = retrieve(host);
        let iface = state.get(&IFACE_NAME.to_string()).unwrap();
        let iface_type = &iface.iface_type;
        assert_eq!(iface_type, &IfaceType::Veth);
        assert_eq!(*iface, expected_iface_state(iface.index));
    });
}

#[test]
fn test_veth_add_and_remove_ip() {
    with_veth_iface(|host| {
        apply(&add_ip_conf(), host);
        let state = retrieve(host);
        let iface = state.get(&IFACE_NAME.to_string()).unwrap();
        let iface_type = &iface.iface_type;
        assert_eq!(iface_type, &IfaceType::Veth);
        assert_eq!(*iface, expected_iface_state_add_ip(iface.index));
        apply(&empty_ip_conf(), host);
        let state = retrieve(host);
        let iface = state.get(&IFACE_NAME.to_string()).unwrap();
        let iface_type = &iface.iface_type;
        assert_eq!(iface_type, &IfaceType::Veth);
        assert_eq!(*iface, expected_iface_state(iface.index));
    });
}

#[test]
fn test_veth_bring_iface_down() {
    with_veth_iface(|host| {
        assert!(apply(&down_veth1(), host));
        let state = retrieve(host);
        let iface = state.get(&IFACE_NAME.to_string()).unwrap();
        assert_eq!(iface.state, IfaceState::Down);
    });
}

#[test]
fn test_veth_change_peer() {
    with_veth_iface(|host| {
        assert!(apply(&change_peer_veth1(), host));
        let state = retrieve(host);
        let iface = state.get(&IFACE_NAME.to_string()).unwrap();
        assert_eq!(iface.state, IfaceState::Up);
        assert_eq!(iface.veth, Some(VethInfo { peer: "veth1.end".into() }));
    });
}

#[test]
fn test_veth_apply_identical_conf() {
    with_veth_iface(|host| {
        assert!(!apply(&create_veth1(), host));
        let state = retrieve(host);
        let iface = state.get(&IFACE_NAME.to_string()).unwrap();
        let iface_type = &iface.iface_type;
        assert_eq!(iface_type, &IfaceType::Veth);
        assert_eq!(*iface, expected_iface_state(iface.index));
    });
}

#[test]
fn omitted_addresses_are_left_untouched() {
    with_veth_iface(|host| {
        apply(&add_ip_conf(), host);
        let before = host.clone();
        let conf = NetConf { ifaces: Some(vec![iface_conf("veth1")]) };
        assert!(!apply(&conf, host));
        assert_eq!(*host, before);
    });
}

#[test]
fn second_application_changes_nothing() {
    with_veth_iface(|host| {
        assert!(apply(&add_ip_conf(), host));
        let after_first = host.clone();
        assert!(!apply(&add_ip_conf(), host));
        assert_eq!(*host, after_first);
    });
}

#[test]
fn bringing_down_twice_changes_once() {
    with_veth_iface(|host| {
        assert!(apply(&down_veth1(), host));
        assert!(!apply(&down_veth1(), host));
        assert_eq!(host.get(&IFACE_NAME.to_string()).unwrap().state, IfaceState::Down);
    });
}

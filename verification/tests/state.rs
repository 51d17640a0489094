use netlink_packet_route::rule::RuleMessage;
use nispor::{
    get_ifaces, get_routes, veth_iface_tidy_up, ErrorKind, Event, FailureKind, Fault, Iface,
    IfaceFlags, IfaceState, IfaceType, IpFamily, NetState, Request, Route, RouteRule,
    TransportFailure, VethInfo,
};

fn iface(name: &str, index: u32, iface_type: IfaceType, peer: Option<&str>) -> Iface {
    Iface {
        name: name.to_string(),
        index,
        iface_type,
        state: IfaceState::Down,
        mtu: 1500,
        flags: IfaceFlags {
            broadcast: true,
            loopback: false,
            lower_up: false,
            multicast: true,
            no_arp: false,
            point_to_point: false,
            promisc: false,
            running: false,
            up: false,
        },
        ipv4: vec![],
        ipv6: vec![],
        mac_address: vec![0, 0, 0, 0, 0, 0],
        veth: peer.map(|p| VethInfo { peer: p.to_string() }),
    }
}

fn peers(ifaces: &[Iface]) -> Vec<Option<String>> {
    ifaces.iter().map(|i| i.veth.as_ref().map(|v| v.peer.clone())).collect()
}

fn failure(kind: FailureKind, cause: &str) -> TransportFailure {
    TransportFailure { kind, cause: cause.to_string() }
}

#[test]
fn peers_known_by_index_are_named() {
    let mut ifaces = vec![
        iface("veth1", 10, IfaceType::Veth, Some("11")),
        iface("veth1.ep", 11, IfaceType::Veth, Some("10")),
    ];
    veth_iface_tidy_up(&mut ifaces);
    assert_eq!(peers(&ifaces), vec![Some("veth1.ep".to_string()), Some("veth1".to_string())]);
    assert_eq!(ifaces[0].name, "veth1");
    assert_eq!(ifaces[0].index, 10);
}

#[test]
fn a_peer_in_another_namespace_keeps_its_index() {
    let mut ifaces = vec![iface("veth1", 10, IfaceType::Veth, Some("42"))];
    veth_iface_tidy_up(&mut ifaces);
    assert_eq!(peers(&ifaces), vec![Some("42".to_string())]);
}

#[test]
fn only_the_decimal_form_of_an_index_names_a_peer() {
    let mut ifaces = vec![
        iface("a", 7, IfaceType::Veth, Some("07")),
        iface("b", 8, IfaceType::Veth, Some("+7")),
        iface("c", 9, IfaceType::Veth, Some("7")),
    ];
    veth_iface_tidy_up(&mut ifaces);
    assert_eq!(
        peers(&ifaces),
        vec![Some("07".to_string()), Some("+7".to_string()), Some("a".to_string())]
    );
}

#[test]
fn other_types_and_missing_peers_are_left_alone() {
    let mut ifaces = vec![
        iface("br0", 1, IfaceType::Bridge, Some("2")),
        iface("veth0", 2, IfaceType::Veth, None),
    ];
    let before = ifaces.clone();
    veth_iface_tidy_up(&mut ifaces);
    assert_eq!(ifaces, before);
}

#[test]
fn of_two_interfaces_with_one_index_the_last_names_the_peer() {
    let mut ifaces = vec![
        iface("first", 3, IfaceType::Dummy, None),
        iface("second", 3, IfaceType::Dummy, None),
        iface("veth0", 4, IfaceType::Veth, Some("3")),
    ];
    veth_iface_tidy_up(&mut ifaces);
    assert_eq!(ifaces[2].veth, Some(VethInfo { peer: "second".to_string() }));
}

#[test]
fn a_listing_is_keyed_by_name_and_the_later_entry_wins() {
    let ifaces = get_ifaces(vec![
        iface("a", 1, IfaceType::Dummy, None),
        iface("b", 2, IfaceType::Dummy, None),
        iface("a", 3, IfaceType::Bridge, None),
    ]);
    assert_eq!(
        ifaces,
        vec![iface("a", 3, IfaceType::Bridge, None), iface("b", 2, IfaceType::Dummy, None)]
    );
}

#[test]
fn a_snapshot_holds_interfaces_routes_and_rules() {
    let route = Route { family: IpFamily::Ipv4, dst: 0, prefix_len: 0, oif: 2, table: 254 };
    let state = NetState::retrieve(
        Ok(vec![
            iface("veth1", 10, IfaceType::Veth, Some("11")),
            iface("veth1.ep", 11, IfaceType::Veth, Some("10")),
        ]),
        Ok(vec![route]),
        Ok(vec![RuleMessage::default(), RuleMessage::default()]),
    )
    .unwrap();
    assert_eq!(state.ifaces.len(), 2);
    assert_eq!(
        state.get(&"veth1".to_string()).unwrap().veth,
        Some(VethInfo { peer: "veth1.ep".to_string() })
    );
    assert_eq!(state.position(&"veth1.ep".to_string()), Some(1));
    assert_eq!(state.position(&"veth2".to_string()), None);
    assert_eq!(state.index_position(11), Some(1));
    assert_eq!(state.index_position(12), None);
    assert_eq!(state.routes, vec![route]);
    assert_eq!(state.rules, vec![RouteRule {}, RouteRule {}]);
}

#[test]
fn a_listing_that_failed_is_an_error_of_its_kind() {
    let e = NetState::retrieve(
        Err(failure(FailureKind::Unreachable, "no socket")),
        Err(failure(FailureKind::Undecodable, "later")),
        Ok(vec![]),
    )
    .unwrap_err();
    assert_eq!(e.kind, ErrorKind::TransportError);
    assert_eq!(e.fault, Fault::RetrieveFailed);
    assert_eq!(e.iface, "");
    assert_eq!(e.cause, "no socket");

    let e = NetState::retrieve(
        Ok(vec![]),
        Err(failure(FailureKind::Undecodable, "short message")),
        Err(failure(FailureKind::Unreachable, "later")),
    )
    .unwrap_err();
    assert_eq!(e.kind, ErrorKind::ProtocolError);
    assert_eq!(e.cause, "short message");

    let e = NetState::retrieve(
        Ok(vec![]),
        Ok(vec![]),
        Err(failure(FailureKind::Unreachable, "rules")),
    )
    .unwrap_err();
    assert_eq!(e.kind, ErrorKind::TransportError);
    assert_eq!(e.cause, "rules");
}

#[test]
fn there_is_a_rule_for_each_message() {
    assert_eq!(get_routes(vec![]).unwrap(), vec![]);
    assert_eq!(
        get_routes(vec![RuleMessage::default(), RuleMessage::default(), RuleMessage::default()])
            .unwrap(),
        vec![RouteRule {}, RouteRule {}, RouteRule {}]
    );
}

#[test]
fn the_model_creates_both_ends_of_a_veth_pair() {
    let mut host = NetState { ifaces: vec![iface("lo", 1, IfaceType::Loopback, None)], routes: vec![], rules: vec![] };
    let create = Request::CreateVeth { name: "veth1".to_string(), peer: "veth1.ep".to_string() };
    assert_eq!(host.perform(&create), Event::Done);
    assert_eq!(host.ifaces[1], iface("veth1", 2, IfaceType::Veth, Some("veth1.ep")));
    assert_eq!(host.ifaces[2], iface("veth1.ep", 3, IfaceType::Veth, Some("veth1")));
    let refused = Event::Failed(failure(FailureKind::Unreachable, ""));
    let before = host.clone();
    assert_eq!(host.perform(&create), refused);
    let same = Request::CreateVeth { name: "x".to_string(), peer: "x".to_string() };
    assert_eq!(host.perform(&same), refused);
    let taken = Request::CreateVeth { name: "x".to_string(), peer: "lo".to_string() };
    assert_eq!(host.perform(&taken), refused);
    assert_eq!(host, before);
}

#[test]
fn the_model_runs_out_of_indices() {
    let mut host = NetState {
        ifaces: vec![iface("last", u32::MAX - 1, IfaceType::Dummy, None)],
        routes: vec![],
        rules: vec![],
    };
    let create = Request::CreateVeth { name: "a".to_string(), peer: "b".to_string() };
    assert_eq!(host.perform(&create), Event::Failed(failure(FailureKind::Unreachable, "")));
    host.ifaces[0].index = u32::MAX - 2;
    assert_eq!(host.perform(&create), Event::Done);
    assert_eq!(host.ifaces[2].index, u32::MAX);
}

#[test]
fn the_model_deletes_both_ends_of_a_veth_pair() {
    let mut host = NetState {
        ifaces: vec![
            iface("lo", 1, IfaceType::Loopback, None),
            iface("veth1", 2, IfaceType::Veth, Some("veth1.ep")),
            iface("veth1.ep", 3, IfaceType::Veth, Some("veth1")),
        ],
        routes: vec![],
        rules: vec![],
    };
    assert_eq!(host.perform(&Request::DeleteLink { index: 3 }), Event::Done);
    assert_eq!(host.ifaces, vec![iface("lo", 1, IfaceType::Loopback, None)]);
    assert_eq!(
        host.perform(&Request::DeleteLink { index: 3 }),
        Event::Failed(failure(FailureKind::Unreachable, ""))
    );
}

#[test]
fn the_model_refuses_what_the_kernel_would() {
    let mut host = NetState {
        ifaces: vec![iface("d0", 4, IfaceType::Dummy, None)],
        routes: vec![],
        rules: vec![],
    };
    let refused = Event::Failed(failure(FailureKind::Unreachable, ""));
    let add = Request::AddAddress { index: 4, family: IpFamily::Ipv4, address: 1, prefix_len: 8 };
    let del = Request::DelAddress { index: 4, family: IpFamily::Ipv4, address: 1, prefix_len: 8 };
    assert_eq!(host.perform(&del), refused);
    assert_eq!(host.perform(&add), Event::Done);
    assert_eq!(host.perform(&add), refused);
    assert_eq!(host.ifaces[0].ipv4.len(), 1);
    assert_eq!(host.perform(&del), Event::Done);
    assert_eq!(host.ifaces[0].ipv4.len(), 0);
    assert_eq!(host.perform(&Request::SetMac { index: 5, mac: vec![1] }), refused);
    assert_eq!(host.perform(&Request::SetAdminState { index: 5, up: true }), refused);
    assert_eq!(host.perform(&Request::SetAdminState { index: 4, up: true }), Event::Done);
    assert_eq!(host.ifaces[0].state, IfaceState::Up);
    assert!(host.ifaces[0].flags.up && host.ifaces[0].flags.running && host.ifaces[0].flags.lower_up);
    assert_eq!(host.perform(&Request::SetMac { index: 4, mac: vec![1, 2] }), Event::Done);
    assert_eq!(host.ifaces[0].mac_address, vec![1, 2]);
}

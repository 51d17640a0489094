use nispor::{
    apply_iface_state, get_iface, is_virtual_iface, Action, AddrOrigin, ErrorKind, Event,
    FailureKind, Fault, Iface, IfaceApply, IfaceConf, IfaceFlags, IfaceState, IfaceType,
    IpAddrConf, IpAddrInfo, IpConf, IpFamily, Lifetime, NetApply, NetConf, NetState, NisporError,
    Request, Stage, TransportFailure, VethConf, VethInfo,
};

fn flags(up: bool) -> IfaceFlags {
    IfaceFlags {
        broadcast: true,
        loopback: false,
        lower_up: up,
        multicast: true,
        no_arp: false,
        point_to_point: false,
        promisc: false,
        running: up,
        up,
    }
}

fn veth(name: &str, index: u32, peer: &str) -> Iface {
    Iface {
        name: name.to_string(),
        index,
        iface_type: IfaceType::Veth,
        state: IfaceState::Up,
        mtu: 1500,
        flags: flags(true),
        ipv4: vec![],
        ipv6: vec![],
        mac_address: vec![0x00, 0x23, 0x45, 0x67, 0x89, 0x1a],
        veth: Some(VethInfo { peer: peer.to_string() }),
    }
}

fn host(ifaces: Vec<Iface>) -> NetState {
    NetState { ifaces, routes: vec![], rules: vec![] }
}

fn conf(name: &str) -> IfaceConf {
    IfaceConf { name: name.to_string(), ..Default::default() }
}

fn veth_conf(name: &str, peer: &str) -> IfaceConf {
    IfaceConf {
        iface_type: Some(IfaceType::Veth),
        veth: Some(VethConf { peer: peer.to_string() }),
        ..conf(name)
    }
}

fn failure(cause: &str) -> TransportFailure {
    TransportFailure { kind: FailureKind::Unreachable, cause: cause.to_string() }
}

fn inspecting() -> IfaceApply {
    IfaceApply { stage: Stage::Inspecting, queue: vec![], changed: false }
}

fn error_of(action: Action) -> NisporError {
    match action {
        Action::Finish(Err(e)) => e,
        other => panic!("no error: {:?}", other),
    }
}

/// Runs a reconciliation against a snapshot and returns the requests sent.
fn requests_sent(conf: &IfaceConf, host: &mut NetState) -> (Vec<Request>, Result<bool, NisporError>) {
    let mut sent = Vec::new();
    let (mut state, mut action) = conf.apply(IfaceApply::new(), Event::Start);
    loop {
        if let Action::Finish(r) = action {
            return (sent, r);
        }
        if let Action::Send(request) = &action {
            sent.push(request.clone());
        }
        let event = host.answer(&action);
        let next = conf.apply(state, event);
        state = next.0;
        action = next.1;
    }
}

#[test]
fn default_configuration_asks_for_up_and_nothing_else() {
    let c = IfaceConf::default();
    assert_eq!(c.state, IfaceState::Up);
    assert_eq!(nispor::default_iface_state(), IfaceState::Up);
    assert_eq!(c.name, "");
    assert_eq!(c.iface_type, None);
    assert_eq!(c.ipv4, None);
    assert_eq!(c.ipv6, None);
    assert_eq!(c.veth, None);
    assert_eq!(c.mac_address, None);
    assert!(!c.is_absent());
    assert!(IfaceConf { state: IfaceState::Absent, ..conf("a") }.is_absent());
}

#[test]
fn virtual_types_are_all_but_ethernet_and_unknown() {
    for t in [
        IfaceType::Bond,
        IfaceType::Bridge,
        IfaceType::Dummy,
        IfaceType::Loopback,
        IfaceType::MacVlan,
        IfaceType::MacVtap,
        IfaceType::OpenvSwitch,
        IfaceType::Tun,
        IfaceType::Veth,
        IfaceType::Vlan,
        IfaceType::Vrf,
        IfaceType::Vxlan,
    ] {
        assert!(is_virtual_iface(&t));
    }
    assert!(!is_virtual_iface(&IfaceType::Ethernet));
    assert!(!is_virtual_iface(&IfaceType::Unknown));
}

#[test]
fn a_reconciliation_begins_with_a_snapshot() {
    let (state, action) = conf("veth1").apply(IfaceApply::new(), Event::Start);
    assert_eq!(state, inspecting());
    assert_eq!(action, Action::Retrieve);
}

#[test]
fn absent_and_not_there_is_the_end() {
    let c = IfaceConf {
        state: IfaceState::Absent,
        iface_type: Some(IfaceType::Bridge),
        mac_address: Some("not a mac".to_string()),
        veth: Some(VethConf { peer: "p".to_string() }),
        ipv4: Some(IpConf { addresses: vec![IpAddrConf { address: 1, prefix_len: 8 }] }),
        ..conf("veth1")
    };
    let snapshot = host(vec![veth("other", 2, "veth1")]);
    let (state, action) = c.apply(inspecting(), Event::Snapshot(snapshot.clone()));
    assert_eq!(state.stage, Stage::Finished);
    assert_eq!(action, Action::Finish(Ok(false)));
    let mut live = snapshot.clone();
    assert_eq!(requests_sent(&c, &mut live), (vec![], Ok(false)));
    assert_eq!(live, snapshot);
}

#[test]
fn absent_and_there_is_deleted() {
    let c = IfaceConf { state: IfaceState::Absent, ..conf("veth1") };
    let snapshot = host(vec![veth("veth1", 4, "veth1.ep"), veth("veth1.ep", 5, "veth1")]);
    let (state, action) = c.apply(inspecting(), Event::Snapshot(snapshot));
    assert_eq!(state.stage, Stage::Removing);
    assert_eq!(action, Action::Send(Request::DeleteLink { index: 4 }));
    let (state, action) = c.apply(state, Event::Done);
    assert_eq!(state.stage, Stage::Finished);
    assert_eq!(action, Action::Finish(Ok(true)));
}

#[test]
fn a_new_interface_needs_a_type() {
    let (_, action) = conf("br0").apply(inspecting(), Event::Snapshot(host(vec![])));
    let e = error_of(action);
    assert_eq!(e.kind, ErrorKind::InvalidArgument);
    assert_eq!(e.fault, Fault::TypeUndefined);
    assert_eq!(e.iface, "br0");
}

#[test]
fn another_type_than_the_live_one_is_refused_and_nothing_is_touched() {
    let c = IfaceConf { iface_type: Some(IfaceType::Bridge), ..conf("veth1") };
    let snapshot = host(vec![veth("veth1", 4, "veth1.ep"), veth("veth1.ep", 5, "veth1")]);
    let mut live = snapshot.clone();
    let (sent, outcome) = requests_sent(&c, &mut live);
    assert_eq!(sent, vec![]);
    let e = outcome.unwrap_err();
    assert_eq!(e.kind, ErrorKind::InvalidArgument);
    assert_eq!(e.fault, Fault::TypeConflict { live: IfaceType::Veth, desired: IfaceType::Bridge });
    assert_eq!(e.iface, "veth1");
    assert_eq!(live, snapshot);
}

#[test]
fn a_new_veth_needs_a_peer() {
    let c = IfaceConf { iface_type: Some(IfaceType::Veth), ..conf("veth1") };
    let (_, action) = c.apply(inspecting(), Event::Snapshot(host(vec![])));
    let e = error_of(action);
    assert_eq!(e.kind, ErrorKind::InvalidArgument);
    assert_eq!(e.fault, Fault::PeerUndefined);
    assert_eq!(e.iface, "veth1");
}

#[test]
fn a_live_veth_without_peer_is_a_bug() {
    let mut broken = veth("veth1", 4, "");
    broken.veth = None;
    let mut live = host(vec![broken]);
    let (sent, outcome) = requests_sent(&veth_conf("veth1", "veth1.ep"), &mut live);
    assert_eq!(sent, vec![]);
    let e = outcome.unwrap_err();
    assert_eq!(e.kind, ErrorKind::Bug);
    assert_eq!(e.fault, Fault::PeerMissing);
    assert_eq!(e.iface, "veth1");
}

#[test]
fn veth_plan_has_three_cases() {
    let c = veth_conf("veth1", "veth1.ep");
    let v = c.veth.clone().unwrap();
    let create =
        Request::CreateVeth { name: "veth1".to_string(), peer: "veth1.ep".to_string() };
    assert_eq!(v.apply(&c, None).unwrap(), vec![create.clone()]);
    assert_eq!(v.apply(&c, Some(&veth("veth1", 9, "veth1.ep"))).unwrap(), vec![]);
    assert_eq!(
        v.apply(&c, Some(&veth("veth1", 9, "veth1.end"))).unwrap(),
        vec![Request::DeleteLink { index: 9 }, create]
    );
}

#[test]
fn another_peer_means_one_delete_and_one_create() {
    let mut live = host(vec![]);
    assert_eq!(veth_conf("veth1", "veth1.ep").dry_run(&mut live), Ok(true));
    let old_index = live.get(&"veth1".to_string()).unwrap().index;
    let (sent, outcome) = requests_sent(&veth_conf("veth1", "veth1.end"), &mut live);
    assert_eq!(outcome, Ok(true));
    let deletes = sent.iter().filter(|r| matches!(r, Request::DeleteLink { .. })).count();
    let creates = sent.iter().filter(|r| matches!(r, Request::CreateVeth { .. })).count();
    assert_eq!((deletes, creates), (1, 1));
    assert_eq!(sent[0], Request::DeleteLink { index: old_index });
    assert_eq!(
        sent[1],
        Request::CreateVeth { name: "veth1".to_string(), peer: "veth1.end".to_string() }
    );
    let iface = live.get(&"veth1".to_string()).unwrap();
    assert_eq!(iface.veth, Some(VethInfo { peer: "veth1.end".to_string() }));
    assert!(live.get(&"veth1.ep".to_string()).is_none());
    assert_eq!(live.get(&"veth1.end".to_string()).unwrap().veth, Some(VethInfo { peer: "veth1".to_string() }));
}

#[test]
fn the_steps_come_in_a_fixed_order() {
    let c = IfaceConf {
        mac_address: Some("00:23:45:67:89:1a".to_string()),
        ipv4: Some(IpConf { addresses: vec![IpAddrConf { address: 0xc000_0201, prefix_len: 24 }] }),
        ipv6: Some(IpConf { addresses: vec![IpAddrConf { address: 9, prefix_len: 64 }] }),
        ..veth_conf("veth1", "veth1.ep")
    };
    let mut live = host(vec![]);
    let (sent, outcome) = requests_sent(&c, &mut live);
    assert_eq!(outcome, Ok(true));
    assert_eq!(
        sent,
        vec![
            Request::CreateVeth { name: "veth1".to_string(), peer: "veth1.ep".to_string() },
            Request::SetMac { index: 1, mac: vec![0x00, 0x23, 0x45, 0x67, 0x89, 0x1a] },
            Request::SetAdminState { index: 1, up: true },
            Request::AddAddress { index: 1, family: IpFamily::Ipv6, address: 9, prefix_len: 64 },
            Request::AddAddress {
                index: 1,
                family: IpFamily::Ipv4,
                address: 0xc000_0201,
                prefix_len: 24
            },
        ]
    );
    assert_eq!(requests_sent(&c, &mut live), (vec![], Ok(false)));
}

#[test]
fn a_missing_interface_is_a_bug_or_the_callers_error_by_its_type() {
    let e = get_iface(host(vec![]), &"br0".to_string(), &IfaceType::Bridge).unwrap_err();
    assert_eq!(e.kind, ErrorKind::Bug);
    assert_eq!(e.fault, Fault::NotFoundAfterCreation);
    assert_eq!(e.iface, "br0");
    let e = get_iface(host(vec![]), &"eth0".to_string(), &IfaceType::Ethernet).unwrap_err();
    assert_eq!(e.kind, ErrorKind::InvalidArgument);
    assert_eq!(e.fault, Fault::NotFound);
    assert_eq!(e.iface, "eth0");
    let found = get_iface(
        host(vec![veth("a", 1, "b"), veth("b", 2, "a")]),
        &"b".to_string(),
        &IfaceType::Veth,
    );
    assert_eq!(found, Ok(veth("b", 2, "a")));
}

#[test]
fn a_bridge_that_does_not_exist_is_not_created() {
    let c = IfaceConf { iface_type: Some(IfaceType::Bridge), ..conf("br0") };
    let mut live = host(vec![]);
    let (sent, outcome) = requests_sent(&c, &mut live);
    assert_eq!(sent, vec![]);
    assert_eq!(outcome.unwrap_err().fault, Fault::NotFoundAfterCreation);
    let c = IfaceConf { iface_type: Some(IfaceType::Ethernet), ..conf("eth0") };
    assert_eq!(requests_sent(&c, &mut live).1.unwrap_err().fault, Fault::NotFound);
}

#[test]
fn state_is_set_only_to_up_or_down_and_only_where_it_differs() {
    let up = veth("veth1", 3, "p");
    assert_eq!(apply_iface_state(&up, &IfaceState::Up), None);
    assert_eq!(
        apply_iface_state(&up, &IfaceState::Down),
        Some(Request::SetAdminState { index: 3, up: false })
    );
    let mut down = veth("veth1", 3, "p");
    down.state = IfaceState::Down;
    assert_eq!(
        apply_iface_state(&down, &IfaceState::Up),
        Some(Request::SetAdminState { index: 3, up: true })
    );
    for other in [IfaceState::Dormant, IfaceState::LowerLayerDown, IfaceState::Unknown, IfaceState::Absent] {
        assert_eq!(apply_iface_state(&up, &other), None);
    }
}

#[test]
fn an_unsupported_state_is_no_change_and_no_error() {
    let c = IfaceConf { state: IfaceState::Dormant, ..conf("veth1") };
    let snapshot = host(vec![veth("veth1", 3, "p")]);
    let mut live = snapshot.clone();
    assert_eq!(requests_sent(&c, &mut live), (vec![], Ok(false)));
    assert_eq!(live, snapshot);
}

#[test]
fn state_toggles_once() {
    let c = IfaceConf { state: IfaceState::Down, ..conf("veth1") };
    let mut live = host(vec![veth("veth1", 3, "p")]);
    let (sent, outcome) = requests_sent(&c, &mut live);
    assert_eq!(sent, vec![Request::SetAdminState { index: 3, up: false }]);
    assert_eq!(outcome, Ok(true));
    assert_eq!(live.get(&"veth1".to_string()).unwrap().state, IfaceState::Down);
    assert_eq!(requests_sent(&c, &mut live), (vec![], Ok(false)));
}

#[test]
fn a_failed_request_ends_the_reconciliation_with_its_error() {
    let c = conf("veth1");
    let cases = vec![
        (Stage::Removing, Request::DeleteLink { index: 3 }, ErrorKind::Bug, Fault::DeleteFailed { index: 3 }),
        (
            Stage::Creating { iface_type: IfaceType::Veth },
            Request::CreateVeth { name: "veth1".to_string(), peer: "p".to_string() },
            ErrorKind::Bug,
            Fault::CreateFailed,
        ),
        (
            Stage::SettingMac { iface_type: IfaceType::Veth },
            Request::SetMac { index: 3, mac: vec![1] },
            ErrorKind::InvalidArgument,
            Fault::SetMacFailed { index: 3 },
        ),
        (
            Stage::Settling,
            Request::SetAdminState { index: 3, up: true },
            ErrorKind::Bug,
            Fault::SetStateFailed { index: 3, up: true },
        ),
        (
            Stage::Settling,
            Request::DelAddress { index: 3, family: IpFamily::Ipv4, address: 1, prefix_len: 8 },
            ErrorKind::Bug,
            Fault::DelAddressFailed { index: 3 },
        ),
        (
            Stage::Settling,
            Request::AddAddress { index: 3, family: IpFamily::Ipv6, address: 1, prefix_len: 8 },
            ErrorKind::Bug,
            Fault::AddAddressFailed { index: 3 },
        ),
    ];
    for (stage, request, kind, fault) in cases {
        let state = IfaceApply {
            stage,
            queue: vec![request, Request::DeleteLink { index: 99 }],
            changed: true,
        };
        let (state, action) = c.apply(state, Event::Failed(failure("EPERM")));
        assert_eq!(state, IfaceApply { stage: Stage::Finished, queue: vec![], changed: true });
        let e = error_of(action);
        assert_eq!(e.kind, kind);
        assert_eq!(e.fault, fault);
        assert_eq!(e.iface, "veth1");
        assert_eq!(e.cause, "EPERM");
    }
}

#[test]
fn a_snapshot_that_cannot_be_had_is_a_transport_or_protocol_error() {
    for stage in [
        Stage::Inspecting,
        Stage::Locating { iface_type: IfaceType::Veth },
        Stage::Relocating { iface_type: IfaceType::Veth },
    ] {
        let state = IfaceApply { stage, queue: vec![], changed: false };
        let e = error_of(conf("veth1").apply(state, Event::Failed(failure("down"))).1);
        assert_eq!(e.kind, ErrorKind::TransportError);
        assert_eq!(e.fault, Fault::RetrieveFailed);
        assert_eq!(e.iface, "veth1");
        assert_eq!(e.cause, "down");
        let state = IfaceApply { stage, queue: vec![], changed: false };
        let garbled =
            TransportFailure { kind: FailureKind::Undecodable, cause: "short".to_string() };
        let e = error_of(conf("veth1").apply(state, Event::Failed(garbled)).1);
        assert_eq!(e.kind, ErrorKind::ProtocolError);
        assert_eq!(e.cause, "short");
    }
}

#[test]
fn an_event_that_answers_nothing_is_a_bug() {
    let c = conf("veth1");
    let cases = vec![
        (IfaceApply::new(), Event::Done),
        (IfaceApply::new(), Event::Snapshot(host(vec![]))),
        (inspecting(), Event::Done),
        (inspecting(), Event::Start),
        (IfaceApply { stage: Stage::Settling, queue: vec![], changed: false }, Event::Done),
        (
            IfaceApply {
                stage: Stage::Settling,
                queue: vec![Request::DeleteLink { index: 1 }],
                changed: false,
            },
            Event::Snapshot(host(vec![])),
        ),
        (IfaceApply { stage: Stage::Finished, queue: vec![], changed: false }, Event::Start),
    ];
    for (state, event) in cases {
        let e = error_of(c.apply(state, event).1);
        assert_eq!(e.kind, ErrorKind::Bug);
        assert_eq!(e.fault, Fault::UnexpectedEvent);
        assert_eq!(e.iface, "veth1");
    }
}

#[test]
fn a_malformed_mac_is_found_before_a_veth_pair_is_created() {
    let c = IfaceConf {
        mac_address: Some("zz:23:45:67:89:1a".to_string()),
        ..veth_conf("veth1", "veth1.ep")
    };
    let (state, action) = c.apply(inspecting(), Event::Snapshot(host(vec![])));
    assert_eq!(state.stage, Stage::Finished);
    let e = error_of(action);
    assert_eq!(e.kind, ErrorKind::InvalidArgument);
    assert_eq!(e.fault, Fault::MalformedMac);
    assert_eq!(e.cause, "zz:23:45:67:89:1a");

    let mut live = host(vec![]);
    let (sent, outcome) = requests_sent(&c, &mut live);
    assert_eq!(sent, vec![]);
    assert_eq!(outcome.unwrap_err().fault, Fault::MalformedMac);
    assert_eq!(live, host(vec![]));
}

#[test]
fn a_malformed_mac_is_found_before_a_veth_pair_is_created_anew() {
    let c = IfaceConf {
        mac_address: Some("00:23:45:67:89".to_string() + ":"),
        ..veth_conf("veth1", "veth1.end")
    };
    let snapshot = host(vec![veth("veth1", 4, "veth1.ep"), veth("veth1.ep", 5, "veth1")]);
    let mut live = snapshot.clone();
    let (sent, outcome) = requests_sent(&c, &mut live);
    assert_eq!(sent, vec![]);
    let e = outcome.unwrap_err();
    assert_eq!(e.kind, ErrorKind::InvalidArgument);
    assert_eq!(e.fault, Fault::MalformedMac);
    assert_eq!(live, snapshot);
}

#[test]
fn what_is_wrong_with_the_type_is_found_before_the_mac() {
    let c = IfaceConf { mac_address: Some("zz".to_string()), ..conf("br0") };
    let e = error_of(c.apply(inspecting(), Event::Snapshot(host(vec![]))).1);
    assert_eq!(e.fault, Fault::TypeUndefined);
    let c = IfaceConf {
        mac_address: Some("zz".to_string()),
        iface_type: Some(IfaceType::Bridge),
        ..conf("veth1")
    };
    let e = error_of(c.apply(inspecting(), Event::Snapshot(host(vec![veth("veth1", 1, "p")]))).1);
    assert_eq!(e.fault, Fault::TypeConflict { live: IfaceType::Veth, desired: IfaceType::Bridge });
}

#[test]
fn an_absent_interface_is_deleted_whatever_its_mac_text() {
    let c = IfaceConf {
        state: IfaceState::Absent,
        mac_address: Some("zz".to_string()),
        ..conf("veth1")
    };
    let mut live = host(vec![veth("veth1", 4, "veth1.ep"), veth("veth1.ep", 5, "veth1")]);
    assert_eq!(c.dry_run(&mut live), Ok(true));
    assert_eq!(live, host(vec![]));
}

#[test]
fn a_malformed_mac_is_found_before_anything_is_set() {
    let c = IfaceConf { mac_address: Some("00:zz".to_string()), state: IfaceState::Down, ..conf("veth1") };
    let snapshot = host(vec![veth("veth1", 3, "p")]);
    let mut live = snapshot.clone();
    let (sent, outcome) = requests_sent(&c, &mut live);
    assert_eq!(sent, vec![]);
    let e = outcome.unwrap_err();
    assert_eq!(e.kind, ErrorKind::InvalidArgument);
    assert_eq!(e.fault, Fault::MalformedMac);
    assert_eq!(live, snapshot);
}

#[test]
fn address_clearing_and_omission() {
    let manual = |address: u128, prefix_len: u8, origin: AddrOrigin| IpAddrInfo {
        address,
        prefix_len,
        origin,
        valid_lft: Lifetime::Forever,
        preferred_lft: Lifetime::Forever,
    };
    let link_local = manual(0xfe80 << 112 | 1, 64, AddrOrigin::Autoconfigured);
    let mut iface = veth("veth1", 3, "p");
    iface.ipv4 = vec![manual(0xc000_0201, 24, AddrOrigin::Manual)];
    iface.ipv6 = vec![
        manual(0x2001_0db8_000a_0000_0000_0000_0000_0009, 64, AddrOrigin::Manual),
        link_local,
    ];
    let snapshot = host(vec![iface]);

    let mut live = snapshot.clone();
    assert_eq!(conf("veth1").dry_run(&mut live), Ok(false));
    assert_eq!(live, snapshot);

    let clear = IfaceConf {
        ipv4: Some(IpConf { addresses: vec![] }),
        ipv6: Some(IpConf { addresses: vec![] }),
        ..conf("veth1")
    };
    assert_eq!(clear.dry_run(&mut live), Ok(true));
    let after = live.get(&"veth1".to_string()).unwrap();
    assert_eq!(after.ipv4, vec![]);
    assert_eq!(after.ipv6, vec![link_local]);
    assert_eq!(clear.dry_run(&mut live), Ok(false));
}

#[test]
fn a_host_without_configuration_is_done_at_once() {
    for ifaces in [None, Some(vec![])] {
        let (state, action) = NetConf { ifaces }.apply(NetApply::new(), Event::Start);
        assert_eq!(action, Action::Finish(Ok(false)));
        assert_eq!(state, NetApply::new());
    }
}

#[test]
fn interfaces_are_reconciled_in_the_order_of_the_list() {
    let net = NetConf {
        ifaces: Some(vec![
            IfaceConf { state: IfaceState::Absent, ..conf("gone") },
            IfaceConf { state: IfaceState::Down, ..conf("veth1") },
        ]),
    };
    let snapshot = host(vec![veth("veth1", 3, "p")]);
    let (state, action) = net.apply(NetApply::new(), Event::Start);
    assert_eq!(action, Action::Retrieve);
    assert_eq!(state.position, 0);
    let (state, action) = net.apply(state, Event::Snapshot(snapshot.clone()));
    assert_eq!(action, Action::Retrieve);
    assert_eq!((state.position, state.changed), (1, false));
    let (state, action) = net.apply(state, Event::Snapshot(snapshot.clone()));
    assert_eq!(action, Action::Retrieve);
    let (state, action) = net.apply(state, Event::Snapshot(snapshot.clone()));
    assert_eq!(action, Action::Send(Request::SetAdminState { index: 3, up: false }));
    let (state, action) = net.apply(state, Event::Done);
    assert_eq!(action, Action::Finish(Ok(true)));
    assert_eq!((state.position, state.changed), (2, true));
}

#[test]
fn a_change_of_any_interface_is_a_change_of_the_host() {
    let net = NetConf {
        ifaces: Some(vec![
            IfaceConf { state: IfaceState::Down, ..conf("a") },
            conf("b"),
        ]),
    };
    let mut live = host(vec![veth("a", 1, "b"), veth("b", 2, "a")]);
    assert_eq!(net.dry_run(&mut live), Ok(true));
    assert_eq!(net.dry_run(&mut live), Ok(false));
}

#[test]
fn the_first_error_ends_the_reconciliation_of_the_host() {
    let net = NetConf {
        ifaces: Some(vec![
            IfaceConf { state: IfaceState::Down, ..conf("a") },
            conf("missing"),
            IfaceConf { state: IfaceState::Down, ..conf("b") },
        ]),
    };
    let mut live = host(vec![veth("a", 1, "b"), veth("b", 2, "a")]);
    let e = net.dry_run(&mut live).unwrap_err();
    assert_eq!(e.fault, Fault::TypeUndefined);
    assert_eq!(e.iface, "missing");
    assert_eq!(live.get(&"a".to_string()).unwrap().state, IfaceState::Down);
    assert_eq!(live.get(&"b".to_string()).unwrap().state, IfaceState::Up);
}

#[test]
fn configurations_of_one_interface_undo_each_other() {
    let net = NetConf {
        ifaces: Some(vec![
            IfaceConf { state: IfaceState::Up, ..conf("a") },
            IfaceConf { state: IfaceState::Down, ..conf("a") },
        ]),
    };
    let mut live = host(vec![veth("a", 1, "b"), veth("b", 2, "a")]);
    assert_eq!(net.dry_run(&mut live), Ok(true));
    assert_eq!(net.dry_run(&mut live), Ok(true));
}

#[test]
fn configurations_that_are_apart_settle_at_once() {
    let net = NetConf {
        ifaces: Some(vec![
            IfaceConf { state: IfaceState::Absent, ..conf("old") },
            veth_conf("veth1", "veth1.ep"),
            IfaceConf {
                state: IfaceState::Down,
                ipv4: Some(IpConf { addresses: vec![IpAddrConf { address: 1, prefix_len: 8 }] }),
                ..conf("a")
            },
        ]),
    };
    let mut live = host(vec![veth("a", 1, "b"), veth("b", 2, "a"), veth("old", 3, "none")]);
    assert_eq!(net.dry_run(&mut live), Ok(true));
    let after = live.clone();
    assert_eq!(net.dry_run(&mut live), Ok(false));
    assert_eq!(live, after);
    assert!(live.get(&"old".to_string()).is_none());
    assert_eq!(live.get(&"veth1".to_string()).unwrap().state, IfaceState::Up);
    assert_eq!(live.get(&"a".to_string()).unwrap().ipv4.len(), 1);
}

#[test]
fn both_ends_of_a_pair_settle_at_once() {
    let net = NetConf {
        ifaces: Some(vec![
            veth_conf("veth1", "veth1.ep"),
            IfaceConf { state: IfaceState::Up, ..conf("veth1.ep") },
        ]),
    };
    let mut live = host(vec![]);
    assert_eq!(net.dry_run(&mut live), Ok(true));
    let after = live.clone();
    assert_eq!(live.get(&"veth1.ep".to_string()).unwrap().state, IfaceState::Up);
    assert_eq!(net.dry_run(&mut live), Ok(false));
    assert_eq!(live, after);
}

#[test]
fn one_interface_twice_with_the_same_wishes_settles_at_once() {
    let wish = IfaceConf {
        state: IfaceState::Down,
        ipv4: Some(IpConf { addresses: vec![IpAddrConf { address: 1, prefix_len: 8 }] }),
        ..conf("a")
    };
    let net = NetConf { ifaces: Some(vec![wish.clone(), wish]) };
    let mut live = host(vec![veth("a", 1, "b"), veth("b", 2, "a")]);
    assert_eq!(net.dry_run(&mut live), Ok(true));
    let after = live.clone();
    assert_eq!(net.dry_run(&mut live), Ok(false));
    assert_eq!(live, after);
}

#[test]
fn an_autoconfigured_address_outlives_every_configuration() {
    let generated = IpAddrInfo {
        address: 0xfe80 << 112 | 1,
        prefix_len: 64,
        origin: AddrOrigin::Autoconfigured,
        valid_lft: Lifetime::Forever,
        preferred_lft: Lifetime::Forever,
    };
    let wishes = vec![
        None,
        Some(IpConf { addresses: vec![] }),
        Some(IpConf { addresses: vec![IpAddrConf { address: 9, prefix_len: 64 }] }),
        Some(IpConf { addresses: vec![IpAddrConf { address: 0xfe80 << 112 | 1, prefix_len: 64 }] }),
    ];
    for ipv6 in wishes {
        let mut iface = veth("veth1", 3, "p");
        iface.ipv6 = vec![generated];
        let mut live = host(vec![iface]);
        let c = IfaceConf { ipv6, ..conf("veth1") };
        let (sent, outcome) = requests_sent(&c, &mut live);
        assert!(outcome.is_ok());
        assert!(!sent.iter().any(|r| matches!(r, Request::DelAddress { .. })));
        assert!(live.get(&"veth1".to_string()).unwrap().ipv6.contains(&generated));
    }
}

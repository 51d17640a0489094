use nispor::{ErrorKind, Fault, IfaceType, NisporError};

fn error(kind: ErrorKind, fault: Fault) -> NisporError {
    NisporError { kind, fault, iface: "veth1".to_string(), cause: "EBUSY".to_string() }
}

#[test]
fn errors_are_made_with_their_kind() {
    let e = NisporError::invalid_argument(Fault::NotFound, "eth0".to_string(), String::new());
    assert_eq!(e.kind, ErrorKind::InvalidArgument);
    assert_eq!(e.fault, Fault::NotFound);
    assert_eq!(e.iface, "eth0");
    assert_eq!(e.cause, "");
    let e = NisporError::bug(Fault::PeerMissing, "veth0".to_string(), "x".to_string());
    assert_eq!(e.kind, ErrorKind::Bug);
    assert_eq!(e.fault, Fault::PeerMissing);
    assert_eq!(e.iface, "veth0");
    assert_eq!(e.cause, "x");
    assert_eq!(e.clone(), e);
}

#[test]
fn errors_in_words() {
    let cases = vec![
        (Fault::TypeUndefined, "Interface veth1 does not exist and no interface type is defined"),
        (
            Fault::TypeConflict { live: IfaceType::Veth, desired: IfaceType::Bridge },
            "Interface veth1 exists with type veth, not with the desired type bridge",
        ),
        (Fault::PeerUndefined, "Veth interface veth1 does not exist and has no veth configuration"),
        (Fault::MalformedMac, "Invalid MAC address EBUSY"),
        (Fault::NotFound, "Interface veth1 not found"),
        (
            Fault::SetMacFailed { index: 12 },
            "Failed to set MAC address of interface veth1 index 12: EBUSY",
        ),
        (Fault::NotFoundAfterCreation, "Interface veth1 not found after creation"),
        (Fault::PeerMissing, "Veth interface veth1 has no peer"),
        (Fault::MacTooShort, "MAC address has fewer bytes than asked for"),
        (Fault::DeleteFailed { index: 3 }, "Failed to delete interface veth1 index 3: EBUSY"),
        (Fault::CreateFailed, "Failed to create veth interface veth1: EBUSY"),
        (
            Fault::SetStateFailed { index: 100, up: true },
            "Failed to bring up interface veth1 index 100: EBUSY",
        ),
        (
            Fault::SetStateFailed { index: 100, up: false },
            "Failed to bring down interface veth1 index 100: EBUSY",
        ),
        (
            Fault::DelAddressFailed { index: 0 },
            "Failed to remove an address from interface veth1 index 0: EBUSY",
        ),
        (
            Fault::AddAddressFailed { index: 4294967295 },
            "Failed to add an address to interface veth1 index 4294967295: EBUSY",
        ),
        (Fault::UnexpectedEvent, "Unexpected event while reconciling interface veth1"),
        (Fault::RetrieveFailed, "Failed to retrieve the network state: EBUSY"),
    ];
    for (fault, words) in cases {
        assert_eq!(error(ErrorKind::Bug, fault).msg(), words);
    }
}

#[test]
fn types_by_name() {
    let names = [
        (IfaceType::Bond, "bond"),
        (IfaceType::Bridge, "bridge"),
        (IfaceType::Dummy, "dummy"),
        (IfaceType::Ethernet, "ethernet"),
        (IfaceType::Loopback, "loopback"),
        (IfaceType::MacVlan, "macvlan"),
        (IfaceType::MacVtap, "macvtap"),
        (IfaceType::OpenvSwitch, "openvswitch"),
        (IfaceType::Tun, "tun"),
        (IfaceType::Veth, "veth"),
        (IfaceType::Vlan, "vlan"),
        (IfaceType::Vrf, "vrf"),
        (IfaceType::Vxlan, "vxlan"),
        (IfaceType::Unknown, "unknown"),
    ];
    for (t, name) in names {
        assert_eq!(t.name(), name);
    }
}

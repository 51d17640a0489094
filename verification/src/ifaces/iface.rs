//! One interface as the kernel reports it.

use crate::ifaces::veth::VethInfo;
use crate::ip::IpAddrInfo;
use vstd::prelude::*;
use vstd::string::*;

verus! {

/// Kind of an interface. It is fixed when the interface is created.
#[derive(Clone, Copy, Debug, PartialEq, Eq, Structural)]
pub enum IfaceType {
    Bond,
    Bridge,
    Dummy,
    Ethernet,
    Loopback,
    MacVlan,
    MacVtap,
    OpenvSwitch,
    Tun,
    Veth,
    Vlan,
    Vrf,
    Vxlan,
    Unknown,
}

impl IfaceType {
    /// The name of the type, as the kernel's tools write it.
    pub open spec fn spec_name(self) -> Seq<char> {
        match self {
            IfaceType::Bond => "bond"@,
            IfaceType::Bridge => "bridge"@,
            IfaceType::Dummy => "dummy"@,
            IfaceType::Ethernet => "ethernet"@,
            IfaceType::Loopback => "loopback"@,
            IfaceType::MacVlan => "macvlan"@,
            IfaceType::MacVtap => "macvtap"@,
            IfaceType::OpenvSwitch => "openvswitch"@,
            IfaceType::Tun => "tun"@,
            IfaceType::Veth => "veth"@,
            IfaceType::Vlan => "vlan"@,
            IfaceType::Vrf => "vrf"@,
            IfaceType::Vxlan => "vxlan"@,
            IfaceType::Unknown => "unknown"@,
        }
    }

    /// The name of the type.
    pub fn name(&self) -> (r: &'static str)
        ensures
            r@ == self.spec_name(),
    {
        match self {
            IfaceType::Bond => "bond",
            IfaceType::Bridge => "bridge",
            IfaceType::Dummy => "dummy",
            IfaceType::Ethernet => "ethernet",
            IfaceType::Loopback => "loopback",
            IfaceType::MacVlan => "macvlan",
            IfaceType::MacVtap => "macvtap",
            IfaceType::OpenvSwitch => "openvswitch",
            IfaceType::Tun => "tun",
            IfaceType::Veth => "veth",
            IfaceType::Vlan => "vlan",
            IfaceType::Vrf => "vrf",
            IfaceType::Vxlan => "vxlan",
            IfaceType::Unknown => "unknown",
        }
    }
}

/// State of an interface. `Absent` is never reported by the kernel: a
/// desired configuration uses it to ask for the interface to be deleted.
#[derive(Clone, Copy, Debug, PartialEq, Eq, Structural)]
pub enum IfaceState {
    Up,
    Dormant,
    Down,
    LowerLayerDown,
    Absent,
    Unknown,
}

/// Flags of an interface.
#[derive(Clone, Copy, Debug, PartialEq, Eq, Structural)]
pub struct IfaceFlags {
    pub broadcast: bool,
    pub loopback: bool,
    pub lower_up: bool,
    pub multicast: bool,
    pub no_arp: bool,
    pub point_to_point: bool,
    pub promisc: bool,
    pub running: bool,
    pub up: bool,
}

/// One interface of a snapshot.
#[derive(Debug, PartialEq, Eq)]
pub struct Iface {
    pub name: String,
    /// Assigned by the kernel; a recreated interface gets a new one.
    pub index: u32,
    pub iface_type: IfaceType,
    pub state: IfaceState,
    pub mtu: u32,
    pub flags: IfaceFlags,
    pub ipv4: Vec<IpAddrInfo>,
    pub ipv6: Vec<IpAddrInfo>,
    pub mac_address: Vec<u8>,
    pub veth: Option<VethInfo>,
}

/// What an [`Iface`] holds, as mathematical values.
pub struct IfaceView {
    pub name: Seq<char>,
    pub index: u32,
    pub iface_type: IfaceType,
    pub state: IfaceState,
    pub mtu: u32,
    pub flags: IfaceFlags,
    pub ipv4: Seq<IpAddrInfo>,
    pub ipv6: Seq<IpAddrInfo>,
    pub mac_address: Seq<u8>,
    pub veth: Option<Seq<char>>,
}

impl View for Iface {
    type V = IfaceView;

    open spec fn view(&self) -> IfaceView {
        IfaceView {
            name: self.name@,
            index: self.index,
            iface_type: self.iface_type,
            state: self.state,
            mtu: self.mtu,
            flags: self.flags,
            ipv4: self.ipv4@,
            ipv6: self.ipv6@,
            mac_address: self.mac_address@,
            veth: match self.veth {
                Some(v) => Some(v@),
                None => None,
            },
        }
    }
}

impl Clone for Iface {
    fn clone(&self) -> (r: Self)
        ensures
            r@ == self@,
    {
        Iface {
            name: self.name.clone(),
            index: self.index,
            iface_type: self.iface_type,
            state: self.state,
            mtu: self.mtu,
            flags: self.flags,
            ipv4: self.ipv4.clone(),
            ipv6: self.ipv6.clone(),
            mac_address: self.mac_address.clone(),
            veth: match &self.veth {
                Some(v) => Some(v.clone()),
                None => None,
            },
        }
    }
}

} // verus!

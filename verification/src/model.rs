//! A model of the host: what each request does to the live state where
//! the kernel carries it out. A configuration can be applied to a snapshot
//! in place of the host, and what the library promises of a reconciliation
//! as a whole is stated over this model.

use crate::error::{ErrorView, NisporError};
use crate::ifaces::iface::{Iface, IfaceFlags, IfaceState, IfaceType, IfaceView};
use crate::ifaces::iface_conf::{step, IfaceApply, IfaceApplyView, IfaceConf, IfaceConfView, Stage};
use crate::ifaces::veth::VethInfo;
use crate::ip::{
    family_addresses, has_address, has_key, AddrOrigin, IpAddrConf, IpAddrInfo, IpFamily, Lifetime,
};
use crate::net_conf::{net_step, NetApply, NetApplyView, NetConf};
use crate::net_state::{position, NetState, NetStateView};
use crate::transport::{
    Action, ActionView, Event, EventView, FailureKind, FailureView, Request, RequestView,
    TransportFailure,
};
use vstd::prelude::*;
use vstd::string::*;

verus! {

/// Where the first interface with this index stands in a listing.
pub open spec fn by_index(ifaces: Seq<IfaceView>, index: u32) -> Option<int>
    decreases ifaces.len(),
{
    if ifaces.len() == 0 {
        None
    } else {
        match by_index(ifaces.drop_last(), index) {
            Some(i) => Some(i),
            None => if ifaces.last().index == index {
                Some(ifaces.len() - 1)
            } else {
                None
            },
        }
    }
}

/// The index that the next new interface gets: one more than the highest
/// in use, and 1 on a host without interfaces.
pub open spec fn next_index(ifaces: Seq<IfaceView>) -> int
    decreases ifaces.len(),
{
    if ifaces.len() == 0 {
        1
    } else {
        let n = next_index(ifaces.drop_last());
        if ifaces.last().index >= n {
            ifaces.last().index + 1
        } else {
            n
        }
    }
}

/// The flags of a new veth interface.
pub open spec fn veth_flags() -> IfaceFlags {
    IfaceFlags {
        broadcast: true,
        loopback: false,
        lower_up: false,
        multicast: true,
        no_arp: false,
        point_to_point: false,
        promisc: false,
        running: false,
        up: false,
    }
}

/// One end of a new veth pair: down, without addresses. The kernel picks
/// its MAC address at random; the model leaves it zero.
pub open spec fn veth_end(name: Seq<char>, index: u32, peer: Seq<char>) -> IfaceView {
    IfaceView {
        name,
        index,
        iface_type: IfaceType::Veth,
        state: IfaceState::Down,
        mtu: 1500,
        flags: veth_flags(),
        ipv4: Seq::empty(),
        ipv6: Seq::empty(),
        mac_address: seq![0u8, 0u8, 0u8, 0u8, 0u8, 0u8],
        veth: Some(peer),
    }
}

/// A listing without the interface at `i`, and without the peer of that
/// interface where it is one end of a veth pair: the two ends go together.
pub open spec fn unlinked(ifaces: Seq<IfaceView>, i: int) -> Seq<IfaceView> {
    let target = ifaces[i];
    let rest = ifaces.remove(i);
    if target.iface_type == IfaceType::Veth && target.veth is Some {
        match position(rest, target.veth->0) {
            Some(j) => rest.remove(j),
            None => rest,
        }
    } else {
        rest
    }
}

/// The addresses of a list but those with the given address and prefix
/// length.
pub open spec fn without_key(live: Seq<IpAddrInfo>, k: IpAddrConf) -> Seq<IpAddrInfo>
    decreases live.len(),
{
    if live.len() == 0 {
        Seq::empty()
    } else if live.last().key() == k {
        without_key(live.drop_last(), k)
    } else {
        without_key(live.drop_last(), k).push(live.last())
    }
}

/// An address as it stands on an interface once it was added by request.
pub open spec fn manual_address(k: IpAddrConf) -> IpAddrInfo {
    IpAddrInfo {
        address: k.address,
        prefix_len: k.prefix_len,
        origin: AddrOrigin::Manual,
        valid_lft: Lifetime::Forever,
        preferred_lft: Lifetime::Forever,
    }
}

/// An interface with other addresses of one family.
pub open spec fn with_addresses(
    iface: IfaceView,
    family: IpFamily,
    addresses: Seq<IpAddrInfo>,
) -> IfaceView {
    match family {
        IpFamily::Ipv4 => IfaceView { ipv4: addresses, ..iface },
        IpFamily::Ipv6 => IfaceView { ipv6: addresses, ..iface },
    }
}

/// The interface that a request names by its index, if it names one.
pub open spec fn request_index(request: RequestView) -> Option<u32> {
    match request {
        RequestView::DeleteLink { index } => Some(index),
        RequestView::CreateVeth { .. } => None,
        RequestView::SetMac { index, .. } => Some(index),
        RequestView::SetAdminState { index, .. } => Some(index),
        RequestView::DelAddress { index, .. } => Some(index),
        RequestView::AddAddress { index, .. } => Some(index),
    }
}

/// What a request that changes one interface makes of it; `None` where
/// the kernel refuses: an address that is to go must be there, one that is
/// to come must not.
pub open spec fn iface_effect(iface: IfaceView, request: RequestView) -> Option<IfaceView> {
    match request {
        RequestView::SetMac { mac, .. } => Some(IfaceView { mac_address: mac, ..iface }),
        RequestView::SetAdminState { up, .. } => Some(
            IfaceView {
                state: if up {
                    IfaceState::Up
                } else {
                    IfaceState::Down
                },
                flags: IfaceFlags { up, running: up, lower_up: up, ..iface.flags },
                ..iface
            },
        ),
        RequestView::DelAddress { family, address, prefix_len, .. } => {
            let k = IpAddrConf { address, prefix_len };
            let live = family_addresses(iface, family);
            if has_key(live, k) {
                Some(with_addresses(iface, family, without_key(live, k)))
            } else {
                None
            }
        },
        RequestView::AddAddress { family, address, prefix_len, .. } => {
            let k = IpAddrConf { address, prefix_len };
            let live = family_addresses(iface, family);
            if !has_key(live, k) {
                Some(with_addresses(iface, family, live.push(manual_address(k))))
            } else {
                None
            }
        },
        _ => None,
    }
}

/// Whether a veth pair of these names can be created: the names differ,
/// neither is in use, and two indices are left.
pub open spec fn can_create_veth(ifaces: Seq<IfaceView>, name: Seq<char>, peer: Seq<char>) -> bool {
    &&& name != peer
    &&& position(ifaces, name) is None
    &&& position(ifaces, peer) is None
    &&& next_index(ifaces) + 1 <= u32::MAX
}

/// The live state after a request, or `None` where the kernel refuses it
/// and the live state stays as it is. A request that names an interface
/// needs one of that index.
pub open spec fn effect(k: NetStateView, request: RequestView) -> Option<NetStateView> {
    match request {
        RequestView::CreateVeth { name, peer } => if can_create_veth(k.ifaces, name, peer) {
            let index = next_index(k.ifaces);
            Some(
                NetStateView {
                    ifaces: k.ifaces.push(veth_end(name, index as u32, peer)).push(
                        veth_end(peer, (index + 1) as u32, name),
                    ),
                    ..k
                },
            )
        } else {
            None
        },
        RequestView::DeleteLink { index } => match by_index(k.ifaces, index) {
            Some(i) => Some(NetStateView { ifaces: unlinked(k.ifaces, i), ..k }),
            None => None,
        },
        _ => match by_index(k.ifaces, request_index(request)->0) {
            Some(i) => match iface_effect(k.ifaces[i], request) {
                Some(iface) => Some(NetStateView { ifaces: k.ifaces.update(i, iface), ..k }),
                None => None,
            },
            None => None,
        },
    }
}

/// The failure with which the model refuses a request.
pub open spec fn refusal() -> FailureView {
    FailureView { kind: FailureKind::Unreachable, cause: Seq::empty() }
}

/// The live state after an action of the library, and the event that
/// answers it.
pub open spec fn respond(k: NetStateView, action: ActionView) -> (NetStateView, EventView) {
    match action {
        ActionView::Retrieve => (k, EventView::Snapshot(k)),
        ActionView::Send(request) => match effect(k, request) {
            Some(after) => (after, EventView::Done),
            None => (k, EventView::Failed(refusal())),
        },
        ActionView::Finish(_) => (k, EventView::Start),
    }
}

/// How far a stage is from the end: each step that does not end the
/// reconciliation leads to a lower stage or leaves fewer requests.
pub open spec fn rank(stage: Stage) -> nat {
    match stage {
        Stage::Begin => 8,
        Stage::Inspecting => 7,
        Stage::Removing => 6,
        Stage::Creating { .. } => 6,
        Stage::Locating { .. } => 5,
        Stage::SettingMac { .. } => 4,
        Stage::Relocating { .. } => 3,
        Stage::Settling => 2,
        Stage::Finished => 1,
    }
}

/// The reconciliation of one interface on the model, from a state and the
/// action that it has asked for to the end: the outcome and the live state
/// that is left.
pub open spec fn drive(
    conf: IfaceConfView,
    state: IfaceApplyView,
    action: ActionView,
    k: NetStateView,
) -> (Result<bool, ErrorView>, NetStateView)
    decreases rank(state.stage), state.queue.len(),
{
    match action {
        ActionView::Finish(outcome) => (outcome, k),
        _ => {
            let (after, event) = respond(k, action);
            let (next, asked) = step(conf, state, event);
            match asked {
                ActionView::Finish(outcome) => (outcome, after),
                _ => drive(conf, next, asked, after),
            }
        },
    }
}

/// The whole reconciliation of one interface on the model: the outcome,
/// and the live state that is left.
pub open spec fn outcome(conf: IfaceConfView, k: NetStateView) -> (
    Result<bool, ErrorView>,
    NetStateView,
) {
    let (state, action) = step(conf, IfaceApply::spec_new(), EventView::Start);
    drive(conf, state, action, k)
}

/// The view of an outcome.
pub open spec fn outcome_view(r: Result<bool, NisporError>) -> Result<bool, ErrorView> {
    match r {
        Ok(changed) => Ok(changed),
        Err(e) => Err(e@),
    }
}

fn without_address(live: &Vec<IpAddrInfo>, k: IpAddrConf) -> (r: Vec<IpAddrInfo>)
    ensures
        r@ == without_key(live@, k),
{
    let mut out: Vec<IpAddrInfo> = Vec::new();
    let mut i: usize = 0;
    while i < live.len()
        invariant
            i <= live.len(),
            out@ == without_key(live@.take(i as int), k),
        decreases live.len() - i,
    {
        let a = live[i];
        proof {
            let now = live@.take(i as int + 1);
            assert(now.drop_last() =~= live@.take(i as int));
            assert(now.last() == a);
        }
        if !(a.address == k.address && a.prefix_len == k.prefix_len) {
            out.push(a);
        }
        i = i + 1;
    }
    assert(live@.take(live.len() as int) =~= live@);
    out
}

fn new_veth_end(name: String, index: u32, peer: String) -> (r: Iface)
    ensures
        r@ == veth_end(name@, index, peer@),
{
    let mut mac_address: Vec<u8> = Vec::new();
    let mut i: usize = 0;
    while i < 6
        invariant
            i <= 6,
            mac_address@.len() == i,
            forall|j: int| 0 <= j < i ==> mac_address@[j] == 0,
        decreases 6 - i,
    {
        mac_address.push(0);
        i = i + 1;
    }
    assert(mac_address@ =~= seq![0u8, 0u8, 0u8, 0u8, 0u8, 0u8]);
    Iface {
        name,
        index,
        iface_type: IfaceType::Veth,
        state: IfaceState::Down,
        mtu: 1500,
        flags: IfaceFlags {
            broadcast: true,
            loopback: false,
            lower_up: false,
            multicast: true,
            no_arp: false,
            point_to_point: false,
            promisc: false,
            running: false,
            up: false,
        },
        ipv4: Vec::new(),
        ipv6: Vec::new(),
        mac_address,
        veth: Some(VethInfo { peer }),
    }
}

fn changed_iface(iface: &Iface, request: &Request) -> (r: Option<Iface>)
    ensures
        match iface_effect(iface@, request@) {
            Some(after) => r matches Some(x) && x@ == after,
            None => r is None,
        },
{
    let mut out = iface.clone();
    match request {
        Request::SetMac { mac, .. } => {
            out.mac_address = mac.clone();
            Some(out)
        },
        Request::SetAdminState { up, .. } => {
            out.state = if *up {
                IfaceState::Up
            } else {
                IfaceState::Down
            };
            out.flags.up = *up;
            out.flags.running = *up;
            out.flags.lower_up = *up;
            Some(out)
        },
        Request::DelAddress { family, address, prefix_len, .. } => {
            let k = IpAddrConf { address: *address, prefix_len: *prefix_len };
            match family {
                IpFamily::Ipv4 => {
                    if !has_address(&iface.ipv4, k) {
                        return None;
                    }
                    out.ipv4 = without_address(&iface.ipv4, k);
                },
                IpFamily::Ipv6 => {
                    if !has_address(&iface.ipv6, k) {
                        return None;
                    }
                    out.ipv6 = without_address(&iface.ipv6, k);
                },
            }
            Some(out)
        },
        Request::AddAddress { family, address, prefix_len, .. } => {
            let k = IpAddrConf { address: *address, prefix_len: *prefix_len };
            let added = IpAddrInfo {
                address: *address,
                prefix_len: *prefix_len,
                origin: AddrOrigin::Manual,
                valid_lft: Lifetime::Forever,
                preferred_lft: Lifetime::Forever,
            };
            match family {
                IpFamily::Ipv4 => {
                    if has_address(&iface.ipv4, k) {
                        return None;
                    }
                    out.ipv4.push(added);
                },
                IpFamily::Ipv6 => {
                    if has_address(&iface.ipv6, k) {
                        return None;
                    }
                    out.ipv6.push(added);
                },
            }
            Some(out)
        },
        _ => None,
    }
}

fn refused() -> (r: Event)
    ensures
        r@ == EventView::Failed(refusal()),
{
    Event::Failed(TransportFailure { kind: FailureKind::Unreachable, cause: String::new() })
}

impl NetState {
    /// Where the interface with this index stands.
    pub fn index_position(&self, index: u32) -> (r: Option<usize>)
        ensures
            match by_index(self@.ifaces, index) {
                Some(i) => r is Some && r->0 == i && i < self.ifaces@.len(),
                None => r is None,
            },
    {
        let mut i: usize = 0;
        while i < self.ifaces.len()
            invariant
                i <= self.ifaces@.len(),
                by_index(self@.ifaces.take(i as int), index) is None,
            decreases self.ifaces.len() - i,
        {
            let ghost now = self@.ifaces.take(i as int + 1);
            assert(now.drop_last() =~= self@.ifaces.take(i as int));
            assert(now.last() == self.ifaces@[i as int]@);
            if self.ifaces[i].index == index {
                proof {
                    lemma_by_index_extends(self@.ifaces, index, i as int + 1);
                }
                return Some(i);
            }
            i = i + 1;
        }
        assert(self@.ifaces.take(i as int) =~= self@.ifaces);
        None
    }

    fn free_index(&self) -> (r: u64)
        ensures
            r == next_index(self@.ifaces),
            1 <= r <= u32::MAX + 1,
    {
        let mut n: u64 = 1;
        let mut i: usize = 0;
        while i < self.ifaces.len()
            invariant
                i <= self.ifaces@.len(),
                n == next_index(self@.ifaces.take(i as int)),
                1 <= n <= u32::MAX + 1,
            decreases self.ifaces.len() - i,
        {
            let ghost now = self@.ifaces.take(i as int + 1);
            assert(now.drop_last() =~= self@.ifaces.take(i as int));
            assert(now.last() == self.ifaces@[i as int]@);
            let index = self.ifaces[i].index as u64;
            if index >= n {
                n = index + 1;
            }
            i = i + 1;
        }
        assert(self@.ifaces.take(i as int) =~= self@.ifaces);
        n
    }

    /// Carries out a request on this snapshot as the model says the kernel
    /// would, or refuses it and leaves the snapshot as it is.
    pub fn perform(&mut self, request: &Request) -> (event: Event)
        ensures
            (final(self)@, event@) == respond(old(self)@, ActionView::Send(request@)),
    {
        let ghost before = self@;
        match request {
            Request::CreateVeth { name, peer } => {
                if *name == *peer || self.position(name).is_some() || self.position(
                    peer,
                ).is_some() {
                    return refused();
                }
                let index = self.free_index();
                if index + 1 > u32::MAX as u64 {
                    return refused();
                }
                self.ifaces.push(new_veth_end(name.clone(), index as u32, peer.clone()));
                self.ifaces.push(new_veth_end(peer.clone(), (index + 1) as u32, name.clone()));
                assert(self@.ifaces =~= before.ifaces.push(
                    veth_end(name@, index as u32, peer@),
                ).push(veth_end(peer@, (index + 1) as u32, name@)));
                Event::Done
            },
            Request::DeleteLink { index } => {
                match self.index_position(*index) {
                    None => refused(),
                    Some(i) => {
                        let target = self.ifaces.remove(i);
                        assert(self@.ifaces =~= before.ifaces.remove(i as int));
                        if target.iface_type == IfaceType::Veth {
                            if let Some(info) = &target.veth {
                                if let Some(j) = self.position(&info.peer) {
                                    let ghost rest = self@.ifaces;
                                    self.ifaces.remove(j);
                                    assert(self@.ifaces =~= rest.remove(j as int));
                                }
                            }
                        }
                        Event::Done
                    },
                }
            },
            Request::SetMac { index, .. }
            | Request::SetAdminState { index, .. }
            | Request::DelAddress { index, .. }
            | Request::AddAddress { index, .. } => {
                match self.index_position(*index) {
                    None => refused(),
                    Some(i) => match changed_iface(&self.ifaces[i], request) {
                        None => refused(),
                        Some(iface) => {
                            let ghost after = iface@;
                            self.ifaces.set(i, iface);
                            assert(self@.ifaces =~= before.ifaces.update(i as int, after));
                            Event::Done
                        },
                    },
                }
            },
        }
    }

    /// Answers an action of the library as the model says the host would.
    pub fn answer(&mut self, action: &Action) -> (event: Event)
        ensures
            (final(self)@, event@) == respond(old(self)@, action@),
    {
        match action {
            Action::Retrieve => Event::Snapshot(self.clone()),
            Action::Send(request) => self.perform(request),
            Action::Finish(_) => Event::Start,
        }
    }
}

/// An index found in the beginning of a listing is found at the same place
/// in the whole of it.
pub proof fn lemma_by_index_extends(ifaces: Seq<IfaceView>, index: u32, n: int)
    requires
        0 <= n <= ifaces.len(),
        by_index(ifaces.take(n), index) is Some,
    ensures
        by_index(ifaces, index) == by_index(ifaces.take(n), index),
    decreases ifaces.len() - n,
{
    if n < ifaces.len() {
        let next = ifaces.take(n + 1);
        assert(next.drop_last() =~= ifaces.take(n));
        lemma_by_index_extends(ifaces, index, n + 1);
    } else {
        assert(ifaces.take(n) =~= ifaces);
    }
}

impl IfaceConf {
    /// Reconciles the interface with a snapshot in place of the host: the
    /// requests are carried out on the snapshot as the model says the
    /// kernel would. Returns what a reconciliation of the host would
    /// return, and leaves in the snapshot what it would leave on the host.
    pub fn dry_run(&self, kernel: &mut NetState) -> (r: Result<bool, NisporError>)
        ensures
            (outcome_view(r), final(kernel)@) == outcome(self@, old(kernel)@),
    {
        let (mut state, mut action) = self.apply(IfaceApply::new(), Event::Start);
        loop
            invariant
                drive(self@, state@, action@, kernel@) == outcome(self@, old(kernel)@),
            decreases rank(state@.stage), state@.queue.len(),
        {
            if let Action::Finish(r) = action {
                return r;
            }
            let event = kernel.answer(&action);
            let (next, asked) = self.apply(state, event);
            if let Action::Finish(r) = asked {
                return r;
            }
            state = next;
            action = asked;
        }
    }
}

/// The reconciliation of a host on the model, from a state and the
/// action that it has asked for to the end: the outcome and the live state
/// that is left.
pub open spec fn net_drive(
    confs: Seq<IfaceConfView>,
    state: NetApplyView,
    action: ActionView,
    k: NetStateView,
) -> (Result<bool, ErrorView>, NetStateView)
    decreases confs.len() - state.position, rank(state.current.stage), state.current.queue.len(),
{
    match action {
        ActionView::Finish(outcome) => (outcome, k),
        _ => {
            let (after, event) = respond(k, action);
            let (next, asked) = net_step(confs, state, event);
            match asked {
                ActionView::Finish(outcome) => (outcome, after),
                _ => net_drive(confs, next, asked, after),
            }
        },
    }
}

/// The whole reconciliation of a host on the model: the outcome, and the
/// live state that is left.
pub open spec fn net_outcome(confs: Seq<IfaceConfView>, k: NetStateView) -> (
    Result<bool, ErrorView>,
    NetStateView,
) {
    let (state, action) = net_step(confs, NetApply::spec_new(), EventView::Start);
    net_drive(confs, state, action, k)
}

impl NetConf {
    /// Reconciles the host with a snapshot in place of it: the requests
    /// are carried out on the snapshot as the model says the kernel would.
    /// Returns what a reconciliation of the host would return, and leaves
    /// in the snapshot what it would leave on the host.
    pub fn dry_run(&self, kernel: &mut NetState) -> (r: Result<bool, NisporError>)
        ensures
            (outcome_view(r), final(kernel)@) == net_outcome(self@, old(kernel)@),
    {
        let (mut state, mut action) = self.apply(NetApply::new(), Event::Start);
        loop
            invariant
                net_drive(self@, state@, action@, kernel@) == net_outcome(self@, old(kernel)@),
            decreases
                    self@.len() - state@.position,
                    rank(state@.current.stage),
                    state@.current.queue.len(),
        {
            if let Action::Finish(r) = action {
                return r;
            }
            let event = kernel.answer(&action);
            let (next, asked) = self.apply(state, event);
            if let Action::Finish(r) = asked {
                return r;
            }
            state = next;
            action = asked;
        }
    }
}

} // verus!

//! The desired configuration of one interface, and its reconciliation with
//! the live state.

use crate::error::{ErrorKind, ErrorView, Fault, NisporError};
use crate::ifaces::iface::{Iface, IfaceState, IfaceType, IfaceView};
use crate::ifaces::veth::{opt_iface_view, veth_plan, VethConf};
use crate::ip::{reconcile, IpAddrConf, IpConf, IpFamily};
use crate::mac::{mac_address_str_to_u8, mac_bytes, mac_request, set_mac_address};
use crate::net_state::{NetState, NetStateView};
use crate::transport::{
    request_views, Action, ActionView, Event, EventView, FailureKind, FailureView, Request,
    RequestView, TransportFailure,
};
use vstd::prelude::*;

verus! {

/// What is desired of one interface. Only the name is required. What is
/// left out is left as it is on the host.
#[derive(Debug, PartialEq, Eq)]
pub struct IfaceConf {
    pub name: String,
    /// Needed only where the interface does not exist yet.
    pub iface_type: Option<IfaceType>,
    /// `Absent` asks for the interface to be deleted.
    pub state: IfaceState,
    pub ipv4: Option<IpConf>,
    pub ipv6: Option<IpConf>,
    pub veth: Option<VethConf>,
    pub mac_address: Option<String>,
}

/// What an [`IfaceConf`] holds, as mathematical values.
pub struct IfaceConfView {
    pub name: Seq<char>,
    pub iface_type: Option<IfaceType>,
    pub state: IfaceState,
    pub ipv4: Option<Seq<IpAddrConf>>,
    pub ipv6: Option<Seq<IpAddrConf>>,
    pub veth: Option<Seq<char>>,
    pub mac_address: Option<Seq<char>>,
}

impl View for IfaceConf {
    type V = IfaceConfView;

    open spec fn view(&self) -> IfaceConfView {
        IfaceConfView {
            name: self.name@,
            iface_type: self.iface_type,
            state: self.state,
            ipv4: match self.ipv4 {
                Some(c) => Some(c@),
                None => None,
            },
            ipv6: match self.ipv6 {
                Some(c) => Some(c@),
                None => None,
            },
            veth: match self.veth {
                Some(v) => Some(v@),
                None => None,
            },
            mac_address: match self.mac_address {
                Some(m) => Some(m@),
                None => None,
            },
        }
    }
}

impl Clone for IfaceConf {
    fn clone(&self) -> (r: Self)
        ensures
            r@ == self@,
    {
        IfaceConf {
            name: self.name.clone(),
            iface_type: self.iface_type,
            state: self.state,
            ipv4: match &self.ipv4 {
                Some(c) => Some(c.clone()),
                None => None,
            },
            ipv6: match &self.ipv6 {
                Some(c) => Some(c.clone()),
                None => None,
            },
            veth: match &self.veth {
                Some(v) => Some(v.clone()),
                None => None,
            },
            mac_address: match &self.mac_address {
                Some(m) => Some(m.clone()),
                None => None,
            },
        }
    }
}

/// The state that a configuration asks for where it names none.
pub fn default_iface_state() -> (s: IfaceState)
    ensures
        s == IfaceState::Up,
{
    IfaceState::Up
}

impl Default for IfaceConf {
    fn default() -> (c: IfaceConf)
        ensures
            c@ == (IfaceConfView {
                name: Seq::empty(),
                iface_type: None,
                state: IfaceState::Up,
                ipv4: None,
                ipv6: None,
                veth: None,
                mac_address: None,
            }),
    {
        IfaceConf {
            name: String::new(),
            iface_type: None,
            state: default_iface_state(),
            ipv4: None,
            ipv6: None,
            veth: None,
            mac_address: None,
        }
    }
}

/// Whether an interface of this type exists in software alone, so that it
/// must be there once it was created.
pub open spec fn spec_is_virtual(iface_type: IfaceType) -> bool {
    ||| iface_type == IfaceType::Bond
    ||| iface_type == IfaceType::Bridge
    ||| iface_type == IfaceType::Dummy
    ||| iface_type == IfaceType::Loopback
    ||| iface_type == IfaceType::MacVlan
    ||| iface_type == IfaceType::MacVtap
    ||| iface_type == IfaceType::OpenvSwitch
    ||| iface_type == IfaceType::Tun
    ||| iface_type == IfaceType::Veth
    ||| iface_type == IfaceType::Vlan
    ||| iface_type == IfaceType::Vrf
    ||| iface_type == IfaceType::Vxlan
}

/// Whether an interface of this type exists in software alone.
pub fn is_virtual_iface(iface_type: &IfaceType) -> (r: bool)
    ensures
        r == spec_is_virtual(*iface_type),
{
    match iface_type {
        IfaceType::Bond
        | IfaceType::Bridge
        | IfaceType::Dummy
        | IfaceType::Loopback
        | IfaceType::MacVlan
        | IfaceType::MacVtap
        | IfaceType::OpenvSwitch
        | IfaceType::Tun
        | IfaceType::Veth
        | IfaceType::Vlan
        | IfaceType::Vrf
        | IfaceType::Vxlan => true,
        IfaceType::Ethernet | IfaceType::Unknown => false,
    }
}

impl IfaceConf {
    /// Whether the interface is to be deleted.
    pub fn is_absent(&self) -> (r: bool)
        ensures
            r == (self@.state == IfaceState::Absent),
    {
        self.state == IfaceState::Absent
    }
}

/// How far the reconciliation of one interface has come.
#[derive(Clone, Copy, Debug, PartialEq, Eq, Structural)]
pub enum Stage {
    /// Nothing was asked yet.
    Begin,
    /// The first snapshot is awaited.
    Inspecting,
    /// The interface is being deleted because it is to be absent.
    Removing,
    /// The interface is being created, or deleted and created anew.
    Creating { iface_type: IfaceType },
    /// The snapshot that shows the interface is awaited.
    Locating { iface_type: IfaceType },
    /// The MAC address is being set.
    SettingMac { iface_type: IfaceType },
    /// The snapshot after the change of the MAC address is awaited.
    Relocating { iface_type: IfaceType },
    /// The state and the addresses are being set.
    Settling,
    /// The outcome was handed out.
    Finished,
}

/// The reconciliation of one interface under way: the stage, the requests
/// of the stage that are not yet carried out, the first of them being the
/// one that was sent, and whether anything was changed so far.
#[derive(Debug, PartialEq, Eq)]
pub struct IfaceApply {
    pub stage: Stage,
    pub queue: Vec<Request>,
    pub changed: bool,
}

/// What an [`IfaceApply`] holds, as mathematical values.
pub struct IfaceApplyView {
    pub stage: Stage,
    pub queue: Seq<RequestView>,
    pub changed: bool,
}

impl View for IfaceApply {
    type V = IfaceApplyView;

    open spec fn view(&self) -> IfaceApplyView {
        IfaceApplyView {
            stage: self.stage,
            queue: request_views(self.queue@),
            changed: self.changed,
        }
    }
}

impl IfaceApply {
    /// A reconciliation that has not begun.
    pub open spec fn spec_new() -> IfaceApplyView {
        IfaceApplyView { stage: Stage::Begin, queue: Seq::empty(), changed: false }
    }

    /// A reconciliation that has not begun.
    pub fn new() -> (r: IfaceApply)
        ensures
            r@ == Self::spec_new(),
    {
        let r = IfaceApply { stage: Stage::Begin, queue: Vec::new(), changed: false };
        assert(r@.queue =~= Seq::empty());
        r
    }
}

/// The type that the interface is to have: the desired one, or else the
/// live one.
pub open spec fn effective_type(conf: IfaceConfView, cur: Option<IfaceView>) -> Option<IfaceType> {
    match conf.iface_type {
        Some(t) => Some(t),
        None => match cur {
            Some(iface) => Some(iface.iface_type),
            None => None,
        },
    }
}

/// The requests that make the interface exist as desired, given the live
/// interface of that name if there is one. The type must be known, and a
/// live interface must have it. A veth interface is created, left alone or
/// recreated as its peer demands; one that is missing needs a peer.
/// Interfaces of other types are not created here.
pub open spec fn identity_plan(conf: IfaceConfView, cur: Option<IfaceView>) -> Result<
    Seq<RequestView>,
    ErrorView,
> {
    match effective_type(conf, cur) {
        None => Err(
            NisporError::spec_invalid_argument(Fault::TypeUndefined, conf.name, Seq::empty()),
        ),
        Some(t) => if cur is Some && cur->0.iface_type != t {
            Err(
                NisporError::spec_invalid_argument(
                    Fault::TypeConflict { live: cur->0.iface_type, desired: t },
                    conf.name,
                    Seq::empty(),
                ),
            )
        } else if t == IfaceType::Veth {
            match conf.veth {
                Some(peer) => veth_plan(peer, conf.name, cur),
                None => if cur is None {
                    Err(
                        NisporError::spec_invalid_argument(
                            Fault::PeerUndefined,
                            conf.name,
                            Seq::empty(),
                        ),
                    )
                } else {
                    Ok(Seq::empty())
                },
            }
        } else {
            Ok(Seq::empty())
        },
    }
}

/// The interface of a snapshot that is being reconciled. That it is
/// missing is a violated expectation where software alone provides the
/// interface, and the caller's error otherwise.
pub open spec fn located(snapshot: NetStateView, name: Seq<char>, iface_type: IfaceType) -> Result<
    IfaceView,
    ErrorView,
> {
    match snapshot.get(name) {
        Some(iface) => Ok(iface),
        None => if spec_is_virtual(iface_type) {
            Err(NisporError::spec_bug(Fault::NotFoundAfterCreation, name, Seq::empty()))
        } else {
            Err(NisporError::spec_invalid_argument(Fault::NotFound, name, Seq::empty()))
        },
    }
}

/// The request, if any, that brings a live interface to the desired
/// state. Only up and down are acted on, and only where the live state
/// differs.
pub open spec fn state_request(iface: IfaceView, state: IfaceState) -> Option<RequestView> {
    if iface.state == state {
        None
    } else {
        match state {
            IfaceState::Up => Some(RequestView::SetAdminState { index: iface.index, up: true }),
            IfaceState::Down => Some(RequestView::SetAdminState { index: iface.index, up: false }),
            _ => None,
        }
    }
}

/// The requests for the addresses of one family: none where the
/// configuration leaves the family out.
pub open spec fn address_requests(
    desired: Option<Seq<IpAddrConf>>,
    iface: IfaceView,
    family: IpFamily,
) -> Seq<RequestView> {
    match desired {
        Some(d) => reconcile(d, iface, family),
        None => Seq::empty(),
    }
}

/// The requests that bring the state and the addresses of a live interface
/// to the desired ones: the state first, then IPv6, then IPv4.
pub open spec fn settle_plan(conf: IfaceConfView, iface: IfaceView) -> Seq<RequestView> {
    (match state_request(iface, conf.state) {
        Some(r) => seq![r],
        None => Seq::empty(),
    }) + address_requests(conf.ipv6, iface, IpFamily::Ipv6) + address_requests(
        conf.ipv4,
        iface,
        IpFamily::Ipv4,
    )
}

/// The error for a snapshot that could not be had.
pub open spec fn retrieve_error(name: Seq<char>, failure: FailureView) -> ErrorView {
    ErrorView {
        kind: match failure.kind {
            FailureKind::Unreachable => ErrorKind::TransportError,
            FailureKind::Undecodable => ErrorKind::ProtocolError,
        },
        fault: Fault::RetrieveFailed,
        iface: name,
        cause: failure.cause,
    }
}

/// The error for a request that failed. A MAC address that the kernel
/// refuses is the caller's error; every other failure is a violated
/// expectation.
pub open spec fn request_error(
    request: RequestView,
    name: Seq<char>,
    failure: FailureView,
) -> ErrorView {
    match request {
        RequestView::DeleteLink { index } => NisporError::spec_bug(
            Fault::DeleteFailed { index },
            name,
            failure.cause,
        ),
        RequestView::CreateVeth { .. } => NisporError::spec_bug(
            Fault::CreateFailed,
            name,
            failure.cause,
        ),
        RequestView::SetMac { index, .. } => NisporError::spec_invalid_argument(
            Fault::SetMacFailed { index },
            name,
            failure.cause,
        ),
        RequestView::SetAdminState { index, up } => NisporError::spec_bug(
            Fault::SetStateFailed { index, up },
            name,
            failure.cause,
        ),
        RequestView::DelAddress { index, .. } => NisporError::spec_bug(
            Fault::DelAddressFailed { index },
            name,
            failure.cause,
        ),
        RequestView::AddAddress { index, .. } => NisporError::spec_bug(
            Fault::AddAddressFailed { index },
            name,
            failure.cause,
        ),
    }
}

/// The end of a reconciliation, with its outcome.
pub open spec fn finished(changed: bool, outcome: Result<bool, ErrorView>) -> (
    IfaceApplyView,
    ActionView,
) {
    (
        IfaceApplyView { stage: Stage::Finished, queue: Seq::empty(), changed },
        ActionView::Finish(outcome),
    )
}

/// The end of a reconciliation on an event that answers nothing.
pub open spec fn unexpected(name: Seq<char>, changed: bool) -> (IfaceApplyView, ActionView) {
    finished(changed, Err(NisporError::spec_bug(Fault::UnexpectedEvent, name, Seq::empty())))
}

/// A stage that waits for a snapshot.
pub open spec fn retrieve_in(stage: Stage, changed: bool) -> (IfaceApplyView, ActionView) {
    (IfaceApplyView { stage, queue: Seq::empty(), changed }, ActionView::Retrieve)
}

/// A stage that carries out requests: the first of them is sent. Where
/// there is none, what `otherwise` says follows at once.
pub open spec fn send_or(
    stage: Stage,
    queue: Seq<RequestView>,
    changed: bool,
    otherwise: (IfaceApplyView, ActionView),
) -> (IfaceApplyView, ActionView) {
    if queue.len() > 0 {
        (IfaceApplyView { stage, queue, changed }, ActionView::Send(queue[0]))
    } else {
        otherwise
    }
}

/// What follows the last request of a stage: a snapshot where the requests
/// may have changed what the next stage reads, the outcome otherwise.
pub open spec fn after_requests(stage: Stage, name: Seq<char>, changed: bool) -> (
    IfaceApplyView,
    ActionView,
) {
    match stage {
        Stage::Removing | Stage::Settling => finished(changed, Ok(changed)),
        Stage::Creating { iface_type } => retrieve_in(Stage::Locating { iface_type }, changed),
        Stage::SettingMac { iface_type } => retrieve_in(Stage::Relocating { iface_type }, changed),
        _ => unexpected(name, changed),
    }
}

/// The error for a desired MAC address whose text denotes none, if the
/// configuration holds such a text.
pub open spec fn mac_error(conf: IfaceConfView) -> Option<ErrorView> {
    match conf.mac_address {
        Some(text) => if mac_bytes(text) is None {
            Some(NisporError::spec_invalid_argument(Fault::MalformedMac, Seq::empty(), text))
        } else {
            None
        },
        None => None,
    }
}

/// What the first snapshot leads to. An interface that is to be absent is
/// deleted if it is there, and nothing else is looked at. Otherwise
/// whatever is wrong with the configuration is found before any request is
/// sent: what `identity_plan` refuses first, then a MAC address whose text
/// denotes none. After that the requests of `identity_plan` are carried out
/// and a new snapshot is taken.
pub open spec fn inspect(conf: IfaceConfView, changed: bool, snapshot: NetStateView) -> (
    IfaceApplyView,
    ActionView,
) {
    let cur = snapshot.get(conf.name);
    if conf.state == IfaceState::Absent {
        match cur {
            None => finished(changed, Ok(changed)),
            Some(iface) => send_or(
                Stage::Removing,
                seq![RequestView::DeleteLink { index: iface.index }],
                changed,
                finished(changed, Ok(changed)),
            ),
        }
    } else {
        match identity_plan(conf, cur) {
            Err(e) => finished(changed, Err(e)),
            Ok(requests) => match mac_error(conf) {
                Some(e) => finished(changed, Err(e)),
                None => {
                    let iface_type = effective_type(conf, cur)->0;
                    send_or(
                        Stage::Creating { iface_type },
                        requests,
                        changed,
                        retrieve_in(Stage::Locating { iface_type }, changed),
                    )
                },
            },
        }
    }
}

/// What follows once the interface is as it will stay but for its state
/// and addresses: the requests of `settle_plan`, then the outcome.
pub open spec fn settle(conf: IfaceConfView, changed: bool, iface: IfaceView) -> (
    IfaceApplyView,
    ActionView,
) {
    send_or(Stage::Settling, settle_plan(conf, iface), changed, finished(changed, Ok(changed)))
}

/// What the snapshot that shows the interface leads to: the MAC address is
/// set where it differs, and a new snapshot follows; otherwise the state
/// and the addresses are settled. A text that denotes no MAC address ends
/// the reconciliation here too, should it have come this far.
pub open spec fn locate(
    conf: IfaceConfView,
    changed: bool,
    snapshot: NetStateView,
    iface_type: IfaceType,
) -> (IfaceApplyView, ActionView) {
    match located(snapshot, conf.name, iface_type) {
        Err(e) => finished(changed, Err(e)),
        Ok(iface) => match conf.mac_address {
            None => settle(conf, changed, iface),
            Some(text) => match mac_request(iface, text) {
                Err(e) => finished(changed, Err(e)),
                Ok(None) => settle(conf, changed, iface),
                Ok(Some(request)) => send_or(
                    Stage::SettingMac { iface_type },
                    seq![request],
                    changed,
                    settle(conf, changed, iface),
                ),
            },
        },
    }
}

/// What the snapshot after the change of the MAC address leads to.
pub open spec fn relocate(
    conf: IfaceConfView,
    changed: bool,
    snapshot: NetStateView,
    iface_type: IfaceType,
) -> (IfaceApplyView, ActionView) {
    match located(snapshot, conf.name, iface_type) {
        Err(e) => finished(changed, Err(e)),
        Ok(iface) => settle(conf, changed, iface),
    }
}

/// One step of the reconciliation of an interface: from where it stands
/// and what came of the last action to where it stands next and what the
/// caller is to do. A request that was carried out counts as a change. A
/// failure ends the reconciliation with its error, and so does an event
/// that does not answer the last action.
pub open spec fn step(conf: IfaceConfView, state: IfaceApplyView, event: EventView) -> (
    IfaceApplyView,
    ActionView,
) {
    match state.stage {
        Stage::Begin => match event {
            EventView::Start => retrieve_in(Stage::Inspecting, state.changed),
            _ => unexpected(conf.name, state.changed),
        },
        Stage::Inspecting => match event {
            EventView::Snapshot(snapshot) => inspect(conf, state.changed, snapshot),
            EventView::Failed(failure) => finished(
                state.changed,
                Err(retrieve_error(conf.name, failure)),
            ),
            _ => unexpected(conf.name, state.changed),
        },
        Stage::Locating { iface_type } => match event {
            EventView::Snapshot(snapshot) => locate(conf, state.changed, snapshot, iface_type),
            EventView::Failed(failure) => finished(
                state.changed,
                Err(retrieve_error(conf.name, failure)),
            ),
            _ => unexpected(conf.name, state.changed),
        },
        Stage::Relocating { iface_type } => match event {
            EventView::Snapshot(snapshot) => relocate(conf, state.changed, snapshot, iface_type),
            EventView::Failed(failure) => finished(
                state.changed,
                Err(retrieve_error(conf.name, failure)),
            ),
            _ => unexpected(conf.name, state.changed),
        },
        Stage::Removing | Stage::Creating { .. } | Stage::SettingMac { .. } | Stage::Settling => {
            if state.queue.len() == 0 {
                unexpected(conf.name, state.changed)
            } else {
                match event {
                    EventView::Done => send_or(
                        state.stage,
                        state.queue.drop_first(),
                        true,
                        after_requests(state.stage, conf.name, true),
                    ),
                    EventView::Failed(failure) => finished(
                        state.changed,
                        Err(request_error(state.queue[0], conf.name, failure)),
                    ),
                    _ => unexpected(conf.name, state.changed),
                }
            }
        },
        Stage::Finished => unexpected(conf.name, state.changed),
    }
}

/// Decides whether the state of a live interface is to be set.
pub fn apply_iface_state(cur_iface: &Iface, state: &IfaceState) -> (r: Option<Request>)
    ensures
        match state_request(cur_iface@, *state) {
            Some(request) => r matches Some(x) && x@ == request,
            None => r is None,
        },
{
    if cur_iface.state == *state {
        None
    } else {
        match state {
            IfaceState::Up => Some(Request::SetAdminState { index: cur_iface.index, up: true }),
            IfaceState::Down => Some(Request::SetAdminState { index: cur_iface.index, up: false }),
            _ => None,
        }
    }
}

/// Takes the interface that is being reconciled out of a snapshot.
pub fn get_iface(snapshot: NetState, iface_name: &String, iface_type: &IfaceType) -> (r: Result<
    Iface,
    NisporError,
>)
    ensures
        match located(snapshot@, iface_name@, *iface_type) {
            Ok(iface) => r matches Ok(x) && x@ == iface,
            Err(e) => r matches Err(x) && x@ == e,
        },
{
    let mut snapshot = snapshot;
    match snapshot.position(iface_name) {
        Some(i) => {
            let iface = snapshot.ifaces.remove(i);
            Ok(iface)
        },
        None => {
            if is_virtual_iface(iface_type) {
                Err(
                    NisporError::bug(
                        Fault::NotFoundAfterCreation,
                        iface_name.clone(),
                        String::new(),
                    ),
                )
            } else {
                Err(
                    NisporError::invalid_argument(
                        Fault::NotFound,
                        iface_name.clone(),
                        String::new(),
                    ),
                )
            }
        },
    }
}

fn retrieve_failure(name: &String, failure: TransportFailure) -> (e: NisporError)
    ensures
        e@ == retrieve_error(name@, failure@),
{
    let kind = match failure.kind {
        FailureKind::Unreachable => ErrorKind::TransportError,
        FailureKind::Undecodable => ErrorKind::ProtocolError,
    };
    NisporError { kind, fault: Fault::RetrieveFailed, iface: name.clone(), cause: failure.cause }
}

fn request_failure(request: &Request, name: &String, failure: TransportFailure) -> (e: NisporError)
    ensures
        e@ == request_error(request@, name@, failure@),
{
    let iface = name.clone();
    match request {
        Request::DeleteLink { index } => NisporError::bug(
            Fault::DeleteFailed { index: *index },
            iface,
            failure.cause,
        ),
        Request::CreateVeth { .. } => NisporError::bug(Fault::CreateFailed, iface, failure.cause),
        Request::SetMac { index, .. } => NisporError::invalid_argument(
            Fault::SetMacFailed { index: *index },
            iface,
            failure.cause,
        ),
        Request::SetAdminState { index, up } => NisporError::bug(
            Fault::SetStateFailed { index: *index, up: *up },
            iface,
            failure.cause,
        ),
        Request::DelAddress { index, .. } => NisporError::bug(
            Fault::DelAddressFailed { index: *index },
            iface,
            failure.cause,
        ),
        Request::AddAddress { index, .. } => NisporError::bug(
            Fault::AddAddressFailed { index: *index },
            iface,
            failure.cause,
        ),
    }
}

fn finish(changed: bool, outcome: Result<bool, NisporError>) -> (r: (IfaceApply, Action))
    ensures
        (r.0@, r.1@) == finished(
            changed,
            match outcome {
                Ok(c) => Ok(c),
                Err(e) => Err(e@),
            },
        ),
{
    let state = IfaceApply { stage: Stage::Finished, queue: Vec::new(), changed };
    assert(state@.queue =~= Seq::empty());
    (state, Action::Finish(outcome))
}

fn retrieve(stage: Stage, changed: bool) -> (r: (IfaceApply, Action))
    ensures
        (r.0@, r.1@) == retrieve_in(stage, changed),
{
    let state = IfaceApply { stage, queue: Vec::new(), changed };
    assert(state@.queue =~= Seq::empty());
    (state, Action::Retrieve)
}

fn send(stage: Stage, queue: Vec<Request>, changed: bool, otherwise: (IfaceApply, Action)) -> (r: (
    IfaceApply,
    Action,
))
    ensures
        (r.0@, r.1@) == send_or(
            stage,
            request_views(queue@),
            changed,
            (otherwise.0@, otherwise.1@),
        ),
{
    if queue.len() > 0 {
        let first = queue[0].clone();
        (IfaceApply { stage, queue, changed }, Action::Send(first))
    } else {
        otherwise
    }
}

impl IfaceConf {
    fn unexpected(&self, changed: bool) -> (r: (IfaceApply, Action))
        ensures
            (r.0@, r.1@) == unexpected(self@.name, changed),
    {
        finish(
            changed,
            Err(NisporError::bug(Fault::UnexpectedEvent, self.name.clone(), String::new())),
        )
    }

    fn identity_requests(&self, cur: Option<&Iface>) -> (r: Result<
        (Vec<Request>, IfaceType),
        NisporError,
    >)
        ensures
            match identity_plan(self@, opt_iface_view(cur)) {
                Ok(requests) => r matches Ok(x) && request_views(x.0@) == requests && Some(x.1)
                    == effective_type(self@, opt_iface_view(cur)),
                Err(e) => r matches Err(x) && x@ == e,
            },
    {
        let iface_type = match self.iface_type {
            Some(t) => t,
            None => match cur {
                Some(iface) => iface.iface_type,
                None => {
                    return Err(
                        NisporError::invalid_argument(
                            Fault::TypeUndefined,
                            self.name.clone(),
                            String::new(),
                        ),
                    );
                },
            },
        };
        if let Some(iface) = cur {
            if iface_type != iface.iface_type {
                return Err(
                    NisporError::invalid_argument(
                        Fault::TypeConflict { live: iface.iface_type, desired: iface_type },
                        self.name.clone(),
                        String::new(),
                    ),
                );
            }
        }
        let none: Vec<Request> = Vec::new();
        assert(request_views(none@) =~= Seq::empty());
        match iface_type {
            IfaceType::Veth => match &self.veth {
                Some(veth_conf) => {
                    let requests = veth_conf.apply(self, cur)?;
                    Ok((requests, iface_type))
                },
                None => {
                    if cur.is_none() {
                        Err(
                            NisporError::invalid_argument(
                                Fault::PeerUndefined,
                                self.name.clone(),
                                String::new(),
                            ),
                        )
                    } else {
                        Ok((none, iface_type))
                    }
                },
            },
            _ => Ok((none, iface_type)),
        }
    }

    fn inspect(&self, changed: bool, snapshot: &NetState) -> (r: (IfaceApply, Action))
        ensures
            (r.0@, r.1@) == inspect(self@, changed, snapshot@),
    {
        let cur = snapshot.get(&self.name);
        if self.is_absent() {
            match cur {
                None => finish(changed, Ok(changed)),
                Some(iface) => {
                    let mut queue: Vec<Request> = Vec::new();
                    queue.push(Request::DeleteLink { index: iface.index });
                    assert(request_views(queue@) =~= seq![
                        RequestView::DeleteLink { index: iface.index },
                    ]);
                    send(Stage::Removing, queue, changed, finish(changed, Ok(changed)))
                },
            }
        } else {
            match self.identity_requests(cur) {
                Err(e) => finish(changed, Err(e)),
                Ok((requests, iface_type)) => {
                    if let Some(mac_address) = &self.mac_address {
                        if let Err(e) = mac_address_str_to_u8(mac_address.as_str()) {
                            return finish(changed, Err(e));
                        }
                    }
                    send(
                        Stage::Creating { iface_type },
                        requests,
                        changed,
                        retrieve(Stage::Locating { iface_type }, changed),
                    )
                },
            }
        }
    }

    fn settle_requests(&self, iface: &Iface) -> (r: Vec<Request>)
        ensures
            request_views(r@) == settle_plan(self@, iface@),
    {
        let mut out: Vec<Request> = Vec::new();
        if let Some(request) = apply_iface_state(iface, &self.state) {
            out.push(request);
        }
        let ghost first = request_views(out@);
        assert(first =~= match state_request(iface@, self@.state) {
            Some(r) => seq![r],
            None => Seq::empty(),
        });
        if let Some(ipv6_conf) = &self.ipv6 {
            let mut requests = ipv6_conf.apply(iface, IpFamily::Ipv6);
            let ghost added = request_views(requests@);
            out.append(&mut requests);
            assert(request_views(out@) =~= first + added);
        }
        let ghost second = request_views(out@);
        assert(second =~= first + address_requests(self@.ipv6, iface@, IpFamily::Ipv6));
        if let Some(ipv4_conf) = &self.ipv4 {
            let mut requests = ipv4_conf.apply(iface, IpFamily::Ipv4);
            let ghost added = request_views(requests@);
            out.append(&mut requests);
            assert(request_views(out@) =~= second + added);
        }
        assert(request_views(out@) =~= second + address_requests(
            self@.ipv4,
            iface@,
            IpFamily::Ipv4,
        ));
        out
    }

    fn settle(&self, changed: bool, iface: &Iface) -> (r: (IfaceApply, Action))
        ensures
            (r.0@, r.1@) == settle(self@, changed, iface@),
    {
        send(Stage::Settling, self.settle_requests(iface), changed, finish(changed, Ok(changed)))
    }

    fn locate(&self, changed: bool, snapshot: NetState, iface_type: IfaceType) -> (r: (
        IfaceApply,
        Action,
    ))
        ensures
            (r.0@, r.1@) == locate(self@, changed, snapshot@, iface_type),
    {
        let iface = match get_iface(snapshot, &self.name, &iface_type) {
            Ok(iface) => iface,
            Err(e) => {
                return finish(changed, Err(e));
            },
        };
        match &self.mac_address {
            None => self.settle(changed, &iface),
            Some(mac_address) => match set_mac_address(&iface, mac_address) {
                Err(e) => finish(changed, Err(e)),
                Ok(None) => self.settle(changed, &iface),
                Ok(Some(request)) => {
                    let mut queue: Vec<Request> = Vec::new();
                    let ghost view = request@;
                    queue.push(request);
                    assert(request_views(queue@) =~= seq![view]);
                    send(
                        Stage::SettingMac { iface_type },
                        queue,
                        changed,
                        self.settle(changed, &iface),
                    )
                },
            },
        }
    }

    fn relocate(&self, changed: bool, snapshot: NetState, iface_type: IfaceType) -> (r: (
        IfaceApply,
        Action,
    ))
        ensures
            (r.0@, r.1@) == relocate(self@, changed, snapshot@, iface_type),
    {
        match get_iface(snapshot, &self.name, &iface_type) {
            Ok(iface) => self.settle(changed, &iface),
            Err(e) => finish(changed, Err(e)),
        }
    }

    fn after(&self, stage: Stage, changed: bool) -> (r: (IfaceApply, Action))
        ensures
            (r.0@, r.1@) == after_requests(stage, self@.name, changed),
    {
        match stage {
            Stage::Removing | Stage::Settling => finish(changed, Ok(changed)),
            Stage::Creating { iface_type } => retrieve(Stage::Locating { iface_type }, changed),
            Stage::SettingMac { iface_type } => retrieve(Stage::Relocating { iface_type }, changed),
            _ => self.unexpected(changed),
        }
    }

    /// Takes the reconciliation of this interface one step further: given
    /// where it stands and what came of the last action, says where it
    /// stands next and what the caller is to do. It begins with
    /// `IfaceApply::new()` and `Event::Start`, and ends with
    /// `Action::Finish`, whose value says whether anything was changed.
    pub fn apply(&self, state: IfaceApply, event: Event) -> (r: (IfaceApply, Action))
        ensures
            (r.0@, r.1@) == step(self@, state@, event@),
    {
        let IfaceApply { stage, queue, changed } = state;
        match stage {
            Stage::Begin => match event {
                Event::Start => retrieve(Stage::Inspecting, changed),
                _ => self.unexpected(changed),
            },
            Stage::Inspecting => match event {
                Event::Snapshot(snapshot) => self.inspect(changed, &snapshot),
                Event::Failed(failure) => finish(
                    changed,
                    Err(retrieve_failure(&self.name, failure)),
                ),
                _ => self.unexpected(changed),
            },
            Stage::Locating { iface_type } => match event {
                Event::Snapshot(snapshot) => self.locate(changed, snapshot, iface_type),
                Event::Failed(failure) => finish(
                    changed,
                    Err(retrieve_failure(&self.name, failure)),
                ),
                _ => self.unexpected(changed),
            },
            Stage::Relocating { iface_type } => match event {
                Event::Snapshot(snapshot) => self.relocate(changed, snapshot, iface_type),
                Event::Failed(failure) => finish(
                    changed,
                    Err(retrieve_failure(&self.name, failure)),
                ),
                _ => self.unexpected(changed),
            },
            Stage::Removing | Stage::Creating { .. } | Stage::SettingMac { .. } | Stage::Settling => {
                if queue.len() == 0 {
                    self.unexpected(changed)
                } else {
                    match event {
                        Event::Done => {
                            let mut queue = queue;
                            let ghost before = request_views(queue@);
                            queue.remove(0);
                            assert(request_views(queue@) =~= before.drop_first());
                            send(stage, queue, true, self.after(stage, true))
                        },
                        Event::Failed(failure) => finish(
                            changed,
                            Err(request_failure(&queue[0], &self.name, failure)),
                        ),
                        _ => self.unexpected(changed),
                    }
                }
            },
            Stage::Finished => self.unexpected(changed),
        }
    }
}

} // verus!

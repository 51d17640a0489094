//! The live state of the host at one moment.

use crate::error::{ErrorKind, ErrorView, Fault, NisporError};
use crate::ifaces::iface::{Iface, IfaceView};
use crate::ifaces::veth::{tidied, veth_iface_tidy_up};
use crate::route::Route;
use crate::route_rule::{get_routes, RouteRule};
use crate::transport::{FailureKind, FailureView, TransportFailure};
use netlink_packet_route::rule::RuleMessage;
use vstd::prelude::*;

verus! {

/// A snapshot of the live state: the interfaces, each under its name, the
/// routes and the routing rules.
#[derive(Debug, PartialEq, Eq)]
pub struct NetState {
    pub ifaces: Vec<Iface>,
    pub routes: Vec<Route>,
    pub rules: Vec<RouteRule>,
}

/// What a [`NetState`] holds, as mathematical values.
pub struct NetStateView {
    pub ifaces: Seq<IfaceView>,
    pub routes: Seq<Route>,
    pub rules: Seq<RouteRule>,
}

/// The views of the interfaces of a sequence.
pub open spec fn iface_views(ifaces: Seq<Iface>) -> Seq<IfaceView> {
    ifaces.map_values(|i: Iface| i@)
}

impl View for NetState {
    type V = NetStateView;

    open spec fn view(&self) -> NetStateView {
        NetStateView { ifaces: iface_views(self.ifaces@), routes: self.routes@, rules: self.rules@ }
    }
}

/// Where the first interface with this name stands in a listing.
pub open spec fn position(ifaces: Seq<IfaceView>, name: Seq<char>) -> Option<int>
    decreases ifaces.len(),
{
    if ifaces.len() == 0 {
        None
    } else {
        match position(ifaces.drop_last(), name) {
            Some(i) => Some(i),
            None => if ifaces.last().name == name {
                Some(ifaces.len() - 1)
            } else {
                None
            },
        }
    }
}

/// What `position` returns is the first place at which the name stands.
pub proof fn lemma_position(ifaces: Seq<IfaceView>, name: Seq<char>)
    ensures
        match position(ifaces, name) {
            Some(i) => 0 <= i < ifaces.len() && ifaces[i].name == name && forall|j: int|
                0 <= j < i ==> (#[trigger] ifaces[j]).name != name,
            None => forall|j: int| 0 <= j < ifaces.len() ==> (#[trigger] ifaces[j]).name != name,
        },
    decreases ifaces.len(),
{
    if ifaces.len() > 0 {
        let init = ifaces.drop_last();
        lemma_position(init, name);
        match position(init, name) {
            Some(i) => {
                assert(ifaces[i] == init[i]);
                assert forall|j: int| 0 <= j < i implies (#[trigger] ifaces[j]).name != name by {
                    assert(ifaces[j] == init[j]);
                }
            },
            None => {
                assert forall|j: int| 0 <= j < ifaces.len() - 1 implies (#[trigger] ifaces[j]).name
                    != name by {
                    assert(ifaces[j] == init[j]);
                }
            },
        }
    }
}

impl NetStateView {
    /// The interface with this name, if there is one.
    pub open spec fn get(self, name: Seq<char>) -> Option<IfaceView> {
        match position(self.ifaces, name) {
            Some(i) => Some(self.ifaces[i]),
            None => None,
        }
    }
}

impl NetState {
    /// Where the interface with this name stands.
    pub fn position(&self, name: &String) -> (r: Option<usize>)
        ensures
            match position(self@.ifaces, name@) {
                Some(i) => r is Some && r->0 == i && i < self.ifaces@.len(),
                None => r is None,
            },
    {
        let mut i: usize = 0;
        while i < self.ifaces.len()
            invariant
                i <= self.ifaces@.len(),
                position(self@.ifaces.take(i as int), name@) is None,
            decreases self.ifaces.len() - i,
        {
            let ghost now = self@.ifaces.take(i as int + 1);
            assert(now.drop_last() =~= self@.ifaces.take(i as int));
            assert(now.last() == self.ifaces@[i as int]@);
            if self.ifaces[i].name == *name {
                proof {
                    lemma_position_extends(self@.ifaces, name@, i as int + 1);
                }
                return Some(i);
            }
            i = i + 1;
        }
        assert(self@.ifaces.take(i as int) =~= self@.ifaces);
        None
    }

    /// The interface with this name, if there is one.
    pub fn get(&self, name: &String) -> (r: Option<&Iface>)
        ensures
            match self@.get(name@) {
                Some(i) => r is Some && r->0@ == i,
                None => r is None,
            },
    {
        match self.position(name) {
            Some(i) => Some(&self.ifaces[i]),
            None => None,
        }
    }
}

/// A name found in the beginning of a listing is found at the same place
/// in the whole of it.
pub proof fn lemma_position_extends(ifaces: Seq<IfaceView>, name: Seq<char>, n: int)
    requires
        0 <= n <= ifaces.len(),
        position(ifaces.take(n), name) is Some,
    ensures
        position(ifaces, name) == position(ifaces.take(n), name),
    decreases ifaces.len() - n,
{
    if n < ifaces.len() {
        let next = ifaces.take(n + 1);
        assert(next.drop_last() =~= ifaces.take(n));
        lemma_position_extends(ifaces, name, n + 1);
    } else {
        assert(ifaces.take(n) =~= ifaces);
    }
}

/// Whether no two interfaces of a listing have the same name.
pub open spec fn names_unique(ifaces: Seq<IfaceView>) -> bool {
    forall|i: int, j: int|
        0 <= i < j < ifaces.len() ==> (#[trigger] ifaces[i]).name != (#[trigger] ifaces[j]).name
}

/// A listing of the kernel with each name kept once: a later interface
/// takes the place of an earlier one of its name.
pub open spec fn keyed(links: Seq<IfaceView>) -> Seq<IfaceView>
    decreases links.len(),
{
    if links.len() == 0 {
        Seq::empty()
    } else {
        let init = keyed(links.drop_last());
        match position(init, links.last().name) {
            Some(i) => init.update(i, links.last()),
            None => init.push(links.last()),
        }
    }
}

/// In a listing keyed by name no name stands twice.
pub proof fn lemma_keyed_unique(links: Seq<IfaceView>)
    ensures
        names_unique(keyed(links)),
    decreases links.len(),
{
    if links.len() > 0 {
        let init = keyed(links.drop_last());
        lemma_keyed_unique(links.drop_last());
        lemma_position(init, links.last().name);
    }
}

/// The error for a listing that the kernel did not deliver.
pub open spec fn listing_error(failure: FailureView) -> ErrorView {
    ErrorView {
        kind: match failure.kind {
            FailureKind::Unreachable => ErrorKind::TransportError,
            FailureKind::Undecodable => ErrorKind::ProtocolError,
        },
        fault: Fault::RetrieveFailed,
        iface: Seq::empty(),
        cause: failure.cause,
    }
}

fn listing_failure(failure: TransportFailure) -> (e: NisporError)
    ensures
        e@ == listing_error(failure@),
{
    let kind = match failure.kind {
        FailureKind::Unreachable => ErrorKind::TransportError,
        FailureKind::Undecodable => ErrorKind::ProtocolError,
    };
    NisporError { kind, fault: Fault::RetrieveFailed, iface: String::new(), cause: failure.cause }
}

/// The interfaces of a snapshot, from what the kernel listed: each name
/// once, and the peers of the veth interfaces named.
pub fn get_ifaces(links: Vec<Iface>) -> (r: Vec<Iface>)
    ensures
        iface_views(r@) == tidied(keyed(iface_views(links@))),
        names_unique(iface_views(r@)),
{
    let ghost all = links@;
    let mut state = NetState { ifaces: Vec::new(), routes: Vec::new(), rules: Vec::new() };
    assert(state@.ifaces =~= keyed(iface_views(all).take(0)));
    for link in it: links
        invariant
            it.seq() == all,
            state@.ifaces == keyed(iface_views(all).take(it.index())),
    {
        let ghost now = iface_views(all).take(it.index() + 1);
        let ghost before = state@.ifaces;
        assert(now.drop_last() =~= iface_views(all).take(it.index()));
        assert(now.last() == link@);
        match state.position(&link.name) {
            Some(i) => {
                state.ifaces.set(i, link);
                assert(state@.ifaces =~= before.update(i as int, now.last()));
            },
            None => {
                state.ifaces.push(link);
                assert(state@.ifaces =~= before.push(now.last()));
            },
        }
    }
    assert(iface_views(all).take(all.len() as int) =~= iface_views(all));
    let mut ifaces = state.ifaces;
    veth_iface_tidy_up(&mut ifaces);
    proof {
        lemma_keyed_unique(iface_views(all));
    }
    ifaces
}

impl NetState {
    /// Whether the snapshot is one that the kernel can have given: no two
    /// interfaces have the same name.
    pub open spec fn wf(self) -> bool {
        names_unique(self@.ifaces)
    }

    /// Builds the snapshot from what the kernel listed. Each name is kept
    /// once and the peers of veth interfaces are named. A listing that
    /// could not be had is an error: the first of them, in the order of
    /// the parameters.
    pub fn retrieve(
        links: Result<Vec<Iface>, TransportFailure>,
        routes: Result<Vec<Route>, TransportFailure>,
        rules: Result<Vec<RuleMessage>, TransportFailure>,
    ) -> (r: Result<NetState, NisporError>)
        ensures
            match (links, routes, rules) {
                (Ok(l), Ok(ro), Ok(ru)) => r matches Ok(state) && state@ == (NetStateView {
                    ifaces: tidied(keyed(iface_views(l@))),
                    routes: ro@,
                    rules: Seq::new(ru@.len(), |i: int| RouteRule {  }),
                }) && state.wf(),
                (Err(f), _, _) => r matches Err(e) && e@ == listing_error(f@),
                (Ok(_), Err(f), _) => r matches Err(e) && e@ == listing_error(f@),
                (Ok(_), Ok(_), Err(f)) => r matches Err(e) && e@ == listing_error(f@),
            },
    {
        let ifaces = match links {
            Ok(l) => get_ifaces(l),
            Err(f) => {
                return Err(listing_failure(f));
            },
        };
        let routes = match routes {
            Ok(r) => r,
            Err(f) => {
                return Err(listing_failure(f));
            },
        };
        let rules = match rules {
            Ok(messages) => get_routes(messages)?,
            Err(f) => {
                return Err(listing_failure(f));
            },
        };
        Ok(NetState { ifaces, routes, rules })
    }
}

impl Clone for NetState {
    fn clone(&self) -> (r: Self)
        ensures
            r@ == self@,
    {
        let mut ifaces: Vec<Iface> = Vec::new();
        let mut i: usize = 0;
        while i < self.ifaces.len()
            invariant
                i <= self.ifaces@.len(),
                iface_views(ifaces@) == self@.ifaces.take(i as int),
            decreases self.ifaces.len() - i,
        {
            let ghost before = iface_views(ifaces@);
            ifaces.push(self.ifaces[i].clone());
            assert(iface_views(ifaces@) =~= before.push(self.ifaces@[i as int]@));
            assert(self@.ifaces.take(i as int + 1) =~= self@.ifaces.take(i as int).push(
                self@.ifaces[i as int],
            ));
            i = i + 1;
        }
        assert(self@.ifaces.take(i as int) =~= self@.ifaces);
        NetState { ifaces, routes: self.routes.clone(), rules: self.rules.clone() }
    }
}

} // verus!

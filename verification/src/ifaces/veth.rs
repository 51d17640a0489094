//! Veth interfaces: their peers, and how a pair is created or recreated.

use crate::error::{ErrorView, Fault, NisporError};
use crate::ifaces::iface::{Iface, IfaceType, IfaceView};
use crate::ifaces::iface_conf::IfaceConf;
use crate::net_state::iface_views;
use crate::text::{decimal, decimal_text};
use crate::transport::{request_views, Request, RequestView};
use vstd::prelude::*;

verus! {

/// Peer of a veth interface: its name, or its index in decimal while the
/// name is not known (a peer in another network namespace).
#[derive(Debug, PartialEq, Eq)]
pub struct VethInfo {
    pub peer: String,
}

impl View for VethInfo {
    type V = Seq<char>;

    open spec fn view(&self) -> Seq<char> {
        self.peer@
    }
}

impl Clone for VethInfo {
    fn clone(&self) -> (r: Self)
        ensures
            r@ == self@,
    {
        VethInfo { peer: self.peer.clone() }
    }
}

/// The name of the interface whose index, written in decimal, is `text`:
/// of the last one listed, should several have it.
pub open spec fn name_of_index(ifaces: Seq<IfaceView>, text: Seq<char>) -> Option<Seq<char>>
    decreases ifaces.len(),
{
    if ifaces.len() == 0 {
        None
    } else if decimal(ifaces.last().index as nat) == text {
        Some(ifaces.last().name)
    } else {
        name_of_index(ifaces.drop_last(), text)
    }
}

/// An interface with the peer of its veth pair named, where the peer was
/// known by its index and an interface of the listing has that index.
/// Anything else is left as it is.
pub open spec fn with_peer_named(iface: IfaceView, ifaces: Seq<IfaceView>) -> IfaceView {
    if iface.iface_type == IfaceType::Veth && iface.veth is Some && name_of_index(
        ifaces,
        iface.veth->0,
    ) is Some {
        IfaceView { veth: name_of_index(ifaces, iface.veth->0), ..iface }
    } else {
        iface
    }
}

/// A listing with the peers named.
pub open spec fn tidied(ifaces: Seq<IfaceView>) -> Seq<IfaceView> {
    ifaces.map_values(|i: IfaceView| with_peer_named(i, ifaces))
}

fn find_name_of_index(ifaces: &Vec<Iface>, texts: &Vec<String>, text: &String) -> (r: Option<
    String,
>)
    requires
        texts@.len() == ifaces@.len(),
        forall|j: int| 0 <= j < ifaces@.len() ==> (#[trigger] texts@[j])@ == decimal(
            ifaces@[j].index as nat,
        ),
    ensures
        match name_of_index(iface_views(ifaces@), text@) {
            Some(n) => r is Some && r->0@ == n,
            None => r is None,
        },
{
    let mut i: usize = ifaces.len();
    assert(iface_views(ifaces@).take(i as int) =~= iface_views(ifaces@));
    while i > 0
        invariant
            i <= ifaces@.len(),
            texts@.len() == ifaces@.len(),
            forall|j: int| 0 <= j < ifaces@.len() ==> (#[trigger] texts@[j])@ == decimal(
                ifaces@[j].index as nat,
            ),
            name_of_index(iface_views(ifaces@), text@) == name_of_index(
                iface_views(ifaces@).take(i as int),
                text@,
            ),
        decreases i,
    {
        let ghost now = iface_views(ifaces@).take(i as int);
        assert(now.last() == ifaces@[i - 1]@);
        assert(now.drop_last() =~= iface_views(ifaces@).take(i - 1));
        if texts[i - 1] == *text {
            return Some(ifaces[i - 1].name.clone());
        }
        i = i - 1;
    }
    None
}

/// Names the peers of the veth interfaces of a listing. The kernel reports
/// a peer by its index; once the listing is complete the index of a peer
/// on this host leads to its name. A peer that the listing does not hold
/// stays as it was reported.
pub fn veth_iface_tidy_up(iface_states: &mut Vec<Iface>)
    ensures
        iface_views(final(iface_states)@) == tidied(iface_views(old(iface_states)@)),
{
    let mut texts: Vec<String> = Vec::new();
    let mut k: usize = 0;
    while k < iface_states.len()
        invariant
            k <= iface_states@.len(),
            texts@.len() == k,
            forall|j: int| 0 <= j < k ==> (#[trigger] texts@[j])@ == decimal(
                iface_states@[j].index as nat,
            ),
        decreases iface_states.len() - k,
    {
        texts.push(decimal_text(iface_states[k].index));
        k = k + 1;
    }
    let ghost before = iface_views(iface_states@);
    let mut out: Vec<Iface> = Vec::new();
    let mut i: usize = 0;
    while i < iface_states.len()
        invariant
            i <= iface_states@.len(),
            before == iface_views(iface_states@),
            texts@.len() == iface_states@.len(),
            forall|j: int| 0 <= j < iface_states@.len() ==> (#[trigger] texts@[j])@ == decimal(
                iface_states@[j].index as nat,
            ),
            out@.len() == i,
            forall|j: int| 0 <= j < i ==> (#[trigger] out@[j])@ == with_peer_named(before[j], before),
        decreases iface_states.len() - i,
    {
        let mut iface = iface_states[i].clone();
        assert(iface@ == before[i as int]);
        if iface.iface_type == IfaceType::Veth {
            let named = match &iface.veth {
                Some(info) => find_name_of_index(iface_states, &texts, &info.peer),
                None => None,
            };
            if let Some(peer) = named {
                iface.veth = Some(VethInfo { peer });
            }
        }
        out.push(iface);
        i = i + 1;
    }
    *iface_states = out;
    assert(iface_views(iface_states@) =~= tidied(before));
}

/// The peer that a veth interface is to have.
#[derive(Debug, PartialEq, Eq)]
pub struct VethConf {
    pub peer: String,
}

impl View for VethConf {
    type V = Seq<char>;

    open spec fn view(&self) -> Seq<char> {
        self.peer@
    }
}

impl Clone for VethConf {
    fn clone(&self) -> (r: Self)
        ensures
            r@ == self@,
    {
        VethConf { peer: self.peer.clone() }
    }
}

impl Default for VethConf {
    fn default() -> (c: VethConf)
        ensures
            c@ == Seq::<char>::empty(),
    {
        VethConf { peer: String::new() }
    }
}

/// The requests that give the interface `name` the peer `peer`. A missing
/// interface is created. One with this peer is left alone. One with another
/// peer is deleted and created anew: the peer of a veth interface is fixed
/// when the pair is created. A live interface without a peer is an error.
pub open spec fn veth_plan(peer: Seq<char>, name: Seq<char>, cur: Option<IfaceView>) -> Result<
    Seq<RequestView>,
    ErrorView,
> {
    match cur {
        None => Ok(seq![RequestView::CreateVeth { name, peer }]),
        Some(iface) => match iface.veth {
            None => Err(NisporError::spec_bug(Fault::PeerMissing, iface.name, Seq::empty())),
            Some(live_peer) => if live_peer != peer {
                Ok(
                    seq![
                        RequestView::DeleteLink { index: iface.index },
                        RequestView::CreateVeth { name, peer },
                    ],
                )
            } else {
                Ok(Seq::empty())
            },
        },
    }
}

/// The view of an interface that may be missing.
pub open spec fn opt_iface_view(cur: Option<&Iface>) -> Option<IfaceView> {
    match cur {
        Some(i) => Some(i@),
        None => None,
    }
}

impl VethConf {
    /// The requests that give the interface of `iface_conf` the desired
    /// peer, given the live interface of that name if there is one.
    pub fn apply(&self, iface_conf: &IfaceConf, cur_iface: Option<&Iface>) -> (r: Result<
        Vec<Request>,
        NisporError,
    >)
        ensures
            match veth_plan(self@, iface_conf@.name, opt_iface_view(cur_iface)) {
                Ok(requests) => r is Ok && request_views(r->Ok_0@) == requests,
                Err(e) => r is Err && r->Err_0@ == e,
            },
    {
        let mut out: Vec<Request> = Vec::new();
        if let Some(cur_iface) = cur_iface {
            if let Some(veth_info) = &cur_iface.veth {
                if veth_info.peer != self.peer {
                    out.push(Request::DeleteLink { index: cur_iface.index });
                    out.push(
                        Request::CreateVeth {
                            name: iface_conf.name.clone(),
                            peer: self.peer.clone(),
                        },
                    );
                    assert(request_views(out@) =~= veth_plan(
                        self@,
                        iface_conf@.name,
                        opt_iface_view(Some(cur_iface)),
                    )->Ok_0);
                    Ok(out)
                } else {
                    assert(request_views(out@) =~= Seq::empty());
                    Ok(out)
                }
            } else {
                Err(NisporError::bug(Fault::PeerMissing, cur_iface.name.clone(), String::new()))
            }
        } else {
            out.push(
                Request::CreateVeth { name: iface_conf.name.clone(), peer: self.peer.clone() },
            );
            assert(request_views(out@) =~= veth_plan(self@, iface_conf@.name, None)->Ok_0);
            Ok(out)
        }
    }
}

} // verus!

//! The desired configuration of a host, and its reconciliation interface
//! by interface.

use crate::ifaces::iface_conf::{
    retrieve_in, step, IfaceApply, IfaceApplyView, IfaceConf, IfaceConfView, Stage,
};
use crate::transport::{Action, ActionView, Event, EventView};
use vstd::prelude::*;

verus! {

/// What is desired of a host: a list of interfaces, reconciled in the order
/// of the list.
#[derive(Debug, PartialEq, Eq)]
pub struct NetConf {
    pub ifaces: Option<Vec<IfaceConf>>,
}

/// The views of the configurations of a sequence.
pub open spec fn conf_views(confs: Seq<IfaceConf>) -> Seq<IfaceConfView> {
    confs.map_values(|c: IfaceConf| c@)
}

impl View for NetConf {
    type V = Seq<IfaceConfView>;

    /// The configurations of the interfaces; none where the list is left
    /// out.
    open spec fn view(&self) -> Seq<IfaceConfView> {
        match self.ifaces {
            Some(confs) => conf_views(confs@),
            None => Seq::empty(),
        }
    }
}

impl Clone for NetConf {
    fn clone(&self) -> (r: Self)
        ensures
            r@ == self@,
            r.ifaces is Some == self.ifaces is Some,
    {
        match &self.ifaces {
            None => NetConf { ifaces: None },
            Some(confs) => {
                let mut out: Vec<IfaceConf> = Vec::new();
                let mut i: usize = 0;
                while i < confs.len()
                    invariant
                        i <= confs@.len(),
                        conf_views(out@) == conf_views(confs@).take(i as int),
                    decreases confs.len() - i,
                {
                    let ghost before = conf_views(out@);
                    out.push(confs[i].clone());
                    assert(conf_views(out@) =~= before.push(confs@[i as int]@));
                    assert(conf_views(confs@).take(i as int + 1) =~= conf_views(confs@).take(
                        i as int,
                    ).push(confs@[i as int]@));
                    i = i + 1;
                }
                assert(conf_views(confs@).take(i as int) =~= conf_views(confs@));
                NetConf { ifaces: Some(out) }
            },
        }
    }
}

/// The reconciliation of a host under way: which interface of the list is
/// being reconciled, how far that has come, and whether an interface before
/// it was changed.
#[derive(Debug, PartialEq, Eq)]
pub struct NetApply {
    pub position: usize,
    pub changed: bool,
    pub current: IfaceApply,
}

/// What a [`NetApply`] holds, as mathematical values.
pub struct NetApplyView {
    pub position: int,
    pub changed: bool,
    pub current: IfaceApplyView,
}

impl View for NetApply {
    type V = NetApplyView;

    open spec fn view(&self) -> NetApplyView {
        NetApplyView {
            position: self.position as int,
            changed: self.changed,
            current: self.current@,
        }
    }
}

impl NetApply {
    /// A reconciliation that has not begun.
    pub open spec fn spec_new() -> NetApplyView {
        NetApplyView { position: 0, changed: false, current: IfaceApply::spec_new() }
    }

    /// A reconciliation that has not begun.
    pub fn new() -> (r: NetApply)
        ensures
            r@ == Self::spec_new(),
    {
        NetApply { position: 0, changed: false, current: IfaceApply::new() }
    }
}

/// What follows the reconciliation of an interface: that of the next one,
/// which begins with a snapshot, or the outcome after the last.
pub open spec fn advance(confs: Seq<IfaceConfView>, next: int, changed: bool) -> (
    NetApplyView,
    ActionView,
) {
    if next < confs.len() {
        let begun = retrieve_in(Stage::Inspecting, false);
        (NetApplyView { position: next, changed, current: begun.0 }, begun.1)
    } else {
        (
            NetApplyView { position: next, changed, current: IfaceApply::spec_new() },
            ActionView::Finish(Ok(changed)),
        )
    }
}

/// One step of the reconciliation of a host. The interfaces are reconciled
/// one after the other, each by its own steps. The outcome says whether
/// any of them was changed. The first error ends the reconciliation.
pub open spec fn net_step(confs: Seq<IfaceConfView>, state: NetApplyView, event: EventView) -> (
    NetApplyView,
    ActionView,
) {
    if state.position < 0 || state.position >= confs.len() {
        (state, ActionView::Finish(Ok(state.changed)))
    } else {
        let (current, action) = step(confs[state.position], state.current, event);
        match action {
            ActionView::Finish(Ok(changed)) => advance(
                confs,
                state.position + 1,
                state.changed || changed,
            ),
            _ => (
                NetApplyView { position: state.position, changed: state.changed, current },
                action,
            ),
        }
    }
}

impl NetConf {
    /// Takes the reconciliation of the host one step further: given where
    /// it stands and what came of the last action, says where it stands
    /// next and what the caller is to do. It begins with `NetApply::new()`
    /// and `Event::Start`, and ends with `Action::Finish`, whose value says
    /// whether any interface was changed.
    pub fn apply(&self, state: NetApply, event: Event) -> (r: (NetApply, Action))
        ensures
            (r.0@, r.1@) == net_step(self@, state@, event@),
    {
        let NetApply { position, changed, current } = state;
        let confs = match &self.ifaces {
            Some(confs) => confs,
            None => {
                return (NetApply { position, changed, current }, Action::Finish(Ok(changed)));
            },
        };
        if position >= confs.len() {
            return (NetApply { position, changed, current }, Action::Finish(Ok(changed)));
        }
        let (current, action) = confs[position].apply(current, event);
        match action {
            Action::Finish(Ok(c)) => {
                let next = position + 1;
                let changed = changed || c;
                if next < confs.len() {
                    let current = IfaceApply {
                        stage: Stage::Inspecting,
                        queue: Vec::new(),
                        changed: false,
                    };
                    assert(current@.queue =~= Seq::empty());
                    (NetApply { position: next, changed, current }, Action::Retrieve)
                } else {
                    (
                        NetApply { position: next, changed, current: IfaceApply::new() },
                        Action::Finish(Ok(changed)),
                    )
                }
            },
            action => (NetApply { position, changed, current }, action),
        }
    }
}

} // verus!

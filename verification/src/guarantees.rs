//! What a reconciliation as a whole guarantees, on the model of the host.

use crate::error::{ErrorKind, ErrorView, Fault, NisporError};
use crate::ifaces::iface::{IfaceState, IfaceType, IfaceView};
use crate::ifaces::iface_conf::{
    address_requests, after_requests, effective_type, finished, identity_plan, inspect, locate,
    located, mac_error, relocate, request_error, retrieve_in, send_or, settle, settle_plan,
    state_request, step, IfaceApply, IfaceApplyView, IfaceConfView, Stage,
};
use crate::ip::{
    add_request, del_request, family_addresses, has_autoconfigured, has_key, is_stale,
    lemma_to_add, lemma_to_remove, reconcile, to_add, to_remove, AddrOrigin, IpAddrConf,
    IpAddrInfo, IpFamily,
};
use crate::mac::mac_request;
use crate::model::{
    by_index, can_create_veth, drive, effect, iface_effect, manual_address, net_drive,
    net_outcome, next_index, outcome, rank, refusal, request_index, respond, unlinked, veth_end,
    with_addresses, without_key,
};
use crate::net_conf::{advance, net_step, NetApply, NetApplyView};
use crate::net_state::{lemma_position, names_unique, position, NetStateView};
use crate::transport::{ActionView, EventView, RequestView};
use vstd::prelude::*;

verus! {

/// Whether no two interfaces of a listing have the same index.
pub open spec fn indices_unique(ifaces: Seq<IfaceView>) -> bool {
    forall|i: int, j: int|
        0 <= i < j < ifaces.len() ==> (#[trigger] ifaces[i]).index != (#[trigger] ifaces[j]).index
}

/// Whether a live state is one that a host can be in: no name and no index
/// stands twice.
pub open spec fn host_wf(k: NetStateView) -> bool {
    names_unique(k.ifaces) && indices_unique(k.ifaces)
}

/// The live state after the requests of a sequence, one after the other,
/// or `None` where one of them is refused.
pub open spec fn perform_all(k: NetStateView, requests: Seq<RequestView>) -> Option<NetStateView>
    decreases requests.len(),
{
    if requests.len() == 0 {
        Some(k)
    } else {
        match perform_all(k, requests.drop_last()) {
            Some(before) => effect(before, requests.last()),
            None => None,
        }
    }
}

/// Whether a stage carries out requests.
pub open spec fn performing(stage: Stage) -> bool {
    stage is Removing || stage is Creating || stage is SettingMac || stage is Settling
}

/// What `by_index` returns is the first place at which the index stands.
pub proof fn lemma_by_index(ifaces: Seq<IfaceView>, index: u32)
    ensures
        match by_index(ifaces, index) {
            Some(i) => 0 <= i < ifaces.len() && ifaces[i].index == index && forall|j: int|
                0 <= j < i ==> (#[trigger] ifaces[j]).index != index,
            None => forall|j: int| 0 <= j < ifaces.len() ==> (#[trigger] ifaces[j]).index != index,
        },
    decreases ifaces.len(),
{
    if ifaces.len() > 0 {
        let init = ifaces.drop_last();
        lemma_by_index(init, index);
        match by_index(init, index) {
            Some(i) => {
                assert(ifaces[i] == init[i]);
                assert forall|j: int| 0 <= j < i implies (#[trigger] ifaces[j]).index != index by {
                    assert(ifaces[j] == init[j]);
                }
            },
            None => {
                assert forall|j: int| 0 <= j < ifaces.len() - 1 implies (#[trigger] ifaces[j]).index
                    != index by {
                    assert(ifaces[j] == init[j]);
                }
            },
        }
    }
}

/// Where indices are unique, an interface is found by its index.
pub proof fn lemma_found_by_index(ifaces: Seq<IfaceView>, p: int)
    requires
        indices_unique(ifaces),
        0 <= p < ifaces.len(),
    ensures
        by_index(ifaces, ifaces[p].index) == Some(p),
{
    lemma_by_index(ifaces, ifaces[p].index);
}

/// An interface that keeps its name is found where it was.
pub proof fn lemma_position_update(ifaces: Seq<IfaceView>, p: int, iface: IfaceView, name: Seq<char>)
    requires
        0 <= p < ifaces.len(),
        iface.name == ifaces[p].name,
    ensures
        position(ifaces.update(p, iface), name) == position(ifaces, name),
    decreases ifaces.len(),
{
    let after = ifaces.update(p, iface);
    if p == ifaces.len() - 1 {
        assert(after.drop_last() =~= ifaces.drop_last());
    } else {
        assert(after.drop_last() =~= ifaces.drop_last().update(p, iface));
        lemma_position_update(ifaces.drop_last(), p, iface, name);
    }
}

/// The requests of a sequence are carried out first to last: the first on
/// the live state as it is, the others on what the first leaves.
pub proof fn lemma_perform_first(k: NetStateView, requests: Seq<RequestView>)
    requires
        requests.len() > 0,
    ensures
        perform_all(k, requests) == match effect(k, requests[0]) {
            Some(after) => perform_all(after, requests.drop_first()),
            None => None,
        },
    decreases requests.len(),
{
    let init = requests.drop_last();
    if requests.len() == 1 {
        assert(perform_all(k, init) == Some(k));
        assert(requests.last() == requests[0]);
        match effect(k, requests[0]) {
            Some(after) => {
                assert(perform_all(after, requests.drop_first()) == Some(after));
            },
            None => {},
        }
    } else {
        lemma_perform_first(k, init);
        assert(init[0] == requests[0]);
        assert(requests.drop_first().drop_last() =~= init.drop_first());
        assert(requests.drop_first().last() == requests.last());
    }
}

/// Whether a reconciliation has ended with the error for one of these
/// requests, which the model refused.
pub open spec fn failed_on(
    end: Result<bool, ErrorView>,
    name: Seq<char>,
    queue: Seq<RequestView>,
) -> bool {
    exists|i: int|
        0 <= i < queue.len() && end == Err::<bool, ErrorView>(
            request_error(#[trigger] queue[i], name, refusal()),
        )
}

/// A stage that carries out requests, all of which the model accepts, goes
/// on where the requests end, on the live state that they leave, and counts
/// a change. Where the model refuses one, the reconciliation ends with the
/// error for that request, and the requests before it stay carried out.
pub proof fn lemma_drain(
    conf: IfaceConfView,
    stage: Stage,
    queue: Seq<RequestView>,
    changed: bool,
    k: NetStateView,
)
    requires
        performing(stage),
        queue.len() > 0,
    ensures
        match perform_all(k, queue) {
            Some(after) => drive(
                conf,
                IfaceApplyView { stage, queue, changed },
                ActionView::Send(queue[0]),
                k,
            ) == drive(
                conf,
                after_requests(stage, conf.name, true).0,
                after_requests(stage, conf.name, true).1,
                after,
            ),
            None => failed_on(
                drive(
                    conf,
                    IfaceApplyView { stage, queue, changed },
                    ActionView::Send(queue[0]),
                    k,
                ).0,
                conf.name,
                queue,
            ),
        },
    decreases queue.len(),
{
    lemma_perform_first(k, queue);
    let state = IfaceApplyView { stage, queue, changed };
    let rest = queue.drop_first();
    match effect(k, queue[0]) {
        Some(after) => {
            assert(respond(k, ActionView::Send(queue[0])) == (after, EventView::Done));
            let next = step(conf, state, EventView::Done);
            assert(next == send_or(stage, rest, true, after_requests(stage, conf.name, true)));
            if rest.len() > 0 {
                lemma_drain(conf, stage, rest, true, after);
                if perform_all(after, rest) is None {
                    let end = drive(conf, next.0, next.1, after).0;
                    let i = choose|i: int|
                        0 <= i < rest.len() && end == Err::<bool, ErrorView>(
                            request_error(#[trigger] rest[i], conf.name, refusal()),
                        );
                    assert(queue[i + 1] == rest[i]);
                }
            } else {
                assert(perform_all(after, rest) == Some(after));
            }
        },
        None => {
            assert(respond(k, ActionView::Send(queue[0])) == (k, EventView::Failed(refusal())));
        },
    }
}

/// Whether a request changes the one interface of this index and no
/// other.
pub open spec fn local_to(request: RequestView, index: u32) -> bool {
    request_index(request) == Some(index) && !(request is DeleteLink)
}

/// An interface after the requests of a sequence, one after the other, or
/// `None` where one of them is refused.
pub open spec fn iface_perform_all(iface: IfaceView, requests: Seq<RequestView>) -> Option<
    IfaceView,
>
    decreases requests.len(),
{
    if requests.len() == 0 {
        Some(iface)
    } else {
        match iface_perform_all(iface, requests.drop_last()) {
            Some(before) => iface_effect(before, requests.last()),
            None => None,
        }
    }
}

/// Whether two interfaces are the same but for what requests can change of
/// one interface: state, flags, addresses and MAC address.
pub open spec fn same_identity(a: IfaceView, b: IfaceView) -> bool {
    &&& a.name == b.name
    &&& a.index == b.index
    &&& a.iface_type == b.iface_type
    &&& a.veth == b.veth
    &&& a.mtu == b.mtu
}

/// Requests that change one interface leave its identity alone.
pub proof fn lemma_iface_perform_identity(iface: IfaceView, requests: Seq<RequestView>)
    ensures
        iface_perform_all(iface, requests) matches Some(after) ==> same_identity(iface, after),
    decreases requests.len(),
{
    if requests.len() > 0 {
        lemma_iface_perform_identity(iface, requests.drop_last());
    }
}

/// Two sequences of requests on one interface, one after the other, do
/// what the first does and then the second.
pub proof fn lemma_iface_perform_append(
    iface: IfaceView,
    a: Seq<RequestView>,
    b: Seq<RequestView>,
)
    ensures
        iface_perform_all(iface, a + b) == match iface_perform_all(iface, a) {
            Some(after) => iface_perform_all(after, b),
            None => None,
        },
    decreases b.len(),
{
    if b.len() == 0 {
        assert(a + b =~= a);
    } else {
        lemma_iface_perform_append(iface, a, b.drop_last());
        assert((a + b).drop_last() =~= a + b.drop_last());
        assert((a + b).last() == b.last());
    }
}

/// On a host with unique indices, requests that change one interface do
/// to the host what they do to that interface, and nothing else.
pub proof fn lemma_perform_local(k: NetStateView, p: int, requests: Seq<RequestView>)
    requires
        indices_unique(k.ifaces),
        0 <= p < k.ifaces.len(),
        forall|i: int| 0 <= i < requests.len() ==> local_to(#[trigger] requests[i], k.ifaces[p].index),
    ensures
        perform_all(k, requests) == match iface_perform_all(k.ifaces[p], requests) {
            Some(iface) => Some(NetStateView { ifaces: k.ifaces.update(p, iface), ..k }),
            None => None,
        },
    decreases requests.len(),
{
    if requests.len() == 0 {
        assert(k.ifaces.update(p, k.ifaces[p]) =~= k.ifaces);
    } else {
        let init = requests.drop_last();
        let last = requests.last();
        assert forall|i: int| 0 <= i < init.len() implies local_to(
            #[trigger] init[i],
            k.ifaces[p].index,
        ) by {
            assert(init[i] == requests[i]);
        }
        lemma_perform_local(k, p, init);
        lemma_iface_perform_identity(k.ifaces[p], init);
        match iface_perform_all(k.ifaces[p], init) {
            Some(iface) => {
                let between = k.ifaces.update(p, iface);
                assert(indices_unique(between)) by {
                    assert forall|i: int, j: int| 0 <= i < j < between.len() implies (
                    #[trigger] between[i]).index != (#[trigger] between[j]).index by {
                        assert(between[i].index == k.ifaces[i].index);
                        assert(between[j].index == k.ifaces[j].index);
                    }
                }
                lemma_found_by_index(between, p);
                assert(local_to(requests[requests.len() - 1], k.ifaces[p].index));
                match iface_effect(iface, last) {
                    Some(after) => {
                        assert(between.update(p, after) =~= k.ifaces.update(p, after));
                    },
                    None => {},
                }
            },
            None => {},
        }
    }
}

/// The addresses of a list but those whose address and prefix length are
/// among the given ones.
pub open spec fn kept(live: Seq<IpAddrInfo>, keys: Seq<IpAddrConf>) -> Seq<IpAddrInfo>
    decreases live.len(),
{
    if live.len() == 0 {
        Seq::empty()
    } else if keys.contains(live.last().key()) {
        kept(live.drop_last(), keys)
    } else {
        kept(live.drop_last(), keys).push(live.last())
    }
}

/// An address is kept exactly if it was there and is not among those to go.
pub proof fn lemma_kept(live: Seq<IpAddrInfo>, keys: Seq<IpAddrConf>)
    ensures
        forall|a: IpAddrInfo| #[trigger]
            kept(live, keys).contains(a) <==> live.contains(a) && !keys.contains(a.key()),
        keys.len() == 0 ==> kept(live, keys) == live,
    decreases live.len(),
{
    if live.len() > 0 {
        let init = live.drop_last();
        let last = live.last();
        lemma_kept(init, keys);
        let out = kept(live, keys);
        assert forall|a: IpAddrInfo| #[trigger]
            out.contains(a) <==> live.contains(a) && !keys.contains(a.key()) by {
            if out.contains(a) {
                let i = choose|i: int| 0 <= i < out.len() && out[i] == a;
                if keys.contains(last.key()) || i < kept(init, keys).len() {
                    assert(kept(init, keys)[i] == a);
                    assert(kept(init, keys).contains(a));
                    let j = choose|j: int| 0 <= j < init.len() && init[j] == a;
                    assert(live[j] == a);
                } else {
                    assert(a == last);
                    assert(live[live.len() - 1] == a);
                }
            }
            if live.contains(a) && !keys.contains(a.key()) {
                let j = choose|j: int| 0 <= j < live.len() && live[j] == a;
                if j < init.len() {
                    assert(init[j] == a);
                    assert(kept(init, keys).contains(a));
                    let i = choose|i: int| 0 <= i < kept(init, keys).len() && kept(init, keys)[i]
                        == a;
                    assert(out[i] == a);
                } else {
                    assert(out.last() == a);
                }
            }
        }
        if keys.len() == 0 {
            assert(kept(live, keys) =~= live);
        }
    } else {
        assert(kept(live, keys) =~= live);
    }
}

/// A key is found among the kept addresses exactly if it was found before
/// and is not among those to go.
pub proof fn lemma_kept_has_key(live: Seq<IpAddrInfo>, keys: Seq<IpAddrConf>, k: IpAddrConf)
    ensures
        has_key(kept(live, keys), k) <==> has_key(live, k) && !keys.contains(k),
{
    lemma_kept(live, keys);
    let out = kept(live, keys);
    if has_key(out, k) {
        let i = choose|i: int| 0 <= i < out.len() && (#[trigger] out[i]).key() == k;
        assert(out.contains(out[i]));
        let j = choose|j: int| 0 <= j < live.len() && live[j] == out[i];
        assert(live[j].key() == k);
    }
    if has_key(live, k) && !keys.contains(k) {
        let j = choose|j: int| 0 <= j < live.len() && (#[trigger] live[j]).key() == k;
        assert(live.contains(live[j]));
        assert(out.contains(live[j]));
        let i = choose|i: int| 0 <= i < out.len() && out[i] == live[j];
        assert(out[i].key() == k);
    }
}

/// To take one more key away from the kept addresses is to keep the
/// addresses without that key too.
pub proof fn lemma_kept_without(live: Seq<IpAddrInfo>, keys: Seq<IpAddrConf>, k: IpAddrConf)
    ensures
        without_key(kept(live, keys), k) == kept(live, keys.push(k)),
    decreases live.len(),
{
    let more = keys.push(k);
    assert(more.last() == k);
    assert forall|x: IpAddrConf| keys.contains(x) implies more.contains(x) by {
        let i = choose|i: int| 0 <= i < keys.len() && keys[i] == x;
        assert(more[i] == x);
    }
    assert forall|x: IpAddrConf| more.contains(x) implies keys.contains(x) || x == k by {
        let i = choose|i: int| 0 <= i < more.len() && more[i] == x;
        if i < keys.len() {
            assert(keys[i] == x);
        }
    }
    if live.len() > 0 {
        let init = live.drop_last();
        let last = live.last();
        lemma_kept_without(init, keys, k);
        if keys.contains(last.key()) {
            assert(more.contains(last.key()));
        } else if last.key() == k {
            assert(more.contains(last.key()));
            let with_last = kept(init, keys).push(last);
            assert(with_last.drop_last() =~= kept(init, keys));
        } else {
            assert(!more.contains(last.key()));
            let with_last = kept(init, keys).push(last);
            assert(with_last.drop_last() =~= kept(init, keys));
        }
    }
}

/// Removals of distinct addresses that are all there are all carried
/// out, and leave the addresses with other keys.
pub proof fn lemma_removals(
    iface: IfaceView,
    family: IpFamily,
    keys: Seq<IpAddrConf>,
    requests: Seq<RequestView>,
)
    requires
        keys.no_duplicates(),
        forall|i: int|
            0 <= i < keys.len() ==> has_key(family_addresses(iface, family), #[trigger] keys[i]),
        requests.len() == keys.len(),
        forall|i: int|
            0 <= i < keys.len() ==> #[trigger] requests[i] == del_request(
                iface.index,
                family,
                keys[i],
            ),
    ensures
        iface_perform_all(iface, requests) == Some(
            with_addresses(iface, family, kept(family_addresses(iface, family), keys)),
        ),
    decreases keys.len(),
{
    let live = family_addresses(iface, family);
    if keys.len() == 0 {
        lemma_kept(live, keys);
        assert(with_addresses(iface, family, live) == iface);
    } else {
        let init = keys.drop_last();
        let k = keys.last();
        assert(init.no_duplicates());
        assert forall|i: int| 0 <= i < init.len() implies has_key(live, #[trigger] init[i]) by {
            assert(init[i] == keys[i]);
        }
        assert forall|i: int| 0 <= i < init.len() implies #[trigger] requests.drop_last()[i]
            == del_request(iface.index, family, init[i]) by {
            assert(requests.drop_last()[i] == requests[i]);
            assert(init[i] == keys[i]);
        }
        lemma_removals(iface, family, init, requests.drop_last());
        let before = with_addresses(iface, family, kept(live, init));
        assert(family_addresses(before, family) == kept(live, init));
        assert(!init.contains(k)) by {
            if init.contains(k) {
                let i = choose|i: int| 0 <= i < init.len() && init[i] == k;
                assert(keys[i] == keys[keys.len() - 1]);
            }
        }
        assert(has_key(live, keys[keys.len() - 1]));
        lemma_kept_has_key(live, init, k);
        lemma_kept_without(live, init, k);
        assert(init.push(k) =~= keys);
        assert(requests.last() == requests[keys.len() - 1]);
        assert(with_addresses(before, family, kept(live, keys)) == with_addresses(
            iface,
            family,
            kept(live, keys),
        ));
    }
}

/// The addresses that requests add, as they then stand on the interface.
pub open spec fn manual_addresses(keys: Seq<IpAddrConf>) -> Seq<IpAddrInfo> {
    keys.map_values(|k: IpAddrConf| manual_address(k))
}

/// Additions of distinct addresses of which none is there are all
/// carried out, and leave the addresses that were there and the new ones.
pub proof fn lemma_additions(
    iface: IfaceView,
    family: IpFamily,
    keys: Seq<IpAddrConf>,
    requests: Seq<RequestView>,
)
    requires
        keys.no_duplicates(),
        forall|i: int|
            0 <= i < keys.len() ==> !has_key(family_addresses(iface, family), #[trigger] keys[i]),
        requests.len() == keys.len(),
        forall|i: int|
            0 <= i < keys.len() ==> #[trigger] requests[i] == add_request(
                iface.index,
                family,
                keys[i],
            ),
    ensures
        iface_perform_all(iface, requests) == Some(
            with_addresses(
                iface,
                family,
                family_addresses(iface, family) + manual_addresses(keys),
            ),
        ),
    decreases keys.len(),
{
    let live = family_addresses(iface, family);
    if keys.len() == 0 {
        assert(live + manual_addresses(keys) =~= live);
        assert(with_addresses(iface, family, live) == iface);
    } else {
        let init = keys.drop_last();
        let k = keys.last();
        assert(init.no_duplicates());
        assert forall|i: int| 0 <= i < init.len() implies !has_key(live, #[trigger] init[i]) by {
            assert(init[i] == keys[i]);
        }
        assert forall|i: int| 0 <= i < init.len() implies #[trigger] requests.drop_last()[i]
            == add_request(iface.index, family, init[i]) by {
            assert(requests.drop_last()[i] == requests[i]);
            assert(init[i] == keys[i]);
        }
        lemma_additions(iface, family, init, requests.drop_last());
        let list = live + manual_addresses(init);
        let before = with_addresses(iface, family, list);
        assert(family_addresses(before, family) == list);
        assert(!has_key(live, keys[keys.len() - 1]));
        assert(!has_key(list, k)) by {
            if has_key(list, k) {
                let i = choose|i: int| 0 <= i < list.len() && (#[trigger] list[i]).key() == k;
                if i < live.len() {
                    assert(live[i].key() == k);
                } else {
                    assert(init[i - live.len()] == k);
                    assert(keys[i - live.len()] == keys[keys.len() - 1]);
                }
            }
        }
        assert(list.push(manual_address(k)) =~= live + manual_addresses(keys));
        assert(requests.last() == requests[keys.len() - 1]);
        assert(with_addresses(before, family, live + manual_addresses(keys)) == with_addresses(
            iface,
            family,
            live + manual_addresses(keys),
        ));
    }
}

/// An interface in the desired state, where that is up or down.
pub open spec fn with_state(iface: IfaceView, state: IfaceState) -> IfaceView {
    match state_request(iface, state) {
        Some(request) => iface_effect(iface, request)->0,
        None => iface,
    }
}

/// The addresses of one family once they are reconciled: the live ones
/// but the stale, then the missing ones. They stay as they are where the
/// configuration leaves the family out.
pub open spec fn reconciled(live: Seq<IpAddrInfo>, desired: Option<Seq<IpAddrConf>>) -> Seq<
    IpAddrInfo,
> {
    match desired {
        Some(d) => kept(live, to_remove(d, live)) + manual_addresses(to_add(d, live)),
        None => live,
    }
}

/// A live interface once its state and addresses are as desired.
pub open spec fn settled_iface(conf: IfaceConfView, iface: IfaceView) -> IfaceView {
    IfaceView {
        ipv4: reconciled(iface.ipv4, conf.ipv4),
        ipv6: reconciled(iface.ipv6, conf.ipv6),
        ..with_state(iface, conf.state)
    }
}

/// The requests that reconcile the addresses of one family are all
/// carried out, and leave the reconciled addresses.
pub proof fn lemma_reconcile_performed(iface: IfaceView, family: IpFamily, d: Seq<IpAddrConf>)
    ensures
        iface_perform_all(iface, reconcile(d, iface, family)) == Some(
            with_addresses(
                iface,
                family,
                reconciled(family_addresses(iface, family), Some(d)),
            ),
        ),
{
    let live = family_addresses(iface, family);
    let removals = to_remove(d, live);
    let additions = to_add(d, live);
    let dels = removals.map_values(|k: IpAddrConf| del_request(iface.index, family, k));
    let adds = additions.map_values(|k: IpAddrConf| add_request(iface.index, family, k));
    assert(reconcile(d, iface, family) == dels + adds);
    lemma_to_remove(d, live);
    lemma_to_add(d, live);
    assert forall|i: int| 0 <= i < removals.len() implies has_key(live, #[trigger] removals[i]) by {
        assert(removals.contains(removals[i]));
    }
    lemma_removals(iface, family, removals, dels);
    let mid = with_addresses(iface, family, kept(live, removals));
    assert forall|i: int| 0 <= i < additions.len() implies !has_key(
        family_addresses(mid, family),
        #[trigger] additions[i],
    ) by {
        assert(additions.contains(additions[i]));
        lemma_kept_has_key(live, removals, additions[i]);
    }
    lemma_additions(mid, family, additions, adds);
    lemma_iface_perform_append(iface, dels, adds);
    assert(with_addresses(mid, family, kept(live, removals) + manual_addresses(additions))
        == with_addresses(iface, family, reconciled(live, Some(d))));
}

/// The requests for the addresses of one family are all carried out, and
/// leave the reconciled addresses.
pub proof fn lemma_addresses_performed(
    iface: IfaceView,
    family: IpFamily,
    desired: Option<Seq<IpAddrConf>>,
    seen: IfaceView,
)
    requires
        seen.index == iface.index,
        family_addresses(seen, family) == family_addresses(iface, family),
    ensures
        iface_perform_all(iface, address_requests(desired, seen, family)) == Some(
            with_addresses(
                iface,
                family,
                reconciled(family_addresses(iface, family), desired),
            ),
        ),
{
    match desired {
        Some(d) => {
            lemma_reconcile_performed(iface, family, d);
            assert(reconcile(d, seen, family) =~= reconcile(d, iface, family));
        },
        None => {
            assert(with_addresses(iface, family, family_addresses(iface, family)) == iface);
        },
    }
}

/// The requests that settle an interface are all carried out, and leave
/// the interface settled.
pub proof fn lemma_settle_performed(conf: IfaceConfView, iface: IfaceView)
    ensures
        iface_perform_all(iface, settle_plan(conf, iface)) == Some(settled_iface(conf, iface)),
{
    let first: Seq<RequestView> = match state_request(iface, conf.state) {
        Some(r) => seq![r],
        None => Seq::empty(),
    };
    let second = address_requests(conf.ipv6, iface, IpFamily::Ipv6);
    let third = address_requests(conf.ipv4, iface, IpFamily::Ipv4);
    let s0 = with_state(iface, conf.state);
    assert(iface_perform_all(iface, first) == Some(s0)) by {
        if first.len() > 0 {
            assert(first.drop_last() =~= Seq::empty());
            assert(iface_perform_all(iface, first.drop_last()) == Some(iface));
        }
    }
    lemma_addresses_performed(s0, IpFamily::Ipv6, conf.ipv6, iface);
    let s1 = with_addresses(s0, IpFamily::Ipv6, reconciled(iface.ipv6, conf.ipv6));
    lemma_addresses_performed(s1, IpFamily::Ipv4, conf.ipv4, iface);
    lemma_iface_perform_append(iface, first, second);
    lemma_iface_perform_append(iface, first + second, third);
    assert(settle_plan(conf, iface) == first + second + third);
    assert(with_addresses(s1, IpFamily::Ipv4, reconciled(iface.ipv4, conf.ipv4)) == settled_iface(
        conf,
        iface,
    ));
}

/// Every request that settles an interface changes that interface alone.
pub proof fn lemma_settle_local(conf: IfaceConfView, iface: IfaceView)
    ensures
        forall|i: int|
            0 <= i < settle_plan(conf, iface).len() ==> local_to(
                #[trigger] settle_plan(conf, iface)[i],
                iface.index,
            ),
{
    let first: Seq<RequestView> = match state_request(iface, conf.state) {
        Some(r) => seq![r],
        None => Seq::empty(),
    };
    let second = address_requests(conf.ipv6, iface, IpFamily::Ipv6);
    let third = address_requests(conf.ipv4, iface, IpFamily::Ipv4);
    assert(settle_plan(conf, iface) == first + second + third);
    assert forall|i: int| 0 <= i < first.len() implies local_to(#[trigger] first[i], iface.index) by {}
    lemma_addresses_local(conf.ipv6, iface, IpFamily::Ipv6);
    lemma_addresses_local(conf.ipv4, iface, IpFamily::Ipv4);
    assert forall|i: int| 0 <= i < settle_plan(conf, iface).len() implies local_to(
        #[trigger] settle_plan(conf, iface)[i],
        iface.index,
    ) by {
        let plan = first + second + third;
        if i < first.len() {
            assert(plan[i] == first[i]);
        } else if i < first.len() + second.len() {
            assert(plan[i] == second[i - first.len()]);
        } else {
            assert(plan[i] == third[i - first.len() - second.len()]);
        }
    }
}

/// Every request for an address changes the interface alone on which the
/// address stands.
pub proof fn lemma_addresses_local(
    desired: Option<Seq<IpAddrConf>>,
    iface: IfaceView,
    family: IpFamily,
)
    ensures
        forall|i: int|
            0 <= i < address_requests(desired, iface, family).len() ==> local_to(
                #[trigger] address_requests(desired, iface, family)[i],
                iface.index,
            ),
{
    match desired {
        Some(d) => {
            let live = family_addresses(iface, family);
            let dels = to_remove(d, live).map_values(
                |k: IpAddrConf| del_request(iface.index, family, k),
            );
            let adds = to_add(d, live).map_values(
                |k: IpAddrConf| add_request(iface.index, family, k),
            );
            assert(address_requests(desired, iface, family) == dels + adds);
            assert forall|i: int| 0 <= i < (dels + adds).len() implies local_to(
                #[trigger] (dels + adds)[i],
                iface.index,
            ) by {
                if i < dels.len() {
                    assert((dels + adds)[i] == dels[i]);
                } else {
                    assert((dels + adds)[i] == adds[i - dels.len()]);
                }
            }
        },
        None => {},
    }
}

/// Reconciled addresses need no further request: none of them is stale and
/// none of the desired ones is missing.
pub proof fn lemma_reconciled_stable(live: Seq<IpAddrInfo>, d: Seq<IpAddrConf>)
    ensures
        to_remove(d, reconciled(live, Some(d))).len() == 0,
        to_add(d, reconciled(live, Some(d))).len() == 0,
{
    let removals = to_remove(d, live);
    let additions = to_add(d, live);
    let stay = kept(live, removals);
    let come = manual_addresses(additions);
    let after = stay + come;
    lemma_to_remove(d, live);
    lemma_to_add(d, live);
    lemma_kept(live, removals);
    lemma_to_remove(d, after);
    lemma_to_add(d, after);
    let again = to_remove(d, after);
    if again.len() > 0 {
        let k = again[0];
        assert(again.contains(k));
        let i = choose|i: int|
            0 <= i < after.len() && is_stale(#[trigger] after[i], d, after) && after[i].key() == k;
        if i < stay.len() {
            assert(after[i] == stay[i]);
            assert(stay.contains(stay[i]));
            let j = choose|j: int| 0 <= j < live.len() && live[j] == stay[i];
            if has_autoconfigured(live, k) {
                let g = choose|g: int|
                    0 <= g < live.len() && (#[trigger] live[g]).origin
                        == AddrOrigin::Autoconfigured && live[g].key() == k;
                assert(live.contains(live[g]));
                assert(stay.contains(live[g]));
                let h = choose|h: int| 0 <= h < stay.len() && stay[h] == live[g];
                assert(after[h] == live[g]);
                assert(has_autoconfigured(after, k));
            }
            assert(is_stale(live[j], d, live));
            assert(removals.contains(stay[i].key()));
        } else {
            assert(after[i] == come[i - stay.len()]);
            assert(additions.contains(additions[i - stay.len()]));
        }
    }
    let more = to_add(d, after);
    if more.len() > 0 {
        let k = more[0];
        assert(more.contains(k));
        assert(d.contains(k) && !has_key(after, k));
        if has_key(live, k) {
            lemma_kept_has_key(live, removals, k);
            if removals.contains(k) {
                let i = choose|i: int|
                    0 <= i < live.len() && is_stale(#[trigger] live[i], d, live) && live[i].key()
                        == k;
            }
            assert(has_key(stay, k));
            let i = choose|i: int| 0 <= i < stay.len() && (#[trigger] stay[i]).key() == k;
            assert(after[i].key() == k);
        } else {
            assert(additions.contains(k));
            let i = choose|i: int| 0 <= i < additions.len() && additions[i] == k;
            assert(after[stay.len() + i] == come[i]);
            assert(after[stay.len() + i].key() == k);
        }
    }
}

/// A settled interface needs no further request.
pub proof fn lemma_settled_stable(conf: IfaceConfView, iface: IfaceView)
    ensures
        settle_plan(conf, settled_iface(conf, iface)).len() == 0,
{
    let after = settled_iface(conf, iface);
    assert(state_request(after, conf.state) is None);
    match conf.ipv6 {
        Some(d) => {
            lemma_reconciled_stable(iface.ipv6, d);
        },
        None => {},
    }
    match conf.ipv4 {
        Some(d) => {
            lemma_reconciled_stable(iface.ipv4, d);
        },
        None => {},
    }
}

/// A host on which one interface is replaced by another of the same index
/// keeps its indices unique.
pub proof fn lemma_update_indices(ifaces: Seq<IfaceView>, p: int, iface: IfaceView)
    requires
        indices_unique(ifaces),
        0 <= p < ifaces.len(),
        iface.index == ifaces[p].index,
    ensures
        indices_unique(ifaces.update(p, iface)),
{
    let after = ifaces.update(p, iface);
    assert forall|i: int, j: int| 0 <= i < j < after.len() implies (#[trigger] after[i]).index != (
    #[trigger] after[j]).index by {
        assert(after[i].index == ifaces[i].index);
        assert(after[j].index == ifaces[j].index);
    }
}

/// From the point where the interface is as it will stay but for its state
/// and addresses, the reconciliation succeeds on the model: it settles the
/// interface, touches nothing else, and counts a change exactly if a
/// request was needed.
pub proof fn lemma_settle(
    conf: IfaceConfView,
    changed: bool,
    k: NetStateView,
    p: int,
)
    requires
        indices_unique(k.ifaces),
        0 <= p < k.ifaces.len(),
    ensures
        drive(conf, settle(conf, changed, k.ifaces[p]).0, settle(conf, changed, k.ifaces[p]).1, k)
            == (
            Ok::<bool, ErrorView>(changed || settle_plan(conf, k.ifaces[p]).len() > 0),
            NetStateView { ifaces: k.ifaces.update(p, settled_iface(conf, k.ifaces[p])), ..k },
        ),
{
    let iface = k.ifaces[p];
    let plan = settle_plan(conf, iface);
    lemma_settle_local(conf, iface);
    lemma_perform_local(k, p, plan);
    lemma_settle_performed(conf, iface);
    if plan.len() == 0 {
        assert(k.ifaces.update(p, iface) =~= k.ifaces);
    } else {
        lemma_drain(conf, Stage::Settling, plan, changed, k);
    }
}

/// A live interface with the desired MAC address, where one is desired
/// and differs.
pub open spec fn with_mac(conf: IfaceConfView, iface: IfaceView) -> IfaceView {
    match conf.mac_address {
        Some(text) => match mac_request(iface, text) {
            Ok(Some(request)) => iface_effect(iface, request)->0,
            _ => iface,
        },
        None => iface,
    }
}

/// Whether the MAC address of a live interface is to be set.
pub open spec fn mac_differs(conf: IfaceConfView, iface: IfaceView) -> bool {
    conf.mac_address matches Some(text) && mac_request(iface, text) matches Ok(Some(_))
}

/// A live interface once its MAC address, state and addresses are as
/// desired.
pub open spec fn placed(conf: IfaceConfView, iface: IfaceView) -> IfaceView {
    settled_iface(conf, with_mac(conf, iface))
}

/// From the point where the interface exists as desired, the
/// reconciliation succeeds on the model: it leaves the interface with the
/// desired MAC address, state and addresses, touches nothing else, and
/// counts a change exactly if a request was needed. That the text of the
/// desired MAC address denotes one was seen to before this point.
pub proof fn lemma_locate(
    conf: IfaceConfView,
    changed: bool,
    k: NetStateView,
    p: int,
    iface_type: IfaceType,
)
    requires
        indices_unique(k.ifaces),
        position(k.ifaces, conf.name) == Some(p),
        0 <= p < k.ifaces.len(),
        mac_error(conf) is None,
    ensures
        ({
            let start = retrieve_in(Stage::Locating { iface_type }, changed);
            let end = drive(conf, start.0, start.1, k);
            let iface = k.ifaces[p];
            end == (
                Ok::<bool, ErrorView>(
                    changed || mac_differs(conf, iface) || settle_plan(
                        conf,
                        with_mac(conf, iface),
                    ).len() > 0,
                ),
                NetStateView { ifaces: k.ifaces.update(p, placed(conf, iface)), ..k },
            )
        }),
{
    let start = retrieve_in(Stage::Locating { iface_type }, changed);
    let iface = k.ifaces[p];
    assert(respond(k, start.1) == (k, EventView::Snapshot(k)));
    let next = step(conf, start.0, EventView::Snapshot(k));
    assert(next == locate(conf, changed, k, iface_type));
    assert(located(k, conf.name, iface_type) == Ok::<IfaceView, ErrorView>(iface));
    if mac_differs(conf, iface) {
        let text = conf.mac_address->0;
        let request = mac_request(iface, text)->Ok_0->0;
        let queue = seq![request];
        assert(next == (
            IfaceApplyView { stage: Stage::SettingMac { iface_type }, queue, changed },
            ActionView::Send(request),
        ));
        assert(local_to(queue[0], iface.index));
        lemma_perform_local(k, p, queue);
        assert(queue.drop_last() =~= Seq::empty());
        assert(iface_perform_all(iface, queue.drop_last()) == Some(iface));
        let changed_mac = with_mac(conf, iface);
        assert(iface_perform_all(iface, queue) == Some(changed_mac));
        let mid = NetStateView { ifaces: k.ifaces.update(p, changed_mac), ..k };
        assert(perform_all(k, queue) == Some(mid));
        lemma_drain(conf, Stage::SettingMac { iface_type }, queue, changed, k);
        let again = retrieve_in(Stage::Relocating { iface_type }, true);
        assert(after_requests(Stage::SettingMac { iface_type }, conf.name, true) == again);
        assert(respond(mid, again.1) == (mid, EventView::Snapshot(mid)));
        assert(step(conf, again.0, EventView::Snapshot(mid)) == relocate(
            conf,
            true,
            mid,
            iface_type,
        ));
        lemma_position_update(k.ifaces, p, changed_mac, conf.name);
        assert(located(mid, conf.name, iface_type) == Ok::<IfaceView, ErrorView>(changed_mac));
        lemma_update_indices(k.ifaces, p, changed_mac);
        lemma_settle(conf, true, mid, p);
        assert(mid.ifaces.update(p, placed(conf, iface)) =~= k.ifaces.update(
            p,
            placed(conf, iface),
        ));
        let last = settle(conf, true, changed_mac);
        assert(drive(conf, again.0, again.1, mid) == drive(conf, last.0, last.1, mid));
    } else {
        let last = settle(conf, changed, iface);
        assert(next == last);
        lemma_settle(conf, changed, k, p);
        assert(drive(conf, start.0, start.1, k) == drive(conf, last.0, last.1, k));
    }
}

/// A listing without one of its interfaces keeps names and indices
/// unique, and holds none but interfaces that stood elsewhere in it.
pub proof fn lemma_remove(ifaces: Seq<IfaceView>, i: int)
    requires
        0 <= i < ifaces.len(),
    ensures
        names_unique(ifaces) ==> names_unique(ifaces.remove(i)),
        indices_unique(ifaces) ==> indices_unique(ifaces.remove(i)),
        forall|j: int|
            0 <= j < ifaces.remove(i).len() ==> #[trigger] ifaces.remove(i)[j] == ifaces[if j < i {
                j
            } else {
                j + 1
            }],
{
    let rest = ifaces.remove(i);
    assert forall|j: int| 0 <= j < rest.len() implies #[trigger] rest[j] == ifaces[if j < i {
        j
    } else {
        j + 1
    }] by {}
    if names_unique(ifaces) {
        assert forall|a: int, b: int| 0 <= a < b < rest.len() implies (#[trigger] rest[a]).name != (
        #[trigger] rest[b]).name by {
            let a2 = if a < i { a } else { a + 1 };
            let b2 = if b < i { b } else { b + 1 };
            assert(rest[a] == ifaces[a2]);
            assert(rest[b] == ifaces[b2]);
        }
    }
    if indices_unique(ifaces) {
        assert forall|a: int, b: int| 0 <= a < b < rest.len() implies (#[trigger] rest[a]).index
            != (#[trigger] rest[b]).index by {
            let a2 = if a < i { a } else { a + 1 };
            let b2 = if b < i { b } else { b + 1 };
            assert(rest[a] == ifaces[a2]);
            assert(rest[b] == ifaces[b2]);
        }
    }
}

/// Once an interface is deleted, the host is still one that a host can
/// be, and no interface has the name of the deleted one.
pub proof fn lemma_unlinked(ifaces: Seq<IfaceView>, p: int)
    requires
        host_wf(NetStateView { ifaces, routes: Seq::empty(), rules: Seq::empty() }),
        0 <= p < ifaces.len(),
    ensures
        names_unique(unlinked(ifaces, p)),
        indices_unique(unlinked(ifaces, p)),
        position(unlinked(ifaces, p), ifaces[p].name) is None,
{
    let name = ifaces[p].name;
    let rest = ifaces.remove(p);
    lemma_remove(ifaces, p);
    assert forall|j: int| 0 <= j < rest.len() implies (#[trigger] rest[j]).name != name by {
        let j2 = if j < p { j } else { j + 1 };
        assert(rest[j] == ifaces[j2]);
    }
    let out = unlinked(ifaces, p);
    if out != rest {
        let q = position(rest, ifaces[p].veth->0)->0;
        lemma_position(rest, ifaces[p].veth->0);
        lemma_remove(rest, q);
        assert forall|j: int| 0 <= j < out.len() implies (#[trigger] out[j]).name != name by {
            let j2 = if j < q { j } else { j + 1 };
            assert(out[j] == rest[j2]);
        }
    }
    lemma_position(out, name);
}

/// The next index is above every index in use.
pub proof fn lemma_next_index(ifaces: Seq<IfaceView>)
    ensures
        next_index(ifaces) >= 1,
        forall|j: int| 0 <= j < ifaces.len() ==> (#[trigger] ifaces[j]).index < next_index(ifaces),
    decreases ifaces.len(),
{
    if ifaces.len() > 0 {
        let init = ifaces.drop_last();
        lemma_next_index(init);
        assert forall|j: int| 0 <= j < ifaces.len() implies (#[trigger] ifaces[j]).index
            < next_index(ifaces) by {
            if j < init.len() {
                assert(ifaces[j] == init[j]);
            }
        }
    }
}

/// Once a veth pair is created, the host is still one that a host can be,
/// and the first end is found by its name.
pub proof fn lemma_created(ifaces: Seq<IfaceView>, name: Seq<char>, peer: Seq<char>)
    requires
        names_unique(ifaces),
        indices_unique(ifaces),
        can_create_veth(ifaces, name, peer),
    ensures
        ({
            let index = next_index(ifaces);
            let first = veth_end(name, index as u32, peer);
            let after = ifaces.push(first).push(veth_end(peer, (index + 1) as u32, name));
            &&& names_unique(after)
            &&& indices_unique(after)
            &&& position(after, name) == Some(ifaces.len() as int)
            &&& after[ifaces.len() as int] == first
        }),
{
    let index = next_index(ifaces);
    let first = veth_end(name, index as u32, peer);
    let second = veth_end(peer, (index + 1) as u32, name);
    let mid = ifaces.push(first);
    let after = mid.push(second);
    lemma_next_index(ifaces);
    lemma_position(ifaces, name);
    lemma_position(ifaces, peer);
    assert forall|a: int, b: int| 0 <= a < b < after.len() implies (#[trigger] after[a]).name != (
    #[trigger] after[b]).name by {
        if b < ifaces.len() {
            assert(after[a] == ifaces[a]);
            assert(after[b] == ifaces[b]);
        } else if a < ifaces.len() {
            assert(after[a] == ifaces[a]);
        }
    }
    assert forall|a: int, b: int| 0 <= a < b < after.len() implies (#[trigger] after[a]).index != (
    #[trigger] after[b]).index by {
        if b < ifaces.len() {
            assert(after[a] == ifaces[a]);
            assert(after[b] == ifaces[b]);
        } else if a < ifaces.len() {
            assert(after[a] == ifaces[a]);
        }
    }
    assert(mid.drop_last() =~= ifaces);
    assert(position(mid, name) == Some(ifaces.len() as int));
    assert(after.drop_last() =~= mid);
}

/// Whether a live state is as a configuration desires it. An interface
/// that is to be absent is not there. Any other exists as desired, has the
/// desired MAC address, whose text denotes one, and needs no request for
/// its state or addresses.
pub open spec fn in_place(conf: IfaceConfView, k: NetStateView) -> bool {
    if conf.state == IfaceState::Absent {
        k.get(conf.name) is None
    } else {
        &&& k.get(conf.name) matches Some(iface)
        &&& identity_plan(conf, Some(iface)) matches Ok(requests)
        &&& requests.len() == 0
        &&& settle_plan(conf, iface).len() == 0
        &&& mac_error(conf) is None
        &&& (conf.mac_address matches Some(text) ==> mac_request(iface, text) matches Ok(None))
    }
}

/// On a live state that is as desired, the reconciliation sends no request:
/// it reports no change.
pub proof fn lemma_quiet(conf: IfaceConfView, k: NetStateView)
    requires
        in_place(conf, k),
    ensures
        outcome(conf, k) == (Ok::<bool, ErrorView>(false), k),
{
    let start = retrieve_in(Stage::Inspecting, false);
    assert(step(conf, IfaceApply::spec_new(), EventView::Start) == start);
    assert(respond(k, start.1) == (k, EventView::Snapshot(k)));
    let next = step(conf, start.0, EventView::Snapshot(k));
    assert(next == inspect(conf, false, k));
    if conf.state != IfaceState::Absent {
        let cur = k.get(conf.name);
        let iface_type = effective_type(conf, cur)->0;
        let begin = retrieve_in(Stage::Locating { iface_type }, false);
        assert(next == begin);
        assert(outcome(conf, k) == drive(conf, begin.0, begin.1, k));
        assert(respond(k, begin.1) == (k, EventView::Snapshot(k)));
        assert(step(conf, begin.0, EventView::Snapshot(k)) == locate(conf, false, k, iface_type));
        assert(located(k, conf.name, iface_type) == Ok::<IfaceView, ErrorView>(cur->0));
        assert(locate(conf, false, k, iface_type) == finished(false, Ok(false)));
    }
}

/// A host on which the interface of a configuration exists as desired is
/// as desired once that interface is given the desired MAC address, state
/// and addresses.
pub proof fn lemma_placed(conf: IfaceConfView, k: NetStateView, p: int)
    requires
        conf.state != IfaceState::Absent,
        position(k.ifaces, conf.name) == Some(p),
        0 <= p < k.ifaces.len(),
        identity_plan(conf, Some(k.ifaces[p])) matches Ok(requests) && requests.len() == 0,
        mac_error(conf) is None,
    ensures
        in_place(conf, NetStateView { ifaces: k.ifaces.update(p, placed(conf, k.ifaces[p])), ..k }),
{
    let iface = k.ifaces[p];
    let after = placed(conf, iface);
    lemma_position_update(k.ifaces, p, after, conf.name);
    lemma_settled_stable(conf, with_mac(conf, iface));
    assert(same_identity(iface, after));
    assert(after.mac_address == with_mac(conf, iface).mac_address);
}

/// The live state that a reconciliation leaves where it succeeds. An
/// interface that is to be absent is deleted, with its peer if it is one
/// end of a veth pair. Any other is first made to exist as desired, and
/// then given the desired MAC address, state and addresses.
pub open spec fn settled_host(conf: IfaceConfView, k: NetStateView) -> NetStateView {
    if conf.state == IfaceState::Absent {
        match position(k.ifaces, conf.name) {
            Some(p) => NetStateView { ifaces: unlinked(k.ifaces, p), ..k },
            None => k,
        }
    } else {
        let created = perform_all(k, identity_plan(conf, k.get(conf.name))->Ok_0)->0;
        let p = position(created.ifaces, conf.name)->0;
        NetStateView {
            ifaces: created.ifaces.update(p, placed(conf, created.ifaces[p])),
            ..created
        }
    }
}

/// A reconciliation begins with a snapshot, and goes on as that snapshot
/// demands.
pub proof fn lemma_first_step(conf: IfaceConfView, k: NetStateView)
    ensures
        outcome(conf, k) == match inspect(conf, false, k).1 {
            ActionView::Finish(end) => (end, k),
            _ => drive(conf, inspect(conf, false, k).0, inspect(conf, false, k).1, k),
        },
{
    let start = retrieve_in(Stage::Inspecting, false);
    assert(step(conf, IfaceApply::spec_new(), EventView::Start) == start);
    assert(respond(k, start.1) == (k, EventView::Snapshot(k)));
    assert(step(conf, start.0, EventView::Snapshot(k)) == inspect(conf, false, k));
}

/// An interface that is to be absent is gone once the reconciliation has
/// succeeded, and the host is as it was where it was not there.
pub proof fn lemma_success_absent(conf: IfaceConfView, k: NetStateView)
    requires
        host_wf(k),
        conf.state == IfaceState::Absent,
    ensures
        outcome(conf, k).0 is Ok,
        outcome(conf, k).1 == settled_host(conf, k),
        in_place(conf, outcome(conf, k).1),
        outcome(conf, k).0 == Ok::<bool, ErrorView>(false) ==> outcome(conf, k).1 == k,
{
    lemma_first_step(conf, k);
    let cur = k.get(conf.name);
    lemma_position(k.ifaces, conf.name);
    if cur is Some {
        let p = position(k.ifaces, conf.name)->0;
        let queue = seq![RequestView::DeleteLink { index: cur->0.index }];
        assert(inspect(conf, false, k) == (
            IfaceApplyView { stage: Stage::Removing, queue, changed: false },
            ActionView::Send(queue[0]),
        ));
        lemma_found_by_index(k.ifaces, p);
        assert(queue.drop_last() =~= Seq::empty());
        assert(perform_all(k, queue.drop_last()) == Some(k));
        let made = NetStateView { ifaces: unlinked(k.ifaces, p), ..k };
        assert(perform_all(k, queue) == Some(made));
        lemma_drain(conf, Stage::Removing, queue, false, k);
        lemma_unlinked(k.ifaces, p);
        assert(outcome(conf, k) == (Ok::<bool, ErrorView>(true), made));
    }
}

/// An interface that exists as desired is as desired in every respect once
/// the reconciliation has succeeded.
pub proof fn lemma_success_existing(conf: IfaceConfView, k: NetStateView)
    requires
        host_wf(k),
        conf.state != IfaceState::Absent,
        identity_plan(conf, k.get(conf.name)) matches Ok(requests) && requests.len() == 0,
        outcome(conf, k).0 is Ok,
    ensures
        k.get(conf.name) is Some,
        outcome(conf, k).1 == settled_host(conf, k),
        in_place(conf, outcome(conf, k).1),
        outcome(conf, k).0 == Ok::<bool, ErrorView>(false) ==> outcome(conf, k).1 == k,
{
    lemma_first_step(conf, k);
    let cur = k.get(conf.name);
    lemma_position(k.ifaces, conf.name);
    assert(perform_all(k, identity_plan(conf, cur)->Ok_0) == Some(k));
    let iface_type = effective_type(conf, cur)->0;
    let begin = retrieve_in(Stage::Locating { iface_type }, false);
    assert(inspect(conf, false, k) == begin);
    assert(outcome(conf, k) == drive(conf, begin.0, begin.1, k));
    if cur is Some {
        let p = position(k.ifaces, conf.name)->0;
        lemma_locate(conf, false, k, p, iface_type);
        lemma_placed(conf, k, p);
        if outcome(conf, k).0 == Ok::<bool, ErrorView>(false) {
            let iface = k.ifaces[p];
            lemma_settle_performed(conf, iface);
            assert(placed(conf, iface) == iface);
            assert(k.ifaces.update(p, iface) =~= k.ifaces);
        }
    } else {
        assert(respond(k, begin.1) == (k, EventView::Snapshot(k)));
        assert(step(conf, begin.0, EventView::Snapshot(k)) == locate(conf, false, k, iface_type));
        assert(located(k, conf.name, iface_type) is Err);
    }
}

/// The live state after the requests that create a veth interface, or
/// delete it and create it anew.
pub proof fn lemma_create_performed(conf: IfaceConfView, k: NetStateView)
    requires
        host_wf(k),
        identity_plan(conf, k.get(conf.name)) matches Ok(requests) && requests.len() > 0,
    ensures
        ({
            let requests = identity_plan(conf, k.get(conf.name))->Ok_0;
            let cur = k.get(conf.name);
            let base = if cur is Some {
                NetStateView { ifaces: unlinked(k.ifaces, position(k.ifaces, conf.name)->0), ..k }
            } else {
                k
            };
            let create = RequestView::CreateVeth { name: conf.name, peer: conf.veth->0 };
            &&& conf.veth is Some
            &&& effective_type(conf, cur) == Some(IfaceType::Veth)
            &&& names_unique(base.ifaces)
            &&& indices_unique(base.ifaces)
            &&& perform_all(k, requests) == effect(base, create)
        }),
{
    let cur = k.get(conf.name);
    let requests = identity_plan(conf, cur)->Ok_0;
    lemma_position(k.ifaces, conf.name);
    let peer = conf.veth->0;
    let create = RequestView::CreateVeth { name: conf.name, peer };
    let tail = seq![create];
    if cur is Some {
        let p = position(k.ifaces, conf.name)->0;
        let base = NetStateView { ifaces: unlinked(k.ifaces, p), ..k };
        lemma_found_by_index(k.ifaces, p);
        lemma_unlinked(k.ifaces, p);
        lemma_perform_first(k, requests);
        assert(requests.drop_first() =~= tail);
        assert(effect(k, requests[0]) == Some(base));
        lemma_perform_first(base, tail);
        assert(tail.drop_first() =~= Seq::empty());
        match effect(base, create) {
            Some(after) => {
                assert(perform_all(after, tail.drop_first()) == Some(after));
            },
            None => {},
        }
    } else {
        assert(requests =~= tail);
        lemma_perform_first(k, tail);
        assert(tail.drop_first() =~= Seq::empty());
        match effect(k, create) {
            Some(after) => {
                assert(perform_all(after, tail.drop_first()) == Some(after));
            },
            None => {},
        }
    }
}

/// A veth interface that had to be created, or created anew, is as
/// desired in every respect once the reconciliation has succeeded.
pub proof fn lemma_success_created(conf: IfaceConfView, k: NetStateView)
    requires
        host_wf(k),
        conf.state != IfaceState::Absent,
        identity_plan(conf, k.get(conf.name)) matches Ok(requests) && requests.len() > 0,
        outcome(conf, k).0 is Ok,
    ensures
        outcome(conf, k).1 == settled_host(conf, k),
        in_place(conf, outcome(conf, k).1),
        outcome(conf, k).0 == Ok::<bool, ErrorView>(true),
        outcome(conf, k).1.get(conf.name) matches Some(after) && after.iface_type
            == IfaceType::Veth && after.veth == conf.veth,
{
    lemma_first_step(conf, k);
    let cur = k.get(conf.name);
    let requests = identity_plan(conf, cur)->Ok_0;
    let iface_type = IfaceType::Veth;
    lemma_create_performed(conf, k);
    assert(inspect(conf, false, k) == (
        IfaceApplyView { stage: Stage::Creating { iface_type }, queue: requests, changed: false },
        ActionView::Send(requests[0]),
    ));
    lemma_drain(conf, Stage::Creating { iface_type }, requests, false, k);
    let peer = conf.veth->0;
    let base = if cur is Some {
        NetStateView { ifaces: unlinked(k.ifaces, position(k.ifaces, conf.name)->0), ..k }
    } else {
        k
    };
    if perform_all(k, requests) is Some {
        let made = perform_all(k, requests)->0;
        let here = base.ifaces.len() as int;
        lemma_created(base.ifaces, conf.name, peer);
        let begin = retrieve_in(Stage::Locating { iface_type }, true);
        assert(outcome(conf, k) == drive(conf, begin.0, begin.1, made));
        lemma_locate(conf, true, made, here, iface_type);
        lemma_placed(conf, made, here);
        let after = placed(conf, made.ifaces[here]);
        assert(same_identity(made.ifaces[here], after));
        lemma_position_update(made.ifaces, here, after, conf.name);
    }
}

/// A reconciliation that succeeds on the model leaves the host as
/// desired. Where it reports no change, it has left the host as it was.
pub proof fn lemma_success_in_place(conf: IfaceConfView, k: NetStateView)
    requires
        host_wf(k),
        outcome(conf, k).0 is Ok,
    ensures
        outcome(conf, k).1 == settled_host(conf, k),
        in_place(conf, outcome(conf, k).1),
        outcome(conf, k).0 == Ok::<bool, ErrorView>(false) ==> outcome(conf, k).1 == k,
{
    if conf.state == IfaceState::Absent {
        lemma_success_absent(conf, k);
    } else {
        match identity_plan(conf, k.get(conf.name)) {
            Err(e) => {
                lemma_first_step(conf, k);
            },
            Ok(requests) => {
                if requests.len() == 0 {
                    lemma_success_existing(conf, k);
                } else {
                    lemma_success_created(conf, k);
                }
            },
        }
    }
}

/// Applying a configuration a second time changes nothing: on a host that
/// a first reconciliation has left after it succeeded, the reconciliation
/// succeeds again, reports no change and leaves the host as it is.
pub proof fn lemma_idempotent(conf: IfaceConfView, k: NetStateView)
    requires
        host_wf(k),
        outcome(conf, k).0 is Ok,
    ensures
        outcome(conf, outcome(conf, k).1) == (Ok::<bool, ErrorView>(false), outcome(conf, k).1),
{
    lemma_success_in_place(conf, k);
    lemma_quiet(conf, outcome(conf, k).1);
}

/// An interface that is to be absent and is not there is left at that:
/// no request is sent and no change reported, whatever else the
/// configuration holds.
pub proof fn lemma_absent_is_terminal(conf: IfaceConfView, k: NetStateView)
    requires
        conf.state == IfaceState::Absent,
        k.get(conf.name) is None,
    ensures
        inspect(conf, false, k).1 == ActionView::Finish(Ok(false)),
        outcome(conf, k) == (Ok::<bool, ErrorView>(false), k),
{
    lemma_quiet(conf, k);
}

/// A type that differs from that of the live interface is the caller's
/// error, and the host is left as it is.
pub proof fn lemma_type_conflict(conf: IfaceConfView, k: NetStateView)
    requires
        conf.state != IfaceState::Absent,
        conf.iface_type is Some,
        k.get(conf.name) is Some,
        k.get(conf.name)->0.iface_type != conf.iface_type->0,
    ensures
        outcome(conf, k) == (
            Err::<bool, ErrorView>(
                NisporError::spec_invalid_argument(
                    Fault::TypeConflict {
                        live: k.get(conf.name)->0.iface_type,
                        desired: conf.iface_type->0,
                    },
                    conf.name,
                    Seq::empty(),
                ),
            ),
            k,
        ),
{
    lemma_first_step(conf, k);
}

/// An interface that is to be up or down and is not is brought to that
/// state: where the reconciliation succeeds it reports a change, the
/// interface is then in the desired state, and a second reconciliation
/// reports no change.
pub proof fn lemma_state_toggled(conf: IfaceConfView, k: NetStateView)
    requires
        host_wf(k),
        conf.state == IfaceState::Up || conf.state == IfaceState::Down,
        k.get(conf.name) is Some,
        k.get(conf.name)->0.state != conf.state,
        outcome(conf, k).0 is Ok,
    ensures
        outcome(conf, k).0 == Ok::<bool, ErrorView>(true),
        outcome(conf, k).1.get(conf.name) matches Some(after) && after.state == conf.state,
        outcome(conf, outcome(conf, k).1) == (Ok::<bool, ErrorView>(false), outcome(conf, k).1),
{
    lemma_success_in_place(conf, k);
    lemma_quiet(conf, outcome(conf, k).1);
    if outcome(conf, k).0 == Ok::<bool, ErrorView>(false) {
        let iface = k.get(conf.name)->0;
        assert(in_place(conf, k));
        assert(state_request(iface, conf.state) is Some);
        let first = seq![state_request(iface, conf.state)->0];
        let rest = address_requests(conf.ipv6, iface, IpFamily::Ipv6);
        assert((first + rest).len() >= 1);
        assert(settle_plan(conf, iface).len() >= 1);
    }
    let changed = outcome(conf, k).0->Ok_0;
    assert(outcome(conf, k).0 == Ok::<bool, ErrorView>(changed));
}

/// A veth interface whose live peer is not the desired one is deleted and
/// created anew, by exactly these two requests: where the reconciliation
/// succeeds it reports a change, and the interface then has the desired
/// peer.
pub proof fn lemma_veth_recreated(conf: IfaceConfView, k: NetStateView)
    requires
        host_wf(k),
        conf.state != IfaceState::Absent,
        conf.veth is Some,
        conf.iface_type is None || conf.iface_type == Some(IfaceType::Veth),
        k.get(conf.name) is Some,
        k.get(conf.name)->0.iface_type == IfaceType::Veth,
        k.get(conf.name)->0.veth is Some,
        k.get(conf.name)->0.veth != conf.veth,
        outcome(conf, k).0 is Ok,
    ensures
        identity_plan(conf, k.get(conf.name)) == Ok::<Seq<RequestView>, ErrorView>(
            seq![
                RequestView::DeleteLink { index: k.get(conf.name)->0.index },
                RequestView::CreateVeth { name: conf.name, peer: conf.veth->0 },
            ],
        ),
        outcome(conf, k).0 == Ok::<bool, ErrorView>(true),
        outcome(conf, k).1.get(conf.name) matches Some(after) && after.veth == conf.veth,
{
    lemma_success_created(conf, k);
}

/// Reconciliation never removes an autoconfigured address: no removal
/// names its address and prefix length, and it is among the addresses that
/// the reconciliation leaves, whatever is desired.
pub proof fn lemma_autoconfigured_stay(
    live: Seq<IpAddrInfo>,
    desired: Option<Seq<IpAddrConf>>,
    a: IpAddrInfo,
)
    requires
        live.contains(a),
        a.origin == AddrOrigin::Autoconfigured,
    ensures
        desired matches Some(d) ==> !to_remove(d, live).contains(a.key()),
        reconciled(live, desired).contains(a),
{
    let at = choose|i: int| 0 <= i < live.len() && live[i] == a;
    assert(live[at].key() == a.key());
    assert(has_autoconfigured(live, a.key()));
    match desired {
        Some(d) => {
            let removals = to_remove(d, live);
            lemma_to_remove(d, live);
            lemma_kept(live, removals);
            let stay = kept(live, removals);
            assert(stay.contains(a));
            let j = choose|j: int| 0 <= j < stay.len() && stay[j] == a;
            assert(reconciled(live, desired)[j] == a);
        },
        None => {},
    }
}

/// A configuration that is present and empty clears a family: what is left
/// was there before, and is an autoconfigured address or has the address
/// and prefix length of one. A configuration that leaves the family out
/// leaves every address as it is.
pub proof fn lemma_cleared_or_untouched(live: Seq<IpAddrInfo>)
    ensures
        forall|a: IpAddrInfo| #[trigger]
            reconciled(live, Some(Seq::empty())).contains(a) ==> live.contains(a) && (a.origin
                == AddrOrigin::Autoconfigured || has_autoconfigured(live, a.key())),
        reconciled(live, None) == live,
{
    let d = Seq::<IpAddrConf>::empty();
    let removals = to_remove(d, live);
    lemma_to_remove(d, live);
    lemma_kept(live, removals);
    let after = reconciled(live, Some(d));
    assert(to_add(d, live) =~= Seq::empty());
    assert(after =~= kept(live, removals));
    assert forall|a: IpAddrInfo| #[trigger] after.contains(a) implies live.contains(a) && (a.origin
        == AddrOrigin::Autoconfigured || has_autoconfigured(live, a.key())) by {
        if a.origin == AddrOrigin::Manual && !has_autoconfigured(live, a.key()) {
            let j = choose|j: int| 0 <= j < live.len() && live[j] == a;
            assert(is_stale(live[j], d, live));
            assert(removals.contains(a.key()));
        }
    }
}

/// No request that settles an interface removes an autoconfigured address
/// of it, whatever the configuration desires.
pub proof fn lemma_no_removal_of_autoconfigured(
    conf: IfaceConfView,
    iface: IfaceView,
    family: IpFamily,
    a: IpAddrInfo,
)
    requires
        family_addresses(iface, family).contains(a),
        a.origin == AddrOrigin::Autoconfigured,
    ensures
        forall|i: int|
            0 <= i < settle_plan(conf, iface).len() ==> #[trigger] settle_plan(conf, iface)[i]
                != del_request(iface.index, family, a.key()),
{
    let first: Seq<RequestView> = match state_request(iface, conf.state) {
        Some(r) => seq![r],
        None => Seq::empty(),
    };
    let second = address_requests(conf.ipv6, iface, IpFamily::Ipv6);
    let third = address_requests(conf.ipv4, iface, IpFamily::Ipv4);
    let plan = settle_plan(conf, iface);
    assert(plan == first + second + third);
    lemma_removal_requests(conf.ipv6, iface, IpFamily::Ipv6, family, a);
    lemma_removal_requests(conf.ipv4, iface, IpFamily::Ipv4, family, a);
    assert forall|i: int| 0 <= i < plan.len() implies #[trigger] plan[i] != del_request(
        iface.index,
        family,
        a.key(),
    ) by {
        if i < first.len() {
            assert(plan[i] == first[i]);
        } else if i < first.len() + second.len() {
            assert(plan[i] == second[i - first.len()]);
        } else {
            assert(plan[i] == third[i - first.len() - second.len()]);
        }
    }
}

/// No request for the addresses of a family removes an autoconfigured
/// address of the interface.
pub proof fn lemma_removal_requests(
    desired: Option<Seq<IpAddrConf>>,
    iface: IfaceView,
    of: IpFamily,
    family: IpFamily,
    a: IpAddrInfo,
)
    requires
        family_addresses(iface, family).contains(a),
        a.origin == AddrOrigin::Autoconfigured,
    ensures
        forall|i: int|
            0 <= i < address_requests(desired, iface, of).len() ==> #[trigger] address_requests(
                desired,
                iface,
                of,
            )[i] != del_request(iface.index, family, a.key()),
{
    match desired {
        Some(d) => {
            let live = family_addresses(iface, of);
            let removals = to_remove(d, live);
            let dels = removals.map_values(|k: IpAddrConf| del_request(iface.index, of, k));
            let adds = to_add(d, live).map_values(
                |k: IpAddrConf| add_request(iface.index, of, k),
            );
            let requests = address_requests(desired, iface, of);
            assert(requests == dels + adds);
            if of == family {
                lemma_autoconfigured_stay(live, desired, a);
            }
            assert forall|i: int| 0 <= i < requests.len() implies #[trigger] requests[i]
                != del_request(iface.index, family, a.key()) by {
                if i < dels.len() {
                    assert(requests[i] == dels[i]);
                    assert(removals.contains(removals[i]));
                } else {
                    assert(requests[i] == adds[i - dels.len()]);
                }
            }
        },
        None => {},
    }
}

/// An autoconfigured address of an interface that is not deleted or
/// created anew is still on the interface after the reconciliation,
/// however that ends.
pub proof fn lemma_autoconfigured_untouched(
    conf: IfaceConfView,
    k: NetStateView,
    family: IpFamily,
    a: IpAddrInfo,
)
    requires
        host_wf(k),
        conf.state != IfaceState::Absent,
        k.get(conf.name) is Some,
        identity_plan(conf, k.get(conf.name)) matches Ok(requests) && requests.len() == 0,
        family_addresses(k.get(conf.name)->0, family).contains(a),
        a.origin == AddrOrigin::Autoconfigured,
    ensures
        outcome(conf, k).1.get(conf.name) matches Some(after) && family_addresses(
            after,
            family,
        ).contains(a),
{
    lemma_first_step(conf, k);
    lemma_position(k.ifaces, conf.name);
    if mac_error(conf) is None {
        let p = position(k.ifaces, conf.name)->0;
        let iface = k.ifaces[p];
        let iface_type = effective_type(conf, k.get(conf.name))->0;
        lemma_locate(conf, false, k, p, iface_type);
        let after = placed(conf, iface);
        assert(same_identity(iface, after));
        lemma_position_update(k.ifaces, p, after, conf.name);
        let seen = with_mac(conf, iface);
        assert(family_addresses(seen, family) == family_addresses(iface, family));
        match family {
            IpFamily::Ipv4 => lemma_autoconfigured_stay(seen.ipv4, conf.ipv4, a),
            IpFamily::Ipv6 => lemma_autoconfigured_stay(seen.ipv6, conf.ipv6, a),
        }
    }
}

/// An error of the caller is found before anything is changed: where a
/// reconciliation ends with one, the host is as it was. This is so on the
/// model, on which the kernel refuses no MAC address.
pub proof fn lemma_invalid_argument_changes_nothing(conf: IfaceConfView, k: NetStateView)
    requires
        host_wf(k),
        outcome(conf, k).0 matches Err(e) && e.kind == ErrorKind::InvalidArgument,
    ensures
        outcome(conf, k).1 == k,
{
    lemma_first_step(conf, k);
    let cur = k.get(conf.name);
    lemma_position(k.ifaces, conf.name);
    if conf.state == IfaceState::Absent {
        lemma_success_absent(conf, k);
    } else if identity_plan(conf, cur) is Ok && mac_error(conf) is None {
        let requests = identity_plan(conf, cur)->Ok_0;
        let iface_type = effective_type(conf, cur)->0;
        if requests.len() == 0 {
            let begin = retrieve_in(Stage::Locating { iface_type }, false);
            assert(inspect(conf, false, k) == begin);
            if cur is Some {
                lemma_locate(conf, false, k, position(k.ifaces, conf.name)->0, iface_type);
            } else {
                assert(respond(k, begin.1) == (k, EventView::Snapshot(k)));
                assert(step(conf, begin.0, EventView::Snapshot(k)) == locate(
                    conf,
                    false,
                    k,
                    iface_type,
                ));
                assert(located(k, conf.name, iface_type) is Err);
            }
        } else {
            lemma_create_performed(conf, k);
            let stage = Stage::Creating { iface_type: IfaceType::Veth };
            assert(inspect(conf, false, k) == (
                IfaceApplyView { stage, queue: requests, changed: false },
                ActionView::Send(requests[0]),
            ));
            lemma_drain(conf, stage, requests, false, k);
            if perform_all(k, requests) is Some {
                let base = if cur is Some {
                    NetStateView {
                        ifaces: unlinked(k.ifaces, position(k.ifaces, conf.name)->0),
                        ..k
                    }
                } else {
                    k
                };
                let made = perform_all(k, requests)->0;
                lemma_created(base.ifaces, conf.name, conf.veth->0);
                lemma_locate(conf, true, made, base.ifaces.len() as int, IfaceType::Veth);
            } else {
                let end = outcome(conf, k).0;
                let i = choose|i: int|
                    0 <= i < requests.len() && end == Err::<bool, ErrorView>(
                        request_error(#[trigger] requests[i], conf.name, refusal()),
                    );
                assert(requests[i] is DeleteLink || requests[i] is CreateVeth);
            }
        }
    }
}

/// A MAC address whose text denotes none is the caller's error, found
/// before any request is sent: the host is left as it is.
pub proof fn lemma_malformed_mac(conf: IfaceConfView, k: NetStateView)
    requires
        conf.state != IfaceState::Absent,
        identity_plan(conf, k.get(conf.name)) is Ok,
        mac_error(conf) is Some,
    ensures
        inspect(conf, false, k).1 == ActionView::Finish(Err(mac_error(conf)->0)),
        outcome(conf, k) == (Err::<bool, ErrorView>(mac_error(conf)->0), k),
        mac_error(conf)->0 == NisporError::spec_invalid_argument(
            Fault::MalformedMac,
            Seq::empty(),
            conf.mac_address->0,
        ),
{
    lemma_first_step(conf, k);
}

/// A request that the model carries out leaves a host that a host can be.
pub proof fn lemma_effect_wf(k: NetStateView, request: RequestView)
    requires
        host_wf(k),
        effect(k, request) is Some,
    ensures
        host_wf(effect(k, request)->0),
{
    match request {
        RequestView::CreateVeth { name, peer } => {
            lemma_created(k.ifaces, name, peer);
        },
        RequestView::DeleteLink { index } => {
            lemma_by_index(k.ifaces, index);
            lemma_unlinked(k.ifaces, by_index(k.ifaces, index)->0);
        },
        _ => {
            let index = request_index(request)->0;
            lemma_by_index(k.ifaces, index);
            let p = by_index(k.ifaces, index)->0;
            let after = iface_effect(k.ifaces[p], request)->0;
            lemma_update_indices(k.ifaces, p, after);
            let out = k.ifaces.update(p, after);
            assert forall|i: int, j: int| 0 <= i < j < out.len() implies (#[trigger] out[i]).name
                != (#[trigger] out[j]).name by {
                assert(out[i].name == k.ifaces[i].name);
                assert(out[j].name == k.ifaces[j].name);
            }
        },
    }
}

/// Whatever a reconciliation does and however it ends, it leaves a host
/// that a host can be.
pub proof fn lemma_drive_wf(
    conf: IfaceConfView,
    state: IfaceApplyView,
    action: ActionView,
    k: NetStateView,
)
    requires
        host_wf(k),
    ensures
        host_wf(drive(conf, state, action, k).1),
    decreases rank(state.stage), state.queue.len(),
{
    match action {
        ActionView::Finish(_) => {},
        _ => {
            let (after, event) = respond(k, action);
            if let ActionView::Send(request) = action {
                if effect(k, request) is Some {
                    lemma_effect_wf(k, request);
                }
            }
            let (next, asked) = step(conf, state, event);
            match asked {
                ActionView::Finish(_) => {},
                _ => {
                    lemma_drive_wf(conf, next, asked, after);
                },
            }
        },
    }
}

/// The reconciliation of an interface leaves a host that a host can be.
pub proof fn lemma_outcome_wf(conf: IfaceConfView, k: NetStateView)
    requires
        host_wf(k),
    ensures
        host_wf(outcome(conf, k).1),
{
    let (state, action) = step(conf, IfaceApply::spec_new(), EventView::Start);
    lemma_drive_wf(conf, state, action, k);
}

/// The interfaces of a list reconciled one after the other from the one
/// at `from` on, each on the live state that the one before it left. The
/// first error ends it; otherwise a change is reported if one was reported
/// before or for any of the interfaces.
pub open spec fn apply_from(
    confs: Seq<IfaceConfView>,
    from: int,
    changed: bool,
    k: NetStateView,
) -> (Result<bool, ErrorView>, NetStateView)
    decreases confs.len() - from,
{
    if from < 0 || from >= confs.len() {
        (Ok(changed), k)
    } else {
        match outcome(confs[from], k) {
            (Ok(c), after) => apply_from(confs, from + 1, changed || c, after),
            (Err(e), after) => (Err(e), after),
        }
    }
}

/// The reconciliation of a host goes on with the interface that is being
/// reconciled until that ends, and then with the interfaces after it.
pub proof fn lemma_net_drive(
    confs: Seq<IfaceConfView>,
    state: NetApplyView,
    action: ActionView,
    k: NetStateView,
)
    requires
        0 <= state.position < confs.len(),
        !(action is Finish),
    ensures
        net_drive(confs, state, action, k) == match drive(
            confs[state.position],
            state.current,
            action,
            k,
        ) {
            (Ok(c), after) => apply_from(
                confs,
                state.position + 1,
                state.changed || c,
                after,
            ),
            (Err(e), after) => (Err(e), after),
        },
    decreases confs.len() - state.position, rank(state.current.stage), state.current.queue.len(),
{
    let conf = confs[state.position];
    let (after, event) = respond(k, action);
    let (current, inner) = step(conf, state.current, event);
    let (next, asked) = net_step(confs, state, event);
    match inner {
        ActionView::Finish(Ok(c)) => {
            let changed = state.changed || c;
            assert((next, asked) == advance(confs, state.position + 1, changed));
            if state.position + 1 < confs.len() {
                lemma_net_drive(confs, next, asked, after);
                let following = confs[state.position + 1];
                assert(step(following, IfaceApply::spec_new(), EventView::Start) == retrieve_in(
                    Stage::Inspecting,
                    false,
                ));
                assert(drive(following, next.current, asked, after) == outcome(following, after));
            }
        },
        ActionView::Finish(Err(e)) => {},
        _ => {
            lemma_net_drive(confs, next, asked, after);
        },
    }
}

/// To reconcile a host is to reconcile the interfaces of the list one
/// after the other, each on the live state that the one before it left.
pub proof fn lemma_net_outcome(confs: Seq<IfaceConfView>, k: NetStateView)
    ensures
        net_outcome(confs, k) == apply_from(confs, 0, false, k),
{
    if confs.len() > 0 {
        let begin = retrieve_in(Stage::Inspecting, false);
        assert(step(confs[0], IfaceApply::spec_new(), EventView::Start) == begin);
        let (state, action) = net_step(confs, NetApply::spec_new(), EventView::Start);
        assert(state == NetApplyView { position: 0, changed: false, current: begin.0 });
        lemma_net_drive(confs, state, action, k);
    }
}

/// On a live state that is as every interface of the list desires it,
/// the reconciliation of the host sends no request and reports no change.
pub proof fn lemma_net_quiet(confs: Seq<IfaceConfView>, k: NetStateView)
    requires
        forall|i: int| 0 <= i < confs.len() ==> in_place(#[trigger] confs[i], k),
    ensures
        net_outcome(confs, k) == (Ok::<bool, ErrorView>(false), k),
{
    lemma_net_outcome(confs, k);
    lemma_apply_quiet(confs, 0, k);
}

/// The interfaces of a list that are all as desired are reconciled
/// without a request and without a change.
pub proof fn lemma_apply_quiet(confs: Seq<IfaceConfView>, from: int, k: NetStateView)
    requires
        0 <= from,
        forall|i: int| from <= i < confs.len() ==> in_place(#[trigger] confs[i], k),
    ensures
        forall|changed: bool| #[trigger]
            apply_from(confs, from, changed, k) == (Ok::<bool, ErrorView>(changed), k),
    decreases confs.len() - from,
{
    if from < confs.len() {
        lemma_quiet(confs[from], k);
        lemma_apply_quiet(confs, from + 1, k);
        assert forall|changed: bool| #[trigger]
            apply_from(confs, from, changed, k) == (Ok::<bool, ErrorView>(changed), k) by {
            assert(apply_from(confs, from + 1, changed || false, k) == (
                Ok::<bool, ErrorView>(changed || false),
                k,
            ));
        }
    }
}

/// Whether the reconciliation deletes the live interface: because it is
/// to be absent, or to be created anew.
pub open spec fn deletes(conf: IfaceConfView, cur: Option<IfaceView>) -> bool {
    cur is Some && (conf.state == IfaceState::Absent || (identity_plan(conf, cur) matches Ok(
        requests,
    ) && requests.len() == 2))
}

/// Whether the reconciliation creates the interface, and its peer with
/// it.
pub open spec fn creates(conf: IfaceConfView, cur: Option<IfaceView>) -> bool {
    conf.state != IfaceState::Absent && (identity_plan(conf, cur) matches Ok(requests)
        && requests.len() > 0)
}

/// Whether the reconciliation of an interface can touch the interface of
/// this name: its own, the peer of the live interface where that is
/// deleted, and the desired peer where the interface is created.
pub open spec fn touched(conf: IfaceConfView, k: NetStateView, name: Seq<char>) -> bool {
    let cur = k.get(conf.name);
    ||| name == conf.name
    ||| (deletes(conf, cur) && cur->0.veth == Some(name))
    ||| (creates(conf, cur) && conf.veth == Some(name))
}

/// An interface under another name is found as before once an interface
/// is replaced by one of its own name.
pub proof fn lemma_get_update(ifaces: Seq<IfaceView>, p: int, iface: IfaceView, name: Seq<char>)
    requires
        0 <= p < ifaces.len(),
        iface.name == ifaces[p].name,
        name != iface.name,
    ensures
        position(ifaces.update(p, iface), name) == position(ifaces, name),
        position(ifaces, name) matches Some(q) ==> ifaces.update(p, iface)[q] == ifaces[q],
{
    lemma_position_update(ifaces, p, iface, name);
    lemma_position(ifaces, name);
}

/// An interface under another name is found as before once an interface
/// is added.
pub proof fn lemma_get_push(ifaces: Seq<IfaceView>, iface: IfaceView, name: Seq<char>)
    requires
        name != iface.name,
    ensures
        position(ifaces.push(iface), name) == position(ifaces, name),
        position(ifaces, name) matches Some(q) ==> ifaces.push(iface)[q] == ifaces[q],
{
    assert(ifaces.push(iface).drop_last() =~= ifaces);
    lemma_position(ifaces, name);
}

/// An interface under another name is still found once an interface is
/// taken away.
pub proof fn lemma_get_remove(ifaces: Seq<IfaceView>, i: int, name: Seq<char>)
    requires
        0 <= i < ifaces.len(),
        name != ifaces[i].name,
    ensures
        match position(ifaces, name) {
            Some(q) => position(ifaces.remove(i), name) matches Some(r) && ifaces.remove(i)[r]
                == ifaces[q],
            None => position(ifaces.remove(i), name) is None,
        },
{
    let rest = ifaces.remove(i);
    lemma_remove(ifaces, i);
    lemma_position(ifaces, name);
    lemma_position(rest, name);
    match position(ifaces, name) {
        Some(q) => {
            let q2 = if q < i { q } else { q - 1 };
            assert(rest[q2] == ifaces[q]);
            match position(rest, name) {
                Some(r) => {
                    let r2 = if r < i { r } else { r + 1 };
                    assert(rest[r] == ifaces[r2]);
                    if r < q2 {
                        assert(ifaces[r2].name != name);
                    }
                    if q2 < r {
                        assert(rest[q2].name != name);
                    }
                },
                None => {
                    assert(rest[q2].name != name);
                },
            }
        },
        None => {
            if position(rest, name) is Some {
                let r = position(rest, name)->0;
                let r2 = if r < i { r } else { r + 1 };
                assert(rest[r] == ifaces[r2]);
                assert(ifaces[r2].name != name);
            }
        },
    }
}

/// Deleting an interface leaves every interface alone but the deleted one
/// and its peer.
pub proof fn lemma_get_unlinked(k: NetStateView, p: int, name: Seq<char>)
    requires
        0 <= p < k.ifaces.len(),
        name != k.ifaces[p].name,
        k.ifaces[p].veth != Some(name),
    ensures
        (NetStateView { ifaces: unlinked(k.ifaces, p), ..k }).get(name) == k.get(name),
{
    let rest = k.ifaces.remove(p);
    lemma_get_remove(k.ifaces, p, name);
    if unlinked(k.ifaces, p) != rest {
        let peer = k.ifaces[p].veth->0;
        let q = position(rest, peer)->0;
        lemma_position(rest, peer);
        lemma_get_remove(rest, q, name);
    }
}

/// A reconciliation that succeeds leaves every interface alone that it
/// cannot touch.
pub proof fn lemma_frame(conf: IfaceConfView, k: NetStateView, name: Seq<char>)
    requires
        host_wf(k),
        outcome(conf, k).0 is Ok,
        !touched(conf, k, name),
    ensures
        outcome(conf, k).1.get(name) == k.get(name),
{
    lemma_success_in_place(conf, k);
    lemma_position(k.ifaces, conf.name);
    let cur = k.get(conf.name);
    if conf.state == IfaceState::Absent {
        if cur is Some {
            lemma_get_unlinked(k, position(k.ifaces, conf.name)->0, name);
        }
    } else {
        if identity_plan(conf, cur) is Err {
            lemma_first_step(conf, k);
        } else {
            let requests = identity_plan(conf, cur)->Ok_0;
            let created = perform_all(k, requests)->0;
            if requests.len() == 0 {
                assert(created == k);
                lemma_success_existing(conf, k);
            } else {
                lemma_create_performed(conf, k);
                lemma_success_created(conf, k);
                let base = if cur is Some {
                    NetStateView {
                        ifaces: unlinked(k.ifaces, position(k.ifaces, conf.name)->0),
                        ..k
                    }
                } else {
                    k
                };
                if cur is Some {
                    lemma_get_unlinked(k, position(k.ifaces, conf.name)->0, name);
                }
                let peer = conf.veth->0;
                let create = RequestView::CreateVeth { name: conf.name, peer };
                if effect(base, create) is None {
                    lemma_first_step(conf, k);
                    lemma_drain(
                        conf,
                        Stage::Creating { iface_type: IfaceType::Veth },
                        requests,
                        false,
                        k,
                    );
                }
                let index = next_index(base.ifaces);
                let first = veth_end(conf.name, index as u32, peer);
                let second = veth_end(peer, (index + 1) as u32, conf.name);
                lemma_created(base.ifaces, conf.name, peer);
                lemma_get_push(base.ifaces, first, name);
                lemma_get_push(base.ifaces.push(first), second, name);
                assert(created.get(name) == k.get(name));
            }
            let p = position(created.ifaces, conf.name)->0;
            lemma_position(created.ifaces, conf.name);
            let after = placed(conf, created.ifaces[p]);
            assert(same_identity(created.ifaces[p], after));
            lemma_get_update(created.ifaces, p, after, name);
        }
    }
}

/// The live state when the turn of the interface at `n` comes: what the
/// reconciliations of the interfaces before it have left.
pub open spec fn state_at(confs: Seq<IfaceConfView>, n: int, k: NetStateView) -> NetStateView
    decreases n,
{
    if n <= 0 {
        k
    } else {
        outcome(confs[n - 1], state_at(confs, n - 1, k)).1
    }
}

/// Whether the reconciliation of the interface at `h` succeeds when its
/// turn comes.
pub open spec fn turn_succeeds(confs: Seq<IfaceConfView>, h: int, k: NetStateView) -> bool {
    outcome(confs[h], state_at(confs, h, k)).0 is Ok
}

/// Whether the interface at `j` cannot touch, on this live state, an
/// interface that stands before it in the list.
pub open spec fn clear_of_earlier(confs: Seq<IfaceConfView>, j: int, s: NetStateView) -> bool {
    forall|i: int| 0 <= i < j ==> !touched(confs[j], s, (#[trigger] confs[i]).name)
}

/// Whether the interface at `j` leaves alone what was done before its
/// turn: it needs nothing when its turn comes, or cannot touch an
/// interface that stands before it in the list.
pub open spec fn turn_ok(confs: Seq<IfaceConfView>, j: int, k: NetStateView) -> bool {
    let s = state_at(confs, j, k);
    in_place(confs[j], s) || clear_of_earlier(confs, j, s)
}

/// Whether no interface of a list undoes what was done for one before it.
/// A list that names both ends of a veth pair, or one interface twice with
/// the same wishes, is of this kind; one that asks an interface to be up
/// and then down is not.
pub open spec fn in_turn(confs: Seq<IfaceConfView>, k: NetStateView) -> bool {
    forall|j: int| 0 <= j < confs.len() ==> #[trigger] turn_ok(confs, j, k)
}

/// Where the reconciliation of a host succeeds, that of each interface
/// succeeded when its turn came, and the host is left as the last of them
/// left it.
pub proof fn lemma_apply_states(
    confs: Seq<IfaceConfView>,
    from: int,
    changed: bool,
    k: NetStateView,
)
    requires
        0 <= from <= confs.len(),
        apply_from(confs, from, changed, state_at(confs, from, k)).0 is Ok,
    ensures
        forall|h: int| from <= h < confs.len() ==> #[trigger] turn_succeeds(confs, h, k),
        apply_from(confs, from, changed, state_at(confs, from, k)).1 == state_at(
            confs,
            confs.len() as int,
            k,
        ),
    decreases confs.len() - from,
{
    if from < confs.len() {
        let s = state_at(confs, from, k);
        let (first, after) = outcome(confs[from], s);
        assert(first is Ok);
        assert(state_at(confs, from + 1, k) == after);
        lemma_apply_states(confs, from + 1, changed || first->Ok_0, k);
        assert forall|h: int| from <= h < confs.len() implies #[trigger] turn_succeeds(
            confs,
            h,
            k,
        ) by {
            if h == from {
                assert(turn_succeeds(confs, from, k));
            }
        }
    }
}

/// Where no interface undoes what was done before its turn, every
/// interface whose turn is over is as desired.
pub proof fn lemma_in_turn_settled(confs: Seq<IfaceConfView>, k: NetStateView, n: int)
    requires
        host_wf(k),
        in_turn(confs, k),
        0 <= n <= confs.len(),
        forall|h: int| 0 <= h < n ==> #[trigger] turn_succeeds(confs, h, k),
    ensures
        host_wf(state_at(confs, n, k)),
        forall|i: int| 0 <= i < n ==> in_place(#[trigger] confs[i], state_at(confs, n, k)),
    decreases n,
{
    if n > 0 {
        lemma_in_turn_settled(confs, k, n - 1);
        let s = state_at(confs, n - 1, k);
        let conf = confs[n - 1];
        let after = state_at(confs, n, k);
        assert(turn_succeeds(confs, n - 1, k));
        assert(turn_ok(confs, n - 1, k));
        assert(after == outcome(conf, s).1);
        lemma_outcome_wf(conf, s);
        lemma_success_in_place(conf, s);
        if in_place(conf, s) {
            lemma_quiet(conf, s);
        } else {
            assert forall|i: int| 0 <= i < n - 1 implies in_place(#[trigger] confs[i], after) by {
                assert(!touched(conf, s, confs[i].name));
                lemma_frame(conf, s, confs[i].name);
                assert(in_place(confs[i], s));
            }
        }
    }
}

/// Applying the configuration of a host a second time changes nothing,
/// given that the first reconciliation has left every interface of the
/// list as desired: the second succeeds, reports no change and leaves the
/// host as it is.
pub proof fn lemma_net_settled(confs: Seq<IfaceConfView>, k: NetStateView)
    requires
        forall|i: int|
            0 <= i < confs.len() ==> in_place(#[trigger] confs[i], net_outcome(confs, k).1),
    ensures
        net_outcome(confs, net_outcome(confs, k).1) == (
            Ok::<bool, ErrorView>(false),
            net_outcome(confs, k).1,
        ),
{
    lemma_net_quiet(confs, net_outcome(confs, k).1);
}

/// A reconciliation of a host that succeeds leaves every interface of the
/// list as desired, where no interface undoes what was done before its
/// turn.
pub proof fn lemma_net_in_place(confs: Seq<IfaceConfView>, k: NetStateView)
    requires
        host_wf(k),
        in_turn(confs, k),
        net_outcome(confs, k).0 is Ok,
    ensures
        forall|i: int|
            0 <= i < confs.len() ==> in_place(#[trigger] confs[i], net_outcome(confs, k).1),
{
    lemma_net_outcome(confs, k);
    lemma_apply_states(confs, 0, false, k);
    lemma_in_turn_settled(confs, k, confs.len() as int);
}

/// Applying the configuration of a host a second time changes nothing,
/// where no interface undoes what was done before its turn: after a first
/// reconciliation that succeeded, the second succeeds, reports no change
/// and leaves the host as it is.
pub proof fn lemma_net_idempotent(confs: Seq<IfaceConfView>, k: NetStateView)
    requires
        host_wf(k),
        in_turn(confs, k),
        net_outcome(confs, k).0 is Ok,
    ensures
        net_outcome(confs, net_outcome(confs, k).1) == (
            Ok::<bool, ErrorView>(false),
            net_outcome(confs, k).1,
        ),
{
    lemma_net_in_place(confs, k);
    lemma_net_settled(confs, k);
}

/// Whether the interfaces of a list are apart on a live state: none can
/// touch the interface of another.
pub open spec fn apart(confs: Seq<IfaceConfView>, k: NetStateView) -> bool {
    forall|i: int, j: int|
        0 <= i < confs.len() && 0 <= j < confs.len() && i != j ==> !touched(
            #[trigger] confs[i],
            k,
            (#[trigger] confs[j]).name,
        )
}

/// Interfaces that are apart find their own interface as it was when their
/// turn comes.
pub proof fn lemma_apart_states(confs: Seq<IfaceConfView>, k: NetStateView, n: int)
    requires
        host_wf(k),
        apart(confs, k),
        0 <= n <= confs.len(),
        forall|h: int| 0 <= h < n ==> #[trigger] turn_succeeds(confs, h, k),
    ensures
        host_wf(state_at(confs, n, k)),
        forall|j: int|
            n <= j < confs.len() ==> state_at(confs, n, k).get((#[trigger] confs[j]).name)
                == k.get(confs[j].name),
    decreases n,
{
    if n > 0 {
        lemma_apart_states(confs, k, n - 1);
        let s = state_at(confs, n - 1, k);
        let conf = confs[n - 1];
        let after = state_at(confs, n, k);
        assert(turn_succeeds(confs, n - 1, k));
        assert(after == outcome(conf, s).1);
        lemma_outcome_wf(conf, s);
        assert(s.get(confs[n - 1].name) == k.get(confs[n - 1].name));
        assert forall|j: int| n <= j < confs.len() implies after.get((#[trigger] confs[j]).name)
            == k.get(confs[j].name) by {
            assert(!touched(confs[n - 1], k, confs[j].name));
            assert(!touched(conf, s, confs[j].name));
            lemma_frame(conf, s, confs[j].name);
        }
    }
}

/// Interfaces that are apart on the live state before the reconciliation
/// do not undo what was done before their turn.
pub proof fn lemma_apart_in_turn(confs: Seq<IfaceConfView>, k: NetStateView)
    requires
        host_wf(k),
        apart(confs, k),
        net_outcome(confs, k).0 is Ok,
    ensures
        in_turn(confs, k),
{
    lemma_net_outcome(confs, k);
    lemma_apply_states(confs, 0, false, k);
    assert forall|j: int| 0 <= j < confs.len() implies #[trigger] turn_ok(confs, j, k) by {
        lemma_apart_states(confs, k, j);
        let s = state_at(confs, j, k);
        assert(s.get(confs[j].name) == k.get(confs[j].name));
        assert forall|i: int| 0 <= i < j implies !touched(
            confs[j],
            s,
            (#[trigger] confs[i]).name,
        ) by {
            assert(!touched(confs[j], k, confs[i].name));
        }
    }
}

/// An interface that is not to be absent and for which no peer is desired
/// is never deleted or created: its reconciliation touches no interface but
/// its own.
pub proof fn lemma_touches_own_only(conf: IfaceConfView, k: NetStateView, name: Seq<char>)
    requires
        conf.state != IfaceState::Absent,
        conf.veth is None,
        name != conf.name,
    ensures
        !touched(conf, k, name),
{
}

/// A list that names one interface twice with the same wishes undoes
/// nothing: the second finds the interface as desired.
pub proof fn lemma_twice_in_turn(conf: IfaceConfView, k: NetStateView)
    requires
        host_wf(k),
        outcome(conf, k).0 is Ok,
    ensures
        in_turn(seq![conf, conf], k),
{
    let confs = seq![conf, conf];
    lemma_success_in_place(conf, k);
    assert(state_at(confs, 0, k) == k);
    assert(state_at(confs, 1, k) == outcome(confs[0], state_at(confs, 0, k)).1);
    assert forall|j: int| 0 <= j < confs.len() implies #[trigger] turn_ok(confs, j, k) by {
        if j == 0 {
            assert(clear_of_earlier(confs, 0, state_at(confs, 0, k)));
        }
    }
}

} // verus!

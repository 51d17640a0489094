//! Addresses of an interface, live and desired, and their reconciliation.

use crate::ifaces::iface::{Iface, IfaceView};
use crate::transport::{request_views, Request, RequestView};
use vstd::prelude::*;

verus! {

/// Address family of an address or of a request.
#[derive(Clone, Copy, Debug, PartialEq, Eq, Structural)]
pub enum IpFamily {
    Ipv4,
    Ipv6,
}

/// Who put an address on an interface.
#[derive(Clone, Copy, Debug, PartialEq, Eq, Structural)]
pub enum AddrOrigin {
    /// Configured by an administrator or by this library.
    Manual,
    /// Generated by the kernel, such as an IPv6 link-local address.
    Autoconfigured,
}

/// How long the kernel keeps an address.
#[derive(Clone, Copy, Debug, PartialEq, Eq, Structural)]
pub enum Lifetime {
    Forever,
    Seconds(u32),
}

/// One address as the kernel reports it. The address is held as a number:
/// an IPv4 address in the low 32 bits.
#[derive(Clone, Copy, Debug, PartialEq, Eq, Structural)]
pub struct IpAddrInfo {
    pub address: u128,
    pub prefix_len: u8,
    pub origin: AddrOrigin,
    pub valid_lft: Lifetime,
    pub preferred_lft: Lifetime,
}

/// One desired address.
#[derive(Clone, Copy, Debug, PartialEq, Eq, Structural)]
pub struct IpAddrConf {
    pub address: u128,
    pub prefix_len: u8,
}

/// The desired addresses of one family. A configuration that is present
/// and empty asks for every manual address of the family to be removed.
#[derive(Debug, PartialEq, Eq)]
pub struct IpConf {
    pub addresses: Vec<IpAddrConf>,
}

impl View for IpConf {
    type V = Seq<IpAddrConf>;

    open spec fn view(&self) -> Seq<IpAddrConf> {
        self.addresses@
    }
}

impl Clone for IpConf {
    fn clone(&self) -> (r: Self)
        ensures
            r@ == self@,
    {
        IpConf { addresses: self.addresses.clone() }
    }
}

impl IpAddrInfo {
    /// The address and prefix length by which an address is found again.
    pub open spec fn key(self) -> IpAddrConf {
        IpAddrConf { address: self.address, prefix_len: self.prefix_len }
    }
}

/// Whether one of the live addresses has this address and prefix length,
/// whatever its origin.
pub open spec fn has_key(live: Seq<IpAddrInfo>, k: IpAddrConf) -> bool {
    exists|i: int| 0 <= i < live.len() && (#[trigger] live[i]).key() == k
}

/// Whether one of the live addresses that the kernel generated has this
/// address and prefix length.
pub open spec fn has_autoconfigured(live: Seq<IpAddrInfo>, k: IpAddrConf) -> bool {
    exists|i: int|
        0 <= i < live.len() && (#[trigger] live[i]).origin == AddrOrigin::Autoconfigured
            && live[i].key() == k
}

/// Whether a live address is to go: it was configured by hand, is not
/// among the desired ones, and no autoconfigured address of the interface
/// has its address and prefix length. An autoconfigured address never is,
/// and no request ever names one.
pub open spec fn is_stale(a: IpAddrInfo, desired: Seq<IpAddrConf>, live: Seq<IpAddrInfo>) -> bool {
    &&& a.origin == AddrOrigin::Manual
    &&& !desired.contains(a.key())
    &&& !has_autoconfigured(live, a.key())
}

/// The stale addresses among the first of the live ones, each once, in the
/// order in which they first occur.
pub open spec fn stale_keys(
    desired: Seq<IpAddrConf>,
    live: Seq<IpAddrInfo>,
    part: Seq<IpAddrInfo>,
) -> Seq<IpAddrConf>
    decreases part.len(),
{
    if part.len() == 0 {
        Seq::empty()
    } else {
        let rest = stale_keys(desired, live, part.drop_last());
        let a = part.last();
        if is_stale(a, desired, live) && !rest.contains(a.key()) {
            rest.push(a.key())
        } else {
            rest
        }
    }
}

/// The addresses to remove: the stale live ones, each once, in the order in
/// which they first occur.
pub open spec fn to_remove(desired: Seq<IpAddrConf>, live: Seq<IpAddrInfo>) -> Seq<IpAddrConf> {
    stale_keys(desired, live, live)
}

/// The addresses to add: the desired ones that are not live, each once, in
/// the order in which they first occur.
pub open spec fn to_add(desired: Seq<IpAddrConf>, live: Seq<IpAddrInfo>) -> Seq<IpAddrConf>
    decreases desired.len(),
{
    if desired.len() == 0 {
        Seq::empty()
    } else {
        let rest = to_add(desired.drop_last(), live);
        let d = desired.last();
        if !has_key(live, d) && !rest.contains(d) {
            rest.push(d)
        } else {
            rest
        }
    }
}

/// The request to remove an address from an interface.
pub open spec fn del_request(index: u32, family: IpFamily, k: IpAddrConf) -> RequestView {
    RequestView::DelAddress { index, family, address: k.address, prefix_len: k.prefix_len }
}

/// The request to add an address to an interface.
pub open spec fn add_request(index: u32, family: IpFamily, k: IpAddrConf) -> RequestView {
    RequestView::AddAddress { index, family, address: k.address, prefix_len: k.prefix_len }
}

/// The live addresses of one family.
pub open spec fn family_addresses(iface: IfaceView, family: IpFamily) -> Seq<IpAddrInfo> {
    match family {
        IpFamily::Ipv4 => iface.ipv4,
        IpFamily::Ipv6 => iface.ipv6,
    }
}

/// The requests that bring the addresses of one family to the desired
/// ones: the removals first, then the additions.
pub open spec fn reconcile(
    desired: Seq<IpAddrConf>,
    iface: IfaceView,
    family: IpFamily,
) -> Seq<RequestView> {
    let live = family_addresses(iface, family);
    to_remove(desired, live).map_values(|k: IpAddrConf| del_request(iface.index, family, k))
        + to_add(desired, live).map_values(|k: IpAddrConf| add_request(iface.index, family, k))
}

/// A key is among the stale ones of a part of the live addresses exactly
/// if a stale address of that part has it, and none is there twice.
pub proof fn lemma_stale_keys(
    desired: Seq<IpAddrConf>,
    live: Seq<IpAddrInfo>,
    part: Seq<IpAddrInfo>,
)
    ensures
        stale_keys(desired, live, part).no_duplicates(),
        forall|k: IpAddrConf| #[trigger]
            stale_keys(desired, live, part).contains(k) <==> exists|i: int|
                0 <= i < part.len() && is_stale(#[trigger] part[i], desired, live) && part[i].key()
                    == k,
    decreases part.len(),
{
    if part.len() > 0 {
        let init = part.drop_last();
        let rest = stale_keys(desired, live, init);
        let a = part.last();
        let out = stale_keys(desired, live, part);
        lemma_stale_keys(desired, live, init);
        assert forall|k: IpAddrConf| #[trigger]
            out.contains(k) <==> exists|i: int|
                0 <= i < part.len() && is_stale(#[trigger] part[i], desired, live) && part[i].key()
                    == k by {
            if out.contains(k) {
                if rest.contains(k) {
                    let i = choose|i: int|
                        0 <= i < init.len() && is_stale(#[trigger] init[i], desired, live)
                            && init[i].key() == k;
                    assert(part[i] == init[i]);
                } else {
                    assert(is_stale(part[part.len() - 1], desired, live));
                }
            }
            if exists|i: int|
                0 <= i < part.len() && is_stale(#[trigger] part[i], desired, live) && part[i].key()
                    == k {
                let i = choose|i: int|
                    0 <= i < part.len() && is_stale(#[trigger] part[i], desired, live)
                        && part[i].key() == k;
                if i < init.len() {
                    assert(is_stale(init[i], desired, live));
                    assert(rest.contains(k));
                    let j = choose|j: int| 0 <= j < rest.len() && rest[j] == k;
                    assert(out[j] == k);
                } else {
                    if rest.contains(k) {
                        let j = choose|j: int| 0 <= j < rest.len() && rest[j] == k;
                        assert(out[j] == k);
                    } else {
                        assert(out.last() == k);
                    }
                }
            }
        }
    }
}

/// An address is removed exactly if a stale live address has it, and no
/// address is removed twice. No address that is removed is that of an
/// autoconfigured address.
pub proof fn lemma_to_remove(desired: Seq<IpAddrConf>, live: Seq<IpAddrInfo>)
    ensures
        to_remove(desired, live).no_duplicates(),
        forall|k: IpAddrConf| #[trigger]
            to_remove(desired, live).contains(k) <==> exists|i: int|
                0 <= i < live.len() && is_stale(#[trigger] live[i], desired, live) && live[i].key()
                    == k,
        forall|k: IpAddrConf| #[trigger]
            to_remove(desired, live).contains(k) ==> !has_autoconfigured(live, k),
{
    lemma_stale_keys(desired, live, live);
}

/// An address is added exactly if it is desired and not live, and no
/// address is added twice.
pub proof fn lemma_to_add(desired: Seq<IpAddrConf>, live: Seq<IpAddrInfo>)
    ensures
        to_add(desired, live).no_duplicates(),
        forall|k: IpAddrConf| #[trigger]
            to_add(desired, live).contains(k) <==> desired.contains(k) && !has_key(live, k),
    decreases desired.len(),
{
    if desired.len() > 0 {
        let init = desired.drop_last();
        let rest = to_add(init, live);
        let d = desired.last();
        lemma_to_add(init, live);
        assert forall|k: IpAddrConf| #[trigger]
            to_add(desired, live).contains(k) <==> desired.contains(k) && !has_key(live, k) by {
            if to_add(desired, live).contains(k) {
                if rest.contains(k) {
                    let i = choose|i: int| 0 <= i < init.len() && init[i] == k;
                    assert(desired[i] == k);
                } else {
                    assert(desired[desired.len() - 1] == k);
                }
            }
            if desired.contains(k) && !has_key(live, k) {
                let i = choose|i: int| 0 <= i < desired.len() && desired[i] == k;
                if i < init.len() {
                    assert(init[i] == k);
                }
                if rest.contains(k) {
                    let j = choose|j: int| 0 <= j < rest.len() && rest[j] == k;
                    assert(to_add(desired, live)[j] == k);
                } else {
                    assert(to_add(desired, live).last() == k);
                }
            }
        }
    }
}

fn has_conf(list: &Vec<IpAddrConf>, k: IpAddrConf) -> (r: bool)
    ensures
        r == list@.contains(k),
{
    let mut i: usize = 0;
    while i < list.len()
        invariant
            i <= list.len(),
            forall|j: int| 0 <= j < i ==> list@[j] != k,
        decreases list.len() - i,
    {
        if list[i] == k {
            return true;
        }
        i = i + 1;
    }
    false
}

/// Whether one of the live addresses has this address and prefix length.
pub fn has_address(live: &Vec<IpAddrInfo>, k: IpAddrConf) -> (r: bool)
    ensures
        r == has_key(live@, k),
{
    let mut i: usize = 0;
    while i < live.len()
        invariant
            i <= live.len(),
            forall|j: int| 0 <= j < i ==> (#[trigger] live@[j]).key() != k,
        decreases live.len() - i,
    {
        if live[i].address == k.address && live[i].prefix_len == k.prefix_len {
            return true;
        }
        i = i + 1;
    }
    false
}

fn has_generated(live: &Vec<IpAddrInfo>, k: IpAddrConf) -> (r: bool)
    ensures
        r == has_autoconfigured(live@, k),
{
    let mut i: usize = 0;
    while i < live.len()
        invariant
            i <= live.len(),
            forall|j: int|
                0 <= j < i ==> !((#[trigger] live@[j]).origin == AddrOrigin::Autoconfigured
                    && live@[j].key() == k),
        decreases live.len() - i,
    {
        let a = live[i];
        let generated = match a.origin {
            AddrOrigin::Manual => false,
            AddrOrigin::Autoconfigured => true,
        };
        if generated && a.address == k.address && a.prefix_len == k.prefix_len {
            return true;
        }
        i = i + 1;
    }
    false
}

fn stale_addresses(desired: &Vec<IpAddrConf>, live: &Vec<IpAddrInfo>) -> (r: Vec<IpAddrConf>)
    ensures
        r@ == to_remove(desired@, live@),
{
    let mut out: Vec<IpAddrConf> = Vec::new();
    let mut i: usize = 0;
    while i < live.len()
        invariant
            i <= live.len(),
            out@ == stale_keys(desired@, live@, live@.take(i as int)),
        decreases live.len() - i,
    {
        let a = live[i];
        let k = IpAddrConf { address: a.address, prefix_len: a.prefix_len };
        proof {
            let now = live@.take(i as int + 1);
            assert(now.drop_last() =~= live@.take(i as int));
            assert(now.last() == a);
        }
        let manual = match a.origin {
            AddrOrigin::Manual => true,
            AddrOrigin::Autoconfigured => false,
        };
        if manual && !has_conf(desired, k) && !has_generated(live, k) && !has_conf(&out, k) {
            out.push(k);
        }
        i = i + 1;
    }
    assert(live@.take(live.len() as int) =~= live@);
    out
}

fn missing_addresses(desired: &Vec<IpAddrConf>, live: &Vec<IpAddrInfo>) -> (r: Vec<IpAddrConf>)
    ensures
        r@ == to_add(desired@, live@),
{
    let mut out: Vec<IpAddrConf> = Vec::new();
    let mut i: usize = 0;
    while i < desired.len()
        invariant
            i <= desired.len(),
            out@ == to_add(desired@.take(i as int), live@),
        decreases desired.len() - i,
    {
        let d = desired[i];
        proof {
            let now = desired@.take(i as int + 1);
            assert(now.drop_last() =~= desired@.take(i as int));
            assert(now.last() == d);
        }
        if !has_address(live, d) && !has_conf(&out, d) {
            out.push(d);
        }
        i = i + 1;
    }
    assert(desired@.take(desired.len() as int) =~= desired@);
    out
}

impl IpConf {
    /// The requests that bring the addresses of one family of a live
    /// interface to the desired ones. Manual addresses that are not desired
    /// are removed, then desired addresses that are not live are added.
    /// Autoconfigured addresses are left alone: no request names the
    /// address and prefix length of one.
    pub fn apply(&self, cur_iface: &Iface, family: IpFamily) -> (r: Vec<Request>)
        ensures
            request_views(r@) == reconcile(self@, cur_iface@, family),
    {
        let live = match family {
            IpFamily::Ipv4 => &cur_iface.ipv4,
            IpFamily::Ipv6 => &cur_iface.ipv6,
        };
        let index = cur_iface.index;
        let removals = stale_addresses(&self.addresses, live);
        let additions = missing_addresses(&self.addresses, live);
        let mut out: Vec<Request> = Vec::new();
        let ghost dels = removals@.map_values(|k: IpAddrConf| del_request(index, family, k));
        let ghost adds = additions@.map_values(|k: IpAddrConf| add_request(index, family, k));
        let mut i: usize = 0;
        while i < removals.len()
            invariant
                i <= removals.len(),
                dels == removals@.map_values(|k: IpAddrConf| del_request(index, family, k)),
                request_views(out@) == dels.take(i as int),
            decreases removals.len() - i,
        {
            let k = removals[i];
            let ghost before = request_views(out@);
            out.push(
                Request::DelAddress { index, family, address: k.address, prefix_len: k.prefix_len },
            );
            assert(request_views(out@) =~= before.push(del_request(index, family, k)));
            assert(dels.take(i as int + 1) =~= dels.take(i as int).push(dels[i as int]));
            i = i + 1;
        }
        assert(dels.take(removals.len() as int) =~= dels);
        let mut j: usize = 0;
        while j < additions.len()
            invariant
                j <= additions.len(),
                adds == additions@.map_values(|k: IpAddrConf| add_request(index, family, k)),
                request_views(out@) == dels + adds.take(j as int),
            decreases additions.len() - j,
        {
            let k = additions[j];
            let ghost before = request_views(out@);
            out.push(
                Request::AddAddress { index, family, address: k.address, prefix_len: k.prefix_len },
            );
            assert(request_views(out@) =~= before.push(add_request(index, family, k)));
            assert(adds.take(j as int + 1) =~= adds.take(j as int).push(adds[j as int]));
            assert(dels + adds.take(j as int + 1) =~= (dels + adds.take(j as int)).push(
                adds[j as int],
            ));
            j = j + 1;
        }
        assert(adds.take(additions.len() as int) =~= adds);
        out
    }
}

} // verus!

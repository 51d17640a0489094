//! Routes of a snapshot.

use crate::ip::IpFamily;
use vstd::prelude::*;

verus! {

/// One route as the kernel reports it: where it leads and through which
/// interface.
#[derive(Clone, Copy, Debug, PartialEq, Eq, Structural)]
pub struct Route {
    pub family: IpFamily,
    pub dst: u128,
    pub prefix_len: u8,
    /// Index of the outgoing interface.
    pub oif: u32,
    pub table: u32,
}

} // verus!

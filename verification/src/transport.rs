//! What passes between the library and the channel to the kernel: the
//! requests that the library wants sent, and what came of them.

use crate::error::{ErrorView, NisporError};
use crate::ip::IpFamily;
use crate::net_state::{NetState, NetStateView};
use vstd::prelude::*;

verus! {

/// A request that changes the live state.
#[derive(Debug, PartialEq, Eq)]
pub enum Request {
    DeleteLink { index: u32 },
    CreateVeth { name: String, peer: String },
    SetMac { index: u32, mac: Vec<u8> },
    SetAdminState { index: u32, up: bool },
    DelAddress { index: u32, family: IpFamily, address: u128, prefix_len: u8 },
    AddAddress { index: u32, family: IpFamily, address: u128, prefix_len: u8 },
}

/// What a [`Request`] holds, as mathematical values.
pub enum RequestView {
    DeleteLink { index: u32 },
    CreateVeth { name: Seq<char>, peer: Seq<char> },
    SetMac { index: u32, mac: Seq<u8> },
    SetAdminState { index: u32, up: bool },
    DelAddress { index: u32, family: IpFamily, address: u128, prefix_len: u8 },
    AddAddress { index: u32, family: IpFamily, address: u128, prefix_len: u8 },
}

impl View for Request {
    type V = RequestView;

    open spec fn view(&self) -> RequestView {
        match *self {
            Request::DeleteLink { index } => RequestView::DeleteLink { index },
            Request::CreateVeth { name, peer } => RequestView::CreateVeth {
                name: name@,
                peer: peer@,
            },
            Request::SetMac { index, mac } => RequestView::SetMac { index, mac: mac@ },
            Request::SetAdminState { index, up } => RequestView::SetAdminState { index, up },
            Request::DelAddress { index, family, address, prefix_len } => RequestView::DelAddress {
                index,
                family,
                address,
                prefix_len,
            },
            Request::AddAddress { index, family, address, prefix_len } => RequestView::AddAddress {
                index,
                family,
                address,
                prefix_len,
            },
        }
    }
}

impl Clone for Request {
    fn clone(&self) -> (r: Self)
        ensures
            r@ == self@,
    {
        match self {
            Request::DeleteLink { index } => Request::DeleteLink { index: *index },
            Request::CreateVeth { name, peer } => Request::CreateVeth {
                name: name.clone(),
                peer: peer.clone(),
            },
            Request::SetMac { index, mac } => Request::SetMac { index: *index, mac: mac.clone() },
            Request::SetAdminState { index, up } => Request::SetAdminState {
                index: *index,
                up: *up,
            },
            Request::DelAddress { index, family, address, prefix_len } => Request::DelAddress {
                index: *index,
                family: *family,
                address: *address,
                prefix_len: *prefix_len,
            },
            Request::AddAddress { index, family, address, prefix_len } => Request::AddAddress {
                index: *index,
                family: *family,
                address: *address,
                prefix_len: *prefix_len,
            },
        }
    }
}

/// The views of the requests of a sequence.
pub open spec fn request_views(requests: Seq<Request>) -> Seq<RequestView> {
    requests.map_values(|r: Request| r@)
}

/// What the caller is to do next.
#[derive(Debug, PartialEq, Eq)]
pub enum Action {
    /// Read the live state and answer with `Event::Snapshot`.
    Retrieve,
    /// Send the request and answer with `Event::Done` or `Event::Failed`.
    Send(Request),
    /// Stop: this is the outcome.
    Finish(Result<bool, NisporError>),
}

/// What an [`Action`] holds, as mathematical values.
pub enum ActionView {
    Retrieve,
    Send(RequestView),
    Finish(Result<bool, ErrorView>),
}

impl View for Action {
    type V = ActionView;

    open spec fn view(&self) -> ActionView {
        match *self {
            Action::Retrieve => ActionView::Retrieve,
            Action::Send(r) => ActionView::Send(r@),
            Action::Finish(Ok(changed)) => ActionView::Finish(Ok(changed)),
            Action::Finish(Err(e)) => ActionView::Finish(Err(e@)),
        }
    }
}

/// Why the channel to the kernel could not do what was asked.
#[derive(Clone, Copy, Debug, PartialEq, Eq, Structural)]
pub enum FailureKind {
    /// The kernel could not be reached, or refused.
    Unreachable,
    /// An answer could not be decoded.
    Undecodable,
}

/// A failure of the channel, with its own account of the cause.
#[derive(Debug, PartialEq, Eq)]
pub struct TransportFailure {
    pub kind: FailureKind,
    pub cause: String,
}

/// What a [`TransportFailure`] holds, as mathematical values.
pub struct FailureView {
    pub kind: FailureKind,
    pub cause: Seq<char>,
}

impl View for TransportFailure {
    type V = FailureView;

    open spec fn view(&self) -> FailureView {
        FailureView { kind: self.kind, cause: self.cause@ }
    }
}

/// What came of the last action.
#[derive(Debug, PartialEq, Eq)]
pub enum Event {
    /// Nothing was asked yet.
    Start,
    /// The live state, in answer to `Action::Retrieve`.
    Snapshot(NetState),
    /// The request was carried out.
    Done,
    /// The action failed.
    Failed(TransportFailure),
}

/// What an [`Event`] holds, as mathematical values.
pub enum EventView {
    Start,
    Snapshot(NetStateView),
    Done,
    Failed(FailureView),
}

impl View for Event {
    type V = EventView;

    open spec fn view(&self) -> EventView {
        match *self {
            Event::Start => EventView::Start,
            Event::Snapshot(s) => EventView::Snapshot(s@),
            Event::Done => EventView::Done,
            Event::Failed(f) => EventView::Failed(f@),
        }
    }
}

} // verus!

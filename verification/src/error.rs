//! Errors of the library.

use crate::ifaces::iface::IfaceType;
use crate::text::{decimal, decimal_text};
use vstd::prelude::*;
use vstd::string::*;

verus! {

/// The kinds of error, for callers to branch on.
#[derive(Clone, Copy, Debug, PartialEq, Eq, Structural)]
pub enum ErrorKind {
    /// The caller can correct the configuration.
    InvalidArgument,
    /// The live system disagrees with what the library expects of it.
    Bug,
    /// The kernel could not be reached.
    TransportError,
    /// An answer of the kernel could not be decoded.
    ProtocolError,
}

/// What exactly went wrong.
#[derive(Clone, Copy, Debug, PartialEq, Eq, Structural)]
pub enum Fault {
    /// The interface does not exist and no type is given for it.
    TypeUndefined,
    /// The interface exists with another type than the desired one.
    TypeConflict { live: IfaceType, desired: IfaceType },
    /// A veth interface is to be created and no peer is given.
    PeerUndefined,
    /// The text is no MAC address.
    MalformedMac,
    /// An interface that only hardware can provide does not exist.
    NotFound,
    /// The kernel refused the MAC address.
    SetMacFailed { index: u32 },
    /// An interface is missing right after its creation.
    NotFoundAfterCreation,
    /// A live veth interface carries no peer.
    PeerMissing,
    /// More bytes of a MAC address were asked for than there are.
    MacTooShort,
    DeleteFailed { index: u32 },
    CreateFailed,
    SetStateFailed { index: u32, up: bool },
    DelAddressFailed { index: u32 },
    AddAddressFailed { index: u32 },
    /// An event arrived that does not answer the pending action.
    UnexpectedEvent,
    /// The live state could not be read.
    RetrieveFailed,
}

/// An error: its kind, what went wrong, the interface concerned (empty if
/// none) and the underlying cause or offending input (empty if none).
#[derive(Debug, PartialEq, Eq)]
pub struct NisporError {
    pub kind: ErrorKind,
    pub fault: Fault,
    pub iface: String,
    pub cause: String,
}

/// What a [`NisporError`] holds, as mathematical values.
pub struct ErrorView {
    pub kind: ErrorKind,
    pub fault: Fault,
    pub iface: Seq<char>,
    pub cause: Seq<char>,
}

impl View for NisporError {
    type V = ErrorView;

    open spec fn view(&self) -> ErrorView {
        ErrorView { kind: self.kind, fault: self.fault, iface: self.iface@, cause: self.cause@ }
    }
}

impl Clone for NisporError {
    fn clone(&self) -> (r: Self)
        ensures
            r@ == self@,
    {
        NisporError {
            kind: self.kind,
            fault: self.fault,
            iface: self.iface.clone(),
            cause: self.cause.clone(),
        }
    }
}

impl NisporError {
    /// The view of an error the caller can correct.
    pub open spec fn spec_invalid_argument(fault: Fault, iface: Seq<char>, cause: Seq<char>) -> ErrorView {
        ErrorView { kind: ErrorKind::InvalidArgument, fault, iface, cause }
    }

    /// The view of a violated expectation.
    pub open spec fn spec_bug(fault: Fault, iface: Seq<char>, cause: Seq<char>) -> ErrorView {
        ErrorView { kind: ErrorKind::Bug, fault, iface, cause }
    }

    pub fn invalid_argument(fault: Fault, iface: String, cause: String) -> (e: NisporError)
        ensures
            e@ == Self::spec_invalid_argument(fault, iface@, cause@),
    {
        NisporError { kind: ErrorKind::InvalidArgument, fault, iface, cause }
    }

    pub fn bug(fault: Fault, iface: String, cause: String) -> (e: NisporError)
        ensures
            e@ == Self::spec_bug(fault, iface@, cause@),
    {
        NisporError { kind: ErrorKind::Bug, fault, iface, cause }
    }
}

/// The text "`head` `iface` index `index`: `cause`".
pub open spec fn indexed_message(
    head: Seq<char>,
    iface: Seq<char>,
    index: u32,
    cause: Seq<char>,
) -> Seq<char> {
    head + iface + " index "@ + decimal(index as nat) + ": "@ + cause
}

/// An error in words.
pub open spec fn message(e: ErrorView) -> Seq<char> {
    match e.fault {
        Fault::TypeUndefined => "Interface "@ + e.iface
            + " does not exist and no interface type is defined"@,
        Fault::TypeConflict { live, desired } => "Interface "@ + e.iface + " exists with type "@
            + live.spec_name() + ", not with the desired type "@ + desired.spec_name(),
        Fault::PeerUndefined => "Veth interface "@ + e.iface
            + " does not exist and has no veth configuration"@,
        Fault::MalformedMac => "Invalid MAC address "@ + e.cause,
        Fault::NotFound => "Interface "@ + e.iface + " not found"@,
        Fault::SetMacFailed { index } => indexed_message(
            "Failed to set MAC address of interface "@,
            e.iface,
            index,
            e.cause,
        ),
        Fault::NotFoundAfterCreation => "Interface "@ + e.iface + " not found after creation"@,
        Fault::PeerMissing => "Veth interface "@ + e.iface + " has no peer"@,
        Fault::MacTooShort => "MAC address has fewer bytes than asked for"@,
        Fault::DeleteFailed { index } => indexed_message(
            "Failed to delete interface "@,
            e.iface,
            index,
            e.cause,
        ),
        Fault::CreateFailed => "Failed to create veth interface "@ + e.iface + ": "@ + e.cause,
        Fault::SetStateFailed { index, up } => indexed_message(
            if up {
                "Failed to bring up interface "@
            } else {
                "Failed to bring down interface "@
            },
            e.iface,
            index,
            e.cause,
        ),
        Fault::DelAddressFailed { index } => indexed_message(
            "Failed to remove an address from interface "@,
            e.iface,
            index,
            e.cause,
        ),
        Fault::AddAddressFailed { index } => indexed_message(
            "Failed to add an address to interface "@,
            e.iface,
            index,
            e.cause,
        ),
        Fault::UnexpectedEvent => "Unexpected event while reconciling interface "@ + e.iface,
        Fault::RetrieveFailed => "Failed to retrieve the network state: "@ + e.cause,
    }
}

fn indexed(head: &str, iface: &String, index: u32, cause: &String) -> (r: String)
    ensures
        r@ == indexed_message(head@, iface@, index, cause@),
{
    let mut s = String::from_str(head);
    s.append(iface.as_str());
    s.append(" index ");
    s.append(decimal_text(index).as_str());
    s.append(": ");
    s.append(cause.as_str());
    s
}

fn framed(head: &str, middle: &String, tail: &str) -> (r: String)
    ensures
        r@ == head@ + middle@ + tail@,
{
    let mut s = String::from_str(head);
    s.append(middle.as_str());
    s.append(tail);
    s
}

impl NisporError {
    /// The error in words.
    pub fn msg(&self) -> (r: String)
        ensures
            r@ == message(self@),
    {
        match self.fault {
            Fault::TypeUndefined => framed(
                "Interface ",
                &self.iface,
                " does not exist and no interface type is defined",
            ),
            Fault::TypeConflict { live, desired } => {
                let mut s = framed("Interface ", &self.iface, " exists with type ");
                s.append(live.name());
                s.append(", not with the desired type ");
                s.append(desired.name());
                s
            },
            Fault::PeerUndefined => framed(
                "Veth interface ",
                &self.iface,
                " does not exist and has no veth configuration",
            ),
            Fault::MalformedMac => {
                let mut s = String::from_str("Invalid MAC address ");
                s.append(self.cause.as_str());
                s
            },
            Fault::NotFound => framed("Interface ", &self.iface, " not found"),
            Fault::SetMacFailed { index } => indexed(
                "Failed to set MAC address of interface ",
                &self.iface,
                index,
                &self.cause,
            ),
            Fault::NotFoundAfterCreation => framed(
                "Interface ",
                &self.iface,
                " not found after creation",
            ),
            Fault::PeerMissing => framed("Veth interface ", &self.iface, " has no peer"),
            Fault::MacTooShort => String::from_str("MAC address has fewer bytes than asked for"),
            Fault::DeleteFailed { index } => indexed(
                "Failed to delete interface ",
                &self.iface,
                index,
                &self.cause,
            ),
            Fault::CreateFailed => {
                let mut s = framed("Failed to create veth interface ", &self.iface, ": ");
                s.append(self.cause.as_str());
                s
            },
            Fault::SetStateFailed { index, up } => indexed(
                if up {
                    "Failed to bring up interface "
                } else {
                    "Failed to bring down interface "
                },
                &self.iface,
                index,
                &self.cause,
            ),
            Fault::DelAddressFailed { index } => indexed(
                "Failed to remove an address from interface ",
                &self.iface,
                index,
                &self.cause,
            ),
            Fault::AddAddressFailed { index } => indexed(
                "Failed to add an address to interface ",
                &self.iface,
                index,
                &self.cause,
            ),
            Fault::UnexpectedEvent => {
                let mut s = String::from_str("Unexpected event while reconciling interface ");
                s.append(self.iface.as_str());
                s
            },
            Fault::RetrieveFailed => {
                let mut s = String::from_str("Failed to retrieve the network state: ");
                s.append(self.cause.as_str());
                s
            },
        }
    }
}

} // verus!

//! Declarative management of the network interfaces of one host.
//!
//! A desired configuration is compared with a snapshot of the live state and
//! turned into the requests that bring the host to it. The library decides;
//! the caller owns the channel to the kernel: it performs each [`Action`] and
//! hands back the [`Event`] that came of it. [`model`] says what each
//! request does where the kernel carries it out, and [`guarantees`] what a
//! reconciliation as a whole then achieves.

pub mod error;
pub mod guarantees;
pub mod ifaces;
pub mod ip;
pub mod mac;
pub mod model;
pub mod net_conf;
pub mod net_state;
pub mod route;
pub mod route_rule;
pub mod text;
pub mod transport;

pub use error::{ErrorKind, ErrorView, Fault, NisporError};
pub use ifaces::iface::{Iface, IfaceFlags, IfaceState, IfaceType, IfaceView};
pub use ifaces::iface_conf::{
    apply_iface_state, default_iface_state, get_iface, is_virtual_iface, IfaceApply,
    IfaceApplyView, IfaceConf, IfaceConfView, Stage,
};
pub use ifaces::veth::{veth_iface_tidy_up, VethConf, VethInfo};
pub use ip::{has_address, AddrOrigin, IpAddrConf, IpAddrInfo, IpConf, IpFamily, Lifetime};
pub use mac::{mac_address_str_to_u8, parse_as_mac, set_mac_address};
pub use net_conf::{NetApply, NetApplyView, NetConf};
pub use net_state::{get_ifaces, NetState, NetStateView};
pub use route::Route;
pub use route_rule::{get_routes, RouteRule};
pub use text::decimal_text;
pub use transport::{
    Action, ActionView, Event, EventView, FailureKind, FailureView, Request, RequestView,
    TransportFailure,
};

//! Service-Oriented Object Discovery (SOOD), the UDP discovery protocol that Roon
//! uses to find its Core and audio endpoints on the local network.
//!
//! The library holds the protocol's wire format (parsing and serializing
//! messages), the handling of IPv4 interfaces and addresses, and the decisions of a
//! discovery client: which query a response answers, which devices are new, which
//! interfaces to set up or drop.
//!
//! - Multicast address: 239.255.90.90
//! - Port: 9003
//! - Protocol version: 2

pub mod address;
pub mod discovery;
pub mod network;
pub mod properties;
pub mod protocol;
pub mod registry;
pub mod service_ids;
pub mod text;
pub mod transaction;

pub use address::{Ipv4Address, SocketAddress};
pub use discovery::{Delivery, DeviceHistory, PreparedQuery, QueryError, Sood, SoodBuilder};
pub use properties::Properties;
pub use protocol::{parse_message, serialize_query, serialize_response, Message, MessageType};
pub use registry::DiscoveredDevice;

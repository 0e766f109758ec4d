//! A recursive DNS resolver core: the packet buffer, the wire codec of DNS
//! messages, and the decisions of iterative resolution.

pub mod buffer;
pub mod errors;
pub mod header;
pub mod name;
pub mod packet;
pub mod question;
pub mod record;
pub mod resolver;
pub mod roundtrip;
pub mod text;

pub use buffer::{BufferError, BytePacketBuffer};
pub use errors::DnsResolverError;
pub use header::{DnsHeader, ResultCode};
pub use packet::DnsPacket;
pub use question::{DnsQuestion, QueryType};
pub use record::{DnsRecord, Ipv4Addr};
pub use resolver::{Event, Resolution, Step};

//! DNS wire protocol: a byte-exact codec for messages and the framing rules of
//! the stream and datagram transports that carry them.

pub mod wire;
pub mod name;
pub mod text;
pub mod compression;
pub mod header;
pub mod question;
pub mod record;
pub mod message;
pub mod pointers;
pub mod plain;
pub mod roundtrip;
pub mod transport;
pub mod key_management;
pub mod edns0;
pub mod tsig;
pub mod zone_transfer;
pub mod zone_parser;

pub use compression::{compress_name, decompress_name, write_qname, Reader, Writer};
pub use header::Header;
pub use message::Message;
pub use question::Question;
pub use record::{RData, Record, RecordError};
pub use wire::WireError;

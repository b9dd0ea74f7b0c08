//! The DNS wire format: packet buffer, header, question, records, message.
use vstd::prelude::*;

pub mod address;
pub mod byte_packet_buffer;
pub mod error;
pub mod header;
pub mod message;
pub mod query_type;
pub mod question;
pub mod record;
pub mod result_code;

pub use byte_packet_buffer::BytePacketBuffer;
pub use error::{Error, Result};
pub use header::Header;
pub use message::Message;
pub use query_type::QueryType;
pub use question::Question;
pub use record::{RData, Record, SrvRecord};
pub use result_code::ResultCode;

verus! {

} // verus!

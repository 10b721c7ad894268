//! A codec for DNS messages (RFC 1035, with the RFC 2535 / RFC 6840 flag
//! bits): wire bytes to a structured message and back.

pub mod builder;
pub mod error;
pub mod header;
pub mod message;
pub mod name;
pub mod question;
pub mod resource_record;
pub mod rewrite;
pub mod round_trip;
mod text;
pub mod wire;

pub use builder::{MessageBuilder, QuestionBuilder, ResourceRecordBuilder};
pub use error::MessageError;
pub use header::{Header, OpCode, RCode};
pub use message::{Message, MessageView};
pub use question::{Class, Question, QuestionView, Type};
pub use resource_record::{Ipv4Addr, Ipv6Addr, RData, RDataView, RecordView, ResourceRecord};
pub use rewrite::modify_response;

//! File transfer over an ordered byte stream: a binary codec for protocol
//! data units, length-prefixed framing, and the sender and receiver state
//! machines that chunk, checksum, sequence and reassemble a file.

pub mod bytes;
pub mod checksum;
pub mod frame;
pub mod pdu;
pub mod transfer;

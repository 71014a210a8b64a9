//! Codec for the SMS Protocol Data Unit (PDU) wire format: an ASCII-hex
//! encoded byte stream is decoded into a structured delivered message, and an
//! outgoing submission is encoded into the same wire representation.

pub mod address;
pub mod alphabet;
pub mod display;
pub mod errors;
pub mod header;
pub mod hex;
pub mod message;
pub mod text;
pub mod timestamp;

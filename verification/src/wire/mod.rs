//! Byte-level wire formats shared by guest producers and the host consumer.
//!
//! All on-wire integers are little-endian and every structure has a fixed
//! layout; every decoder here is total: arbitrary bytes give an `Err`, never
//! a panic.
use crate::text::{chars_of, push_dec, push_str, spec_dec, string_from_chars};
use vstd::prelude::*;

pub mod bytes;
pub mod events;
pub mod fifo;
pub mod header;
pub mod manifest;
pub mod ports;
pub mod record;
pub mod regionipc;
pub mod ring;

verus! {

/// Errors returned by wire decoders.
#[derive(Debug, Clone, Copy, PartialEq, Eq, Structural)]
pub enum DecodeError {
    /// Input shorter than the structure's fixed prefix.
    Truncated,
    /// `len` field violates framing rules (alignment, bounds, or payload fit).
    BadLen,
    /// Unknown record kind for the ring's namespace.
    UnknownKind(u8),
    /// A payload field violates its documented range.
    BadField,
    /// Structure magic mismatch.
    BadMagic,
    /// Structure version mismatch.
    BadVersion,
}

/// `format!("{:?}", e)` of a decode error.
pub open spec fn spec_decode_error_debug(e: DecodeError) -> Seq<char> {
    match e {
        DecodeError::Truncated => "Truncated"@,
        DecodeError::BadLen => "BadLen"@,
        DecodeError::UnknownKind(k) => "UnknownKind("@ + spec_dec(k as nat) + ")"@,
        DecodeError::BadField => "BadField"@,
        DecodeError::BadMagic => "BadMagic"@,
        DecodeError::BadVersion => "BadVersion"@,
    }
}

impl DecodeError {
    /// The error as `{:?}` renders it.
    pub fn debug_text(&self) -> (r: String)
        ensures
            r@ == spec_decode_error_debug(*self),
    {
        let m = match self {
            DecodeError::Truncated => chars_of("Truncated"),
            DecodeError::BadLen => chars_of("BadLen"),
            DecodeError::UnknownKind(k) => {
                let mut m = chars_of("UnknownKind(");
                push_dec(&mut m, *k as u128);
                push_str(&mut m, ")");
                m
            },
            DecodeError::BadField => chars_of("BadField"),
            DecodeError::BadMagic => chars_of("BadMagic"),
            DecodeError::BadVersion => chars_of("BadVersion"),
        };
        string_from_chars(m.as_slice())
    }
}

/// Errors returned by wire encoders.
#[derive(Debug, Clone, Copy, PartialEq, Eq, Structural)]
pub enum EncodeError {
    /// Destination buffer too small for the encoded record.
    BufferTooSmall,
    /// A field exceeds its documented limit (e.g. name > 256 bytes).
    FieldTooLong,
    /// A seqlock writer section was opened twice or closed without opening.
    SeqlockMisuse,
}

} // verus!

pub use events::{Command, EventPayload, WorkloadCtrl};
pub use header::{ChannelHeader, RingDesc, RingId, CHANNEL_MAGIC, CHANNEL_SIZE, PROTO_VERSION};
pub use ports::FaultDecision;
pub use record::{EventKind, RecordHeader, MAX_RECORD_LEN, MIN_RECORD_LEN, RECORD_HEADER_LEN};

//! The SDK's checks when it attaches to the inherited channel: the
//! channel fd named in the environment, and the mapped channel header.
use crate::sdk::{InitError, Sdk};
use crate::text::{chars_of, i64_from_str_radix, push_str, spec_from_str_radix, string_from_chars, utf8_string, utf8_text};
use crate::wire::header::{
    spec_parse_channel_header, spec_validate_header, ChannelHeader, CHANNEL_MAGIC, OFF_RESERVED,
    PROTO_VERSION,
};
use crate::wire::{spec_decode_error_debug, DecodeError};
use vstd::prelude::*;

verus! {

/// Why the channel fd variable does not name an fd.
#[derive(Debug, Clone, Copy, PartialEq, Eq, Structural)]
pub enum ChannelFdError {
    /// The value is not UTF-8.
    NotUtf8,
    /// The value is not a decimal `i32`.
    NotInteger,
}

/// What `raw.parse::<i32>()` accepts and gives: `i64`'s reading, within
/// `i32`'s range.
pub open spec fn spec_parse_fd(text: Seq<char>) -> Option<i32> {
    match spec_from_str_radix(text, 10) {
        Some(v) => if i32::MIN <= v <= i32::MAX {
            Some(v as i32)
        } else {
            None
        },
        None => None,
    }
}

/// Read the channel fd from the environment variable's raw bytes.
pub fn parse_channel_fd(raw: &[u8]) -> (r: Result<i32, ChannelFdError>)
    ensures
        match utf8_text(raw@) {
            Err(_) => r == Err::<i32, ChannelFdError>(ChannelFdError::NotUtf8),
            Ok(t) => match spec_parse_fd(t) {
                Some(fd) => r == Ok::<i32, ChannelFdError>(fd),
                None => r == Err::<i32, ChannelFdError>(ChannelFdError::NotInteger),
            },
        },
{
    let text = match utf8_string(raw) {
        Ok(t) => t,
        Err(_) => {
            return Err(ChannelFdError::NotUtf8);
        },
    };
    match i64_from_str_radix(text.as_str(), 10) {
        Ok(v) => if i32::MIN as i64 <= v && v <= i32::MAX as i64 {
            Ok(v as i32)
        } else {
            Err(ChannelFdError::NotInteger)
        },
        Err(_) => Err(ChannelFdError::NotInteger),
    }
}

/// The channel fd variable's failure as an I/O error: `InvalidData`
/// ("channel fd is not UTF-8") or `InvalidInput` ("channel fd is not an
/// integer").
pub fn channel_fd_io_error(e: ChannelFdError) -> (r: std::io::Error)
    ensures
        r == match e {
            ChannelFdError::NotUtf8 => io_error_new(IoKind::InvalidData, "channel fd is not UTF-8"@),
            ChannelFdError::NotInteger => io_error_new(
                IoKind::InvalidInput,
                "channel fd is not an integer"@,
            ),
        },
{
    match e {
        ChannelFdError::NotUtf8 => io_error(
            IoKind::InvalidData,
            string_from_chars(chars_of("channel fd is not UTF-8").as_slice()),
        ),
        ChannelFdError::NotInteger => io_error(
            IoKind::InvalidInput,
            string_from_chars(chars_of("channel fd is not an integer").as_slice()),
        ),
    }
}

/// Initialization from the channel fd variable's raw value: without one
/// the workload runs standalone (`NoChannel`); a value that names no fd is
/// an `AgentSocket` error, and so, in this version, is a valid one: the
/// channel mapping is not implemented, so initialization never succeeds.
pub fn init_from_channel_fd(raw: Option<&[u8]>) -> (r: Result<&'static Sdk, InitError>)
    ensures
        raw is None ==> r matches Err(InitError::NoChannel),
        raw matches Some(b) ==> r == Err::<&'static Sdk, InitError>(
            InitError::AgentSocket(
                match utf8_text(b@) {
                    Err(_) => io_error_new(IoKind::InvalidData, "channel fd is not UTF-8"@),
                    Ok(t) => if spec_parse_fd(t) is None {
                        io_error_new(IoKind::InvalidInput, "channel fd is not an integer"@)
                    } else {
                        io_error_new(
                            IoKind::Unsupported,
                            "detguest-sdk channel mapping is not implemented in this scaffold"@,
                        )
                    },
                },
            ),
        ),
{
    let raw = match raw {
        None => {
            return Err(InitError::NoChannel);
        },
        Some(r) => r,
    };
    match parse_channel_fd(raw) {
        Err(e) => Err(InitError::AgentSocket(channel_fd_io_error(e))),
        Ok(_fd) => Err(
            InitError::AgentSocket(
                io_error(
                    IoKind::Unsupported,
                    string_from_chars(
                        chars_of(
                            "detguest-sdk channel mapping is not implemented in this scaffold",
                        ).as_slice(),
                    ),
                ),
            ),
        ),
    }
}

/// `format!("invalid detguest channel header: {err:?}")`.
pub open spec fn spec_header_error_text(err: DecodeError) -> Seq<char> {
    "invalid detguest channel header: "@ + spec_decode_error_debug(err)
}

/// The message a header decode failure is reported with.
pub fn header_error_text(err: DecodeError) -> (r: String)
    ensures
        r@ == spec_header_error_text(err),
{
    let mut m = chars_of("invalid detguest channel header: ");
    let d = err.debug_text();
    push_str(&mut m, d.as_str());
    string_from_chars(m.as_slice())
}

/// The `std::io::ErrorKind`s the attach path reports.
#[derive(Debug, Clone, Copy, PartialEq, Eq, Structural)]
pub enum IoKind {
    InvalidData,
    InvalidInput,
    Unsupported,
}

/// The error `std::io::Error::new` makes of a kind and a message: a value
/// that carries that kind and that message, and nothing else.
pub uninterp spec fn io_error_new(kind: IoKind, msg: Seq<char>) -> std::io::Error;

/// `std::io::Error::new(kind, msg)`, the kind converted one for one. The
/// contract claims only that the error is a function of the kind and the
/// message (`io_error_new`); what its `kind()` and `Display` give is not
/// stated.
#[verifier::external_body]
fn io_error(kind: IoKind, msg: String) -> (r: std::io::Error)
    ensures
        r == io_error_new(kind, msg@),
{
    let k = match kind {
        IoKind::InvalidData => std::io::ErrorKind::InvalidData,
        IoKind::InvalidInput => std::io::ErrorKind::InvalidInput,
        IoKind::Unsupported => std::io::ErrorKind::Unsupported,
    };
    std::io::Error::new(k, msg)
}

/// A header decode failure as an initialization error: an I/O error of
/// kind `InvalidData` carrying `header_error_text(err)`.
pub fn map_decode_error(err: DecodeError) -> (r: InitError)
    ensures
        r == InitError::AgentSocket(io_error_new(IoKind::InvalidData, spec_header_error_text(err))),
{
    InitError::AgentSocket(io_error(IoKind::InvalidData, header_error_text(err)))
}

/// Decode and check the mapped channel header: the magic first, then the
/// protocol version, then the ring layout.
pub fn read_and_validate_header(bytes: &[u8]) -> (r: Result<ChannelHeader, InitError>)
    ensures
        bytes@.len() < OFF_RESERVED ==> r == Err::<ChannelHeader, InitError>(
            InitError::AgentSocket(
                io_error_new(IoKind::InvalidData, spec_header_error_text(DecodeError::Truncated)),
            ),
        ),
        bytes@.len() >= OFF_RESERVED ==> {
            let h = spec_parse_channel_header(bytes@);
            if h.magic != CHANNEL_MAGIC {
                r matches Err(InitError::BadChannelHeader { found_magic }) && found_magic == h.magic
            } else if h.proto_version != PROTO_VERSION {
                r matches Err(InitError::ProtocolVersionMismatch { guest, channel }) && guest
                    == PROTO_VERSION && channel == h.proto_version
            } else {
                match spec_validate_header(h) {
                    Ok(()) => r == Ok::<ChannelHeader, InitError>(h),
                    Err(e) => r == Err::<ChannelHeader, InitError>(
                        InitError::AgentSocket(
                            io_error_new(IoKind::InvalidData, spec_header_error_text(e)),
                        ),
                    ),
                }
            }
        },
{
    let header = match ChannelHeader::read_from(bytes) {
        Ok(h) => h,
        Err(e) => {
            return Err(map_decode_error(e));
        },
    };
    if header.magic != CHANNEL_MAGIC {
        return Err(InitError::BadChannelHeader { found_magic: header.magic });
    }
    if header.proto_version != PROTO_VERSION {
        return Err(
            InitError::ProtocolVersionMismatch { guest: PROTO_VERSION, channel: header.proto_version },
        );
    }
    match header.validate() {
        Ok(()) => Ok(header),
        Err(e) => Err(map_decode_error(e)),
    }
}

} // verus!

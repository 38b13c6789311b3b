//! SDK↔agent region-registration messages.
//!
//! One datagram is one message with a fixed little-endian layout: an 8-byte
//! header (`magic: u32`, `version: u16`, `kind: u16`) and a kind-specific
//! body. Decoders reject trailing bytes and never panic. The caller's pid
//! is bound by the transport and never travels in a message; `name_id` is
//! allocated by the caller and echoed in the reply.
use super::bytes::{b16, b32, b64, le16, le32, le64, lemma_le_round_trips, get_u16, get_u32, get_u64, push_slice, push_u16, push_u32, push_u64, splice, write_at};
use super::{DecodeError, EncodeError};
use vstd::prelude::*;

verus! {

/// Canonical agent socket path, shared so both sides agree by construction.
pub const AGENT_SOCK_PATH: &'static str = "/run/detguest/agent.sock";
/// Message magic `"DGRR"` as a little-endian u32.
pub const REGIONIPC_MAGIC: u32 = 0x5252_4744;
/// Protocol version.
pub const REGIONIPC_VERSION: u16 = 1;
/// Upper bound on any datagram (the largest is a register request with a
/// full-length name: 94 bytes).
pub const REGIONIPC_MAX_DATAGRAM: usize = 128;
/// Message kind: register a region.
pub const KIND_REGISTER: u16 = 1;
/// Message kind: unregister a region.
pub const KIND_UNREGISTER: u16 = 2;
/// Message kind: reply.
pub const KIND_REPLY: u16 = 3;
/// Reply status: success.
pub const STATUS_OK: u16 = 0;
/// Reply status: no free region slot in the manifest.
pub const STATUS_MANIFEST_FULL: u16 = 1;
/// Reply status: region would exceed the manifest extent pool.
pub const STATUS_TOO_MANY_EXTENTS: u16 = 2;
/// Reply status: the bytes are not present and pinned.
pub const STATUS_NOT_PINNED: u16 = 3;
/// Reply status: region name exceeds the manifest field.
pub const STATUS_NAME_TOO_LONG: u16 = 4;
/// Reply status: malformed request datagram.
pub const STATUS_BAD_REQUEST: u16 = 5;
/// Reply status: peer pid is not the supervised workload.
pub const STATUS_UNKNOWN_PID: u16 = 6;
/// Reply status: unregister of an unknown or already-dead region id.
pub const STATUS_UNKNOWN_REGION: u16 = 7;
/// Reply status: agent-side I/O failure.
pub const STATUS_INTERNAL: u16 = 8;
/// `RegionEntry.flags` DEAD bit; must be clear in a register request.
pub const FLAG_DEAD: u32 = 0x8000_0000;
/// Header length.
pub const HEADER_LEN: usize = 8;
/// Register body: flags.
pub const REG_OFF_FLAGS: usize = 8;
/// Register body: layout version.
pub const REG_OFF_LAYOUT: usize = 12;
/// Register body: name id.
pub const REG_OFF_NAME_ID: usize = 16;
/// Register body: gva.
pub const REG_OFF_GVA: usize = 20;
/// Register body: length.
pub const REG_OFF_LEN: usize = 28;
/// Register body: name length.
pub const REG_OFF_NAME_LEN: usize = 36;
/// Register body: name bytes.
pub const REG_OFF_NAME: usize = 38;
/// Unregister body: region id.
pub const UNREG_OFF_REGION_ID: usize = 8;
/// Unregister datagram length.
pub const UNREG_LEN: usize = 12;
/// Reply datagram length.
pub const REPLY_LEN: usize = 28;
/// Maximum region name bytes accepted on the wire.
pub const MAX_NAME_LEN: usize = 56;

/// One SDK→agent request datagram.
#[derive(Debug, Clone, Copy, PartialEq, Eq)]
pub enum Request<'a> {
    /// Publish `[gva, gva+len)` under `name` at `layout_version`.
    Register {
        /// `RegionFlags` bits; the DEAD bit must be clear.
        flags: u32,
        /// Workload-declared layout version.
        layout_version: u32,
        /// Caller-interned name id; never 0.
        name_id: u32,
        /// Region base in the caller's address space.
        gva: u64,
        /// Region length in bytes; never 0.
        len: u64,
        /// UTF-8 name bytes, 1..=56 bytes.
        name: &'a [u8],
    },
    /// Unregister a previously registered region.
    Unregister {
        /// Manifest region slot id from the register reply.
        region_id: u32,
    },
}

/// The mathematical content of a request.
pub enum RequestModel {
    /// See `Request::Register`.
    Register { flags: u32, layout_version: u32, name_id: u32, gva: u64, len: u64, name: Seq<u8> },
    /// See `Request::Unregister`.
    Unregister { region_id: u32 },
}

impl<'a> View for Request<'a> {
    type V = RequestModel;

    open spec fn view(&self) -> RequestModel {
        match *self {
            Request::Register { flags, layout_version, name_id, gva, len, name } =>
                RequestModel::Register { flags, layout_version, name_id, gva, len, name: name@ },
            Request::Unregister { region_id } => RequestModel::Unregister { region_id },
        }
    }
}

/// The agent→SDK reply datagram.
#[derive(Debug, Clone, Copy, PartialEq, Eq, Structural)]
pub struct Reply {
    /// One of the `STATUS_*` codes.
    pub status: u16,
    /// Manifest region slot id; valid iff `status == STATUS_OK`.
    pub region_id: u32,
    /// Echo of the request's name id; valid iff OK.
    pub name_id: u32,
    /// Post-write (even) manifest generation; valid iff OK.
    pub manifest_generation: u64,
}

/// The 8 header bytes of a message of `kind`.
pub open spec fn spec_msg_header(kind: u16) -> Seq<u8> {
    b32(REGIONIPC_MAGIC) + b16(REGIONIPC_VERSION) + b16(kind)
}

/// The datagram bytes of a request.
pub open spec fn spec_request_bytes(r: RequestModel) -> Seq<u8> {
    match r {
        RequestModel::Register { flags, layout_version, name_id, gva, len, name } =>
            spec_msg_header(KIND_REGISTER) + b32(flags) + b32(layout_version) + b32(name_id) + b64(
                gva,
            ) + b64(len) + b16(name.len() as u16) + name,
        RequestModel::Unregister { region_id } => spec_msg_header(KIND_UNREGISTER) + b32(
            region_id,
        ),
    }
}

/// The outcome `encode_request` reports for a destination of `out_len`
/// bytes.
pub open spec fn spec_encode_request_result(r: RequestModel, out_len: int) -> Result<
    usize,
    EncodeError,
> {
    match r {
        RequestModel::Register { name, .. } => if name.len() == 0 || name.len() > MAX_NAME_LEN {
            Err(EncodeError::FieldTooLong)
        } else if out_len < REG_OFF_NAME + name.len() {
            Err(EncodeError::BufferTooSmall)
        } else {
            Ok((REG_OFF_NAME + name.len()) as usize)
        },
        RequestModel::Unregister { .. } => if out_len < UNREG_LEN {
            Err(EncodeError::BufferTooSmall)
        } else {
            Ok(UNREG_LEN)
        },
    }
}

proof fn lemma_header_len(kind: u16)
    ensures
        spec_msg_header(kind).len() == HEADER_LEN,
{
    lemma_le_round_trips();
}

fn push_header(v: &mut Vec<u8>, kind: u16)
    ensures
        final(v)@ == old(v)@ + spec_msg_header(kind),
{
    push_u32(v, REGIONIPC_MAGIC);
    push_u16(v, REGIONIPC_VERSION);
    push_u16(v, kind);
    assert(final(v)@ =~= old(v)@ + spec_msg_header(kind));
}

/// Encode a request into `out`; returns the datagram length.
pub fn encode_request(req: &Request<'_>, out: &mut [u8]) -> (r: Result<usize, EncodeError>)
    ensures
        r == spec_encode_request_result(req@, old(out)@.len() as int),
        r is Err ==> final(out)@ == old(out)@,
        r is Ok ==> final(out)@ == splice(old(out)@, 0, spec_request_bytes(req@)),
{
    let mut v: Vec<u8> = Vec::new();
    match *req {
        Request::Register { flags, layout_version, name_id, gva, len, name } => {
            if name.len() == 0 || name.len() > MAX_NAME_LEN {
                return Err(EncodeError::FieldTooLong);
            }
            let total = REG_OFF_NAME + name.len();
            if out.len() < total {
                return Err(EncodeError::BufferTooSmall);
            }
            push_header(&mut v, KIND_REGISTER);
            push_u32(&mut v, flags);
            push_u32(&mut v, layout_version);
            push_u32(&mut v, name_id);
            push_u64(&mut v, gva);
            push_u64(&mut v, len);
            push_u16(&mut v, name.len() as u16);
            push_slice(&mut v, name);
            proof {
                lemma_le_round_trips();
                lemma_header_len(KIND_REGISTER);
                assert(v@ =~= spec_request_bytes(req@));
            }
            write_at(out, 0, v.as_slice());
            Ok(total)
        },
        Request::Unregister { region_id } => {
            if out.len() < UNREG_LEN {
                return Err(EncodeError::BufferTooSmall);
            }
            push_header(&mut v, KIND_UNREGISTER);
            push_u32(&mut v, region_id);
            proof {
                lemma_le_round_trips();
                lemma_header_len(KIND_UNREGISTER);
                assert(v@ =~= spec_request_bytes(req@));
            }
            write_at(out, 0, v.as_slice());
            Ok(UNREG_LEN)
        },
    }
}

/// Header check: the kind of a message with valid magic and version.
pub open spec fn spec_check_header(s: Seq<u8>) -> Result<u16, DecodeError> {
    if s.len() < HEADER_LEN {
        Err(DecodeError::Truncated)
    } else if le32(s, 0) != REGIONIPC_MAGIC {
        Err(DecodeError::BadMagic)
    } else if le16(s, 4) != REGIONIPC_VERSION {
        Err(DecodeError::BadVersion)
    } else {
        Ok(le16(s, 6))
    }
}

fn check_header(bytes: &[u8]) -> (r: Result<u16, DecodeError>)
    ensures
        r == spec_check_header(bytes@),
{
    if bytes.len() < HEADER_LEN {
        return Err(DecodeError::Truncated);
    }
    if get_u32(bytes, 0) != REGIONIPC_MAGIC {
        return Err(DecodeError::BadMagic);
    }
    if get_u16(bytes, 4) != REGIONIPC_VERSION {
        return Err(DecodeError::BadVersion);
    }
    Ok(get_u16(bytes, 6))
}

/// What `decode_request` gives for the datagram `s`.
pub open spec fn spec_decode_request(s: Seq<u8>) -> Result<RequestModel, DecodeError> {
    match spec_check_header(s) {
        Err(e) => Err(e),
        Ok(kind) => if kind == KIND_REGISTER {
            if s.len() < REG_OFF_NAME {
                Err(DecodeError::Truncated)
            } else {
                let flags = le32(s, 8);
                let name_id = le32(s, 16);
                let len = le64(s, 28);
                let n = le16(s, 36) as int;
                if n == 0 || n > MAX_NAME_LEN {
                    Err(DecodeError::BadField)
                } else if s.len() < REG_OFF_NAME + n {
                    Err(DecodeError::Truncated)
                } else if s.len() != REG_OFF_NAME + n {
                    Err(DecodeError::BadLen)
                } else if flags & FLAG_DEAD != 0 || name_id == 0 || len == 0 {
                    Err(DecodeError::BadField)
                } else {
                    Ok(
                        RequestModel::Register {
                            flags,
                            layout_version: le32(s, 12),
                            name_id,
                            gva: le64(s, 20),
                            len,
                            name: s.subrange(REG_OFF_NAME as int, REG_OFF_NAME + n),
                        },
                    )
                }
            }
        } else if kind == KIND_UNREGISTER {
            if s.len() < UNREG_LEN {
                Err(DecodeError::Truncated)
            } else if s.len() != UNREG_LEN {
                Err(DecodeError::BadLen)
            } else {
                Ok(RequestModel::Unregister { region_id: le32(s, 8) })
            }
        } else {
            Err(DecodeError::BadField)
        },
    }
}

/// Decode one request datagram. Trailing bytes are rejected; an unknown
/// kind (a stray reply included) is `BadField`.
pub fn decode_request(bytes: &[u8]) -> (r: Result<Request<'_>, DecodeError>)
    ensures
        match r {
            Ok(req) => spec_decode_request(bytes@) == Ok::<RequestModel, DecodeError>(req@),
            Err(e) => spec_decode_request(bytes@) == Err::<RequestModel, DecodeError>(e),
        },
{
    let kind = match check_header(bytes) {
        Ok(k) => k,
        Err(e) => return Err(e),
    };
    if kind == KIND_REGISTER {
        if bytes.len() < REG_OFF_NAME {
            return Err(DecodeError::Truncated);
        }
        let flags = get_u32(bytes, REG_OFF_FLAGS);
        let layout_version = get_u32(bytes, REG_OFF_LAYOUT);
        let name_id = get_u32(bytes, REG_OFF_NAME_ID);
        let gva = get_u64(bytes, REG_OFF_GVA);
        let len = get_u64(bytes, REG_OFF_LEN);
        let name_len = get_u16(bytes, REG_OFF_NAME_LEN) as usize;
        if name_len == 0 || name_len > MAX_NAME_LEN {
            return Err(DecodeError::BadField);
        }
        if bytes.len() < REG_OFF_NAME + name_len {
            return Err(DecodeError::Truncated);
        }
        if bytes.len() != REG_OFF_NAME + name_len {
            return Err(DecodeError::BadLen);
        }
        if flags & FLAG_DEAD != 0 || name_id == 0 || len == 0 {
            return Err(DecodeError::BadField);
        }
        Ok(
            Request::Register {
                flags,
                layout_version,
                name_id,
                gva,
                len,
                name: &bytes[REG_OFF_NAME..REG_OFF_NAME + name_len],
            },
        )
    } else if kind == KIND_UNREGISTER {
        if bytes.len() < UNREG_LEN {
            return Err(DecodeError::Truncated);
        }
        if bytes.len() != UNREG_LEN {
            return Err(DecodeError::BadLen);
        }
        Ok(Request::Unregister { region_id: get_u32(bytes, UNREG_OFF_REGION_ID) })
    } else {
        Err(DecodeError::BadField)
    }
}

/// The datagram bytes of a reply (the reserved field is zero).
pub open spec fn spec_reply_bytes(r: Reply) -> Seq<u8> {
    spec_msg_header(KIND_REPLY) + b16(r.status) + b16(0) + b32(r.region_id) + b32(r.name_id) + b64(
        r.manifest_generation,
    )
}

/// Encode a reply into `out`; returns the datagram length.
pub fn encode_reply(reply: &Reply, out: &mut [u8]) -> (r: Result<usize, EncodeError>)
    ensures
        old(out)@.len() < REPLY_LEN ==> r == Err::<usize, EncodeError>(EncodeError::BufferTooSmall)
            && final(out)@ == old(out)@,
        old(out)@.len() >= REPLY_LEN ==> r == Ok::<usize, EncodeError>(REPLY_LEN) && final(out)@
            == splice(old(out)@, 0, spec_reply_bytes(*reply)),
{
    if out.len() < REPLY_LEN {
        return Err(EncodeError::BufferTooSmall);
    }
    let mut v: Vec<u8> = Vec::new();
    push_header(&mut v, KIND_REPLY);
    push_u16(&mut v, reply.status);
    push_u16(&mut v, 0);
    push_u32(&mut v, reply.region_id);
    push_u32(&mut v, reply.name_id);
    push_u64(&mut v, reply.manifest_generation);
    proof {
        lemma_le_round_trips();
        lemma_header_len(KIND_REPLY);
        assert(v@ =~= spec_reply_bytes(*reply));
    }
    write_at(out, 0, v.as_slice());
    Ok(REPLY_LEN)
}

/// What `decode_reply` gives for the datagram `s`.
pub open spec fn spec_decode_reply(s: Seq<u8>) -> Result<Reply, DecodeError> {
    match spec_check_header(s) {
        Err(e) => Err(e),
        Ok(kind) => if kind != KIND_REPLY {
            Err(DecodeError::BadField)
        } else if s.len() < REPLY_LEN {
            Err(DecodeError::Truncated)
        } else if s.len() != REPLY_LEN {
            Err(DecodeError::BadLen)
        } else {
            Ok(
                Reply {
                    status: le16(s, 8),
                    region_id: le32(s, 12),
                    name_id: le32(s, 16),
                    manifest_generation: le64(s, 20),
                },
            )
        },
    }
}

/// Decode one reply datagram (exact length; trailing bytes rejected).
pub fn decode_reply(bytes: &[u8]) -> (r: Result<Reply, DecodeError>)
    ensures
        r == spec_decode_reply(bytes@),
{
    let kind = match check_header(bytes) {
        Ok(k) => k,
        Err(e) => return Err(e),
    };
    if kind != KIND_REPLY {
        return Err(DecodeError::BadField);
    }
    if bytes.len() < REPLY_LEN {
        return Err(DecodeError::Truncated);
    }
    if bytes.len() != REPLY_LEN {
        return Err(DecodeError::BadLen);
    }
    Ok(
        Reply {
            status: get_u16(bytes, 8),
            region_id: get_u32(bytes, 12),
            name_id: get_u32(bytes, 16),
            manifest_generation: get_u64(bytes, 20),
        },
    )
}

/// A request the decoder accepts: a register request needs a 1..=56-byte
/// name, a clear DEAD bit, a nonzero name id and a nonzero length.
pub open spec fn spec_request_well_formed(r: RequestModel) -> bool {
    match r {
        RequestModel::Register { flags, name_id, len, name, .. } => 1 <= name.len()
            <= MAX_NAME_LEN && flags & FLAG_DEAD == 0 && name_id != 0 && len != 0,
        RequestModel::Unregister { .. } => true,
    }
}

/// Round trip: a well-formed request decodes back from its datagram bytes.
pub proof fn lemma_request_round_trip(r: RequestModel)
    requires
        spec_request_well_formed(r),
    ensures
        spec_decode_request(spec_request_bytes(r)) == Ok::<RequestModel, DecodeError>(r),
{
    lemma_le_round_trips();
    let s = spec_request_bytes(r);
    match r {
        RequestModel::Register { flags, layout_version, name_id, gva, len, name } => {
            lemma_header_len(KIND_REGISTER);
            assert(s.subrange(0, 4) =~= b32(REGIONIPC_MAGIC));
            assert(s.subrange(4, 6) =~= b16(REGIONIPC_VERSION));
            assert(s.subrange(6, 8) =~= b16(KIND_REGISTER));
            assert(s.subrange(8, 12) =~= b32(flags));
            assert(s.subrange(12, 16) =~= b32(layout_version));
            assert(s.subrange(16, 20) =~= b32(name_id));
            assert(s.subrange(20, 28) =~= b64(gva));
            assert(s.subrange(28, 36) =~= b64(len));
            assert(s.subrange(36, 38) =~= b16(name.len() as u16));
            assert(s.subrange(38, 38 + name.len() as int) =~= name);
        },
        RequestModel::Unregister { region_id } => {
            lemma_header_len(KIND_UNREGISTER);
            assert(s.subrange(0, 4) =~= b32(REGIONIPC_MAGIC));
            assert(s.subrange(4, 6) =~= b16(REGIONIPC_VERSION));
            assert(s.subrange(6, 8) =~= b16(KIND_UNREGISTER));
            assert(s.subrange(8, 12) =~= b32(region_id));
        },
    }
}

/// Round trip: every reply decodes back from its datagram bytes.
pub proof fn lemma_reply_round_trip(r: Reply)
    ensures
        spec_decode_reply(spec_reply_bytes(r)) == Ok::<Reply, DecodeError>(r),
        spec_reply_bytes(r).len() == REPLY_LEN,
{
    lemma_le_round_trips();
    lemma_header_len(KIND_REPLY);
    let s = spec_reply_bytes(r);
    assert(s.subrange(0, 4) =~= b32(REGIONIPC_MAGIC));
    assert(s.subrange(4, 6) =~= b16(REGIONIPC_VERSION));
    assert(s.subrange(6, 8) =~= b16(KIND_REPLY));
    assert(s.subrange(8, 10) =~= b16(r.status));
    assert(s.subrange(12, 16) =~= b32(r.region_id));
    assert(s.subrange(16, 20) =~= b32(r.name_id));
    assert(s.subrange(20, 28) =~= b64(r.manifest_generation));
}

} // verus!

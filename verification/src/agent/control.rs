//! The reference workload's control codec for `[unit.control]`.
//!
//! Only the stable byte shapes the boot-time leg needs:
//! `Hello -> HelloAck -> LoadGame -> GameLoaded -> Ready -> Start`.
//! Integers are LEB128 varints; strings are a varint length then bytes.
use crate::agent::boot::{opt_string_view, UnitControl, UnitControlModel};
use crate::text::{
    chars_of, debug_chars, push_chars, push_dec, push_str, spec_dec, str_debug_text,
    string_from_chars, utf8_string, utf8_text,
};
use vstd::prelude::*;
use vstd::string::StringSliceAdditionalSpecFns;
use vstd::utf8::encode_utf8;

verus! {

/// The first byte of the `Hello` request.
pub const TAG_HELLO: u8 = 0x00;
/// The first byte of the `LoadGame` request.
pub const TAG_LOAD_GAME: u8 = 0x01;
/// The whole `Start` request.
pub const TAG_START: u8 = 0x02;

/// The LEB128 encoding of `v`: 7 bits a byte, low first, the high bit
/// set on every byte but the last.
pub open spec fn spec_varint(v: nat) -> Seq<u8>
    decreases v,
{
    if v < 128 {
        seq![v as u8]
    } else {
        seq![(v % 128 + 128) as u8] + spec_varint(v / 128)
    }
}

/// Append the varint encoding of `value`.
pub fn push_varint(out: &mut Vec<u8>, value: u64)
    ensures
        final(out)@ == old(out)@ + spec_varint(value as nat),
{
    let mut v = value;
    while v >= 0x80
        invariant
            old(out)@ + spec_varint(value as nat) == out@ + spec_varint(v as nat),
        decreases v,
    {
        let b: u8 = ((v & 0x7F) | 0x80) as u8;
        assert(((v & 0x7F) | 0x80) == v % 128 + 128) by (bit_vector)
            requires
                v >= 0x80,
        ;
        let ghost before = out@;
        out.push(b);
        let nv = v >> 7;
        assert(nv == v / 128) by (bit_vector)
            requires
                nv == v >> 7,
        ;
        proof {
            assert(before + spec_varint(v as nat) =~= out@ + spec_varint(nv as nat));
        }
        v = nv;
    }
    out.push(v as u8);
    proof {
        assert(out@ =~= old(out)@ + spec_varint(value as nat));
    }
}

/// The `Hello { proto_version }` request.
pub fn encode_hello(proto_version: u16) -> (r: Vec<u8>)
    ensures
        r@ == seq![TAG_HELLO] + spec_varint(proto_version as nat),
{
    let mut out: Vec<u8> = Vec::new();
    out.push(TAG_HELLO);
    push_varint(&mut out, proto_version as u64);
    proof {
        assert(out@ =~= seq![TAG_HELLO] + spec_varint(proto_version as nat));
    }
    out
}

/// Append `bytes` with its varint length before it.
pub fn push_bytes(out: &mut Vec<u8>, bytes: &[u8])
    ensures
        final(out)@ == old(out)@ + spec_varint(bytes@.len()) + bytes@,
{
    push_varint(out, bytes.len() as u64);
    let mut i: usize = 0;
    let ghost mid = out@;
    while i < bytes.len()
        invariant
            i <= bytes@.len(),
            out@ == mid + bytes@.subrange(0, i as int),
        decreases bytes@.len() - i,
    {
        out.push(bytes[i]);
        i = i + 1;
        proof {
            assert(out@ =~= mid + bytes@.subrange(0, i as int));
        }
    }
    proof {
        assert(bytes@.subrange(0, bytes@.len() as int) =~= bytes@);
    }
}

/// The `LoadGame { dev_path }` request.
pub fn encode_load_game(dev_path: &str) -> (r: Vec<u8>)
    ensures
        r@ == seq![TAG_LOAD_GAME] + spec_varint(dev_path.spec_bytes().len()) + dev_path.spec_bytes(),
{
    let mut out: Vec<u8> = Vec::new();
    out.push(TAG_LOAD_GAME);
    push_bytes(&mut out, dev_path.as_bytes());
    proof {
        assert(out@ =~= seq![TAG_LOAD_GAME] + spec_varint(dev_path.spec_bytes().len())
            + dev_path.spec_bytes());
    }
    out
}

/// A reply from the workload's control leg.
#[derive(Debug, Clone, PartialEq, Eq)]
pub enum ControlReply {
    /// Answer to `Hello`.
    HelloAck { proto_version: u16 },
    /// Answer to `LoadGame`.
    GameLoaded,
    /// The workload is ready at `frame`.
    Ready { frame: u64 },
    /// The workload failed.
    Fault { detail: String },
}

/// The mathematical form of a reply.
pub enum ReplyModel {
    HelloAck { proto_version: u16 },
    GameLoaded,
    Ready { frame: u64 },
    Fault { detail: Seq<char> },
}

impl View for ControlReply {
    type V = ReplyModel;

    open spec fn view(&self) -> ReplyModel {
        match self {
            ControlReply::HelloAck { proto_version } => ReplyModel::HelloAck {
                proto_version: *proto_version,
            },
            ControlReply::GameLoaded => ReplyModel::GameLoaded,
            ControlReply::Ready { frame } => ReplyModel::Ready { frame: *frame },
            ControlReply::Fault { detail } => ReplyModel::Fault { detail: detail@ },
        }
    }
}

/// Decode a varint in `b` at `at`, `k` bytes of it read with `value` so
/// far: the value and the position after it. Bits past the 64th are
/// dropped; a tenth byte that continues is an overflow.
pub open spec fn spec_varint_from(b: Seq<u8>, at: int, k: nat, value: u64) -> Result<
    (u64, int),
    Seq<char>,
>
    decreases 10 - k,
{
    if at < 0 {
        Err("truncated refwork control datagram"@)
    } else if spec_take(b, at, 1) is Err {
        Err(spec_take(b, at, 1)->Err_0)
    } else {
        let byte = b[at];
        let v2 = value | ((((byte & 0x7F) as u64) << ((7 * k) as u64)) as u64);
        if byte & 0x80 == 0 {
            Ok((v2, at + 1))
        } else if 7 * (k + 1) >= 64 {
            Err("control varint overflow"@)
        } else {
            spec_varint_from(b, at + 1, k + 1, v2)
        }
    }
}

/// The varint at `at` and the position after it.
pub open spec fn spec_varint_at(b: Seq<u8>, at: int) -> Result<(u64, int), Seq<char>> {
    spec_varint_from(b, at, 0, 0)
}

/// The end of `n` bytes at `at`: past the largest size, or past the
/// datagram's end, there are none.
pub open spec fn spec_take(b: Seq<u8>, at: int, n: nat) -> Result<int, Seq<char>> {
    if at + n > usize::MAX {
        Err("control datagram offset overflow"@)
    } else if at + n > b.len() {
        Err("truncated refwork control datagram"@)
    } else {
        Ok(at + n)
    }
}

/// The string at `at` and the position after it.
pub open spec fn spec_string_at(b: Seq<u8>, at: int) -> Result<(Seq<char>, int), Seq<char>> {
    match spec_varint_at(b, at) {
        Err(e) => Err(e),
        Ok((n, p)) => if n > usize::MAX {
            Err("string length overflow"@)
        } else {
            match spec_take(b, p, n as nat) {
                Err(e) => Err(e),
                Ok(end) => match utf8_text(b.subrange(p, end)) {
                    Ok(s) => Ok((s, end)),
                    Err(e) => Err("control string is not UTF-8: "@ + e),
                },
            }
        },
    }
}

/// The body of a reply with tag `tag`, read from `at`: the reply and the
/// position after it.
pub open spec fn spec_reply_body(b: Seq<u8>, tag: u64, at: int) -> Result<
    (ReplyModel, int),
    Seq<char>,
> {
    if tag == 5 {
        match spec_varint_at(b, at) {
            Err(e) => Err(e),
            Ok((pv, p1)) => if pv > 0xFFFF {
                Err("HelloAck proto_version overflow"@)
            } else {
                match spec_string_at(b, p1) {
                    Err(e) => Err(e),
                    Ok((_, p2)) => match spec_string_at(b, p2) {
                        Err(e) => Err(e),
                        Ok((_, p3)) => Ok((ReplyModel::HelloAck { proto_version: pv as u16 }, p3)),
                    },
                }
            },
        }
    } else if tag == 6 {
        match spec_take(b, at, 32) {
            Err(e) => Err(e),
            Ok(p1) => match spec_string_at(b, p1) {
                Err(e) => Err(e),
                Ok((_, p2)) => match spec_varint_at(b, p2) {
                    Err(e) => Err(e),
                    Ok((_, p3)) => Ok((ReplyModel::GameLoaded, p3)),
                },
            },
        }
    } else if tag == 8 {
        match spec_varint_at(b, at) {
            Err(e) => Err(e),
            Ok((frame, p1)) => Ok((ReplyModel::Ready { frame }, p1)),
        }
    } else if tag == 10 {
        match spec_varint_at(b, at) {
            Err(e) => Err(e),
            Ok((_, p1)) => match spec_varint_at(b, p1) {
                Err(e) => Err(e),
                Ok((_, p2)) => match spec_string_at(b, p2) {
                    Err(e) => Err(e),
                    Ok((detail, p3)) => Ok((ReplyModel::Fault { detail }, p3)),
                },
            },
        }
    } else {
        Err("unknown refwork control reply tag "@ + spec_dec(tag as nat))
    }
}

/// A whole reply datagram: a tag varint, its body, and nothing after.
pub open spec fn spec_decode_reply(b: Seq<u8>) -> Result<ReplyModel, Seq<char>> {
    match spec_varint_at(b, 0) {
        Err(e) => Err(e),
        Ok((tag, p)) => match spec_reply_body(b, tag, p) {
            Err(e) => Err(e),
            Ok((r, end)) => if end != b.len() {
                Err("trailing bytes in refwork control reply"@)
            } else {
                Ok(r)
            },
        },
    }
}

/// A read position in a reply datagram.
pub struct Cursor<'a> {
    bytes: &'a [u8],
    at: usize,
}

impl<'a> Cursor<'a> {
    /// The bytes read.
    pub closed spec fn data(&self) -> Seq<u8> {
        self.bytes@
    }

    /// The read position.
    pub closed spec fn pos(&self) -> int {
        self.at as int
    }

    /// A cursor at the start of `bytes`.
    pub fn new(bytes: &'a [u8]) -> (c: Self)
        ensures
            c.data() == bytes@,
            c.pos() == 0,
    {
        Cursor { bytes, at: 0 }
    }

    /// Whether every byte has been read.
    pub fn at_end(&self) -> (r: bool)
        ensures
            r == (self.pos() == self.data().len()),
    {
        self.at == self.bytes.len()
    }

    /// Take the next `n` bytes.
    pub fn take(&mut self, n: usize) -> (r: Result<&'a [u8], String>)
        requires
            old(self).pos() <= old(self).data().len(),
        ensures
            final(self).data() == old(self).data(),
            final(self).pos() <= final(self).data().len(),
            match spec_take(old(self).data(), old(self).pos(), n as nat) {
                Ok(end) => r matches Ok(s) && s@ == old(self).data().subrange(old(self).pos(), end)
                    && final(self).pos() == end,
                Err(e) => r matches Err(m) && m@ == e,
            },
    {
        let end = match self.at.checked_add(n) {
            Some(e) => e,
            None => {
                return Err("control datagram offset overflow".to_owned());
            },
        };
        if end > self.bytes.len() {
            return Err("truncated refwork control datagram".to_owned());
        }
        let out = &self.bytes[self.at..end];
        self.at = end;
        Ok(out)
    }

    /// Read a varint.
    pub fn varint(&mut self) -> (r: Result<u64, String>)
        requires
            old(self).pos() <= old(self).data().len(),
        ensures
            final(self).data() == old(self).data(),
            final(self).pos() <= final(self).data().len(),
            match spec_varint_at(old(self).data(), old(self).pos()) {
                Ok((v, end)) => r == Ok::<u64, String>(v) && final(self).pos() == end,
                Err(e) => r matches Err(m) && m@ == e,
            },
    {
        let mut value: u64 = 0;
        let mut shift: u64 = 0;
        let ghost start = self.pos();
        let ghost mut k: nat = 0;
        loop
            invariant
                self.data() == old(self).data(),
                start == old(self).pos(),
                self.pos() <= self.data().len(),
                shift == 7 * k,
                k < 10,
                self.pos() == start + k,
                spec_varint_at(self.data(), start) == spec_varint_from(
                    self.data(),
                    self.pos(),
                    k,
                    value,
                ),
            decreases 10 - k,
        {
            let b = match self.take(1) {
                Ok(s) => s[0],
                Err(e) => {
                    return Err(e);
                },
            };
            let part: u64 = (b & 0x7F) as u64;
            let add = part << shift;
            value = value | add;
            if b & 0x80 == 0 {
                return Ok(value);
            }
            shift = shift + 7;
            if shift >= 64 {
                return Err("control varint overflow".to_owned());
            }
            proof {
                k = k + 1;
            }
        }
    }

    /// Read a string: a varint length, then that many UTF-8 bytes.
    pub fn string(&mut self) -> (r: Result<String, String>)
        requires
            old(self).pos() <= old(self).data().len(),
        ensures
            final(self).data() == old(self).data(),
            final(self).pos() <= final(self).data().len(),
            match spec_string_at(old(self).data(), old(self).pos()) {
                Ok((s, end)) => r matches Ok(x) && x@ == s && final(self).pos() == end,
                Err(e) => r matches Err(m) && m@ == e,
            },
    {
        let n = match self.varint() {
            Ok(n) => n,
            Err(e) => {
                return Err(e);
            },
        };
        if n as u128 > usize::MAX as u128 {
            return Err("string length overflow".to_owned());
        }
        let bytes = match self.take(n as usize) {
            Ok(b) => b,
            Err(e) => {
                return Err(e);
            },
        };
        match utf8_string(bytes) {
            Ok(s) => Ok(s),
            Err(e) => {
                let mut m = chars_of("control string is not UTF-8: ");
                let ec = chars_of(e.as_str());
                crate::text::push_chars(&mut m, ec.as_slice());
                Err(string_from_chars(m.as_slice()))
            },
        }
    }
}

/// Decode one reply datagram.
pub fn decode_reply(bytes: &[u8]) -> (r: Result<ControlReply, String>)
    ensures
        match spec_decode_reply(bytes@) {
            Ok(m) => r matches Ok(x) && x@ == m,
            Err(e) => r matches Err(msg) && msg@ == e,
        },
{
    let mut cur = Cursor::new(bytes);
    let tag = match cur.varint() {
        Ok(t) => t,
        Err(e) => {
            return Err(e);
        },
    };
    let reply = if tag == 5 {
        let pv = match cur.varint() {
            Ok(v) => v,
            Err(e) => {
                return Err(e);
            },
        };
        if pv > 0xFFFF {
            return Err("HelloAck proto_version overflow".to_owned());
        }
        match cur.string() {
            Ok(_) => {},
            Err(e) => {
                return Err(e);
            },
        }
        match cur.string() {
            Ok(_) => {},
            Err(e) => {
                return Err(e);
            },
        }
        ControlReply::HelloAck { proto_version: pv as u16 }
    } else if tag == 6 {
        match cur.take(32) {
            Ok(_) => {},
            Err(e) => {
                return Err(e);
            },
        }
        match cur.string() {
            Ok(_) => {},
            Err(e) => {
                return Err(e);
            },
        }
        match cur.varint() {
            Ok(_) => {},
            Err(e) => {
                return Err(e);
            },
        }
        ControlReply::GameLoaded
    } else if tag == 8 {
        match cur.varint() {
            Ok(frame) => ControlReply::Ready { frame },
            Err(e) => {
                return Err(e);
            },
        }
    } else if tag == 10 {
        match cur.varint() {
            Ok(_) => {},
            Err(e) => {
                return Err(e);
            },
        }
        match cur.varint() {
            Ok(_) => {},
            Err(e) => {
                return Err(e);
            },
        }
        match cur.string() {
            Ok(detail) => ControlReply::Fault { detail },
            Err(e) => {
                return Err(e);
            },
        }
    } else {
        let mut m = chars_of("unknown refwork control reply tag ");
        push_dec(&mut m, tag as u128);
        return Err(string_from_chars(m.as_slice()));
    };
    if !cur.at_end() {
        return Err("trailing bytes in refwork control reply".to_owned());
    }
    Ok(reply)
}

/// `format!("{:?}", reply)` for a reply (the derived `Debug` form).
pub open spec fn spec_reply_debug(r: ReplyModel) -> Seq<char> {
    match r {
        ReplyModel::HelloAck { proto_version } => "HelloAck { proto_version: "@ + spec_dec(
            proto_version as nat,
        ) + " }"@,
        ReplyModel::GameLoaded => "GameLoaded"@,
        ReplyModel::Ready { frame } => "Ready { frame: "@ + spec_dec(frame as nat) + " }"@,
        ReplyModel::Fault { detail } => "Fault { detail: "@ + str_debug_text(detail) + " }"@,
    }
}

impl ControlReply {
    /// The reply's `Debug` text.
    pub fn debug_text(&self) -> (r: String)
        ensures
            r@ == spec_reply_debug(self@),
    {
        let mut c: Vec<char> = Vec::new();
        match self {
            ControlReply::HelloAck { proto_version } => {
                push_str(&mut c, "HelloAck { proto_version: ");
                push_dec(&mut c, *proto_version as u128);
                push_str(&mut c, " }");
            },
            ControlReply::GameLoaded => {
                push_str(&mut c, "GameLoaded");
            },
            ControlReply::Ready { frame } => {
                push_str(&mut c, "Ready { frame: ");
                push_dec(&mut c, *frame as u128);
                push_str(&mut c, " }");
            },
            ControlReply::Fault { detail } => {
                push_str(&mut c, "Fault { detail: ");
                let dc = chars_of(detail.as_str());
                let d = debug_chars(dc.as_slice());
                push_chars(&mut c, d.as_slice());
                push_str(&mut c, " }");
            },
        }
        proof {
            assert(c@ =~= spec_reply_debug(self@));
        }
        string_from_chars(c.as_slice())
    }
}

/// Where the boot-time control leg stands.
#[derive(Debug, Clone, Copy, PartialEq, Eq, Structural)]
pub enum LegStage {
    /// `Hello` is to be sent.
    SendHello,
    /// Waiting for `HelloAck`.
    AwaitHelloAck,
    /// `LoadGame` is to be sent.
    SendLoadGame,
    /// Waiting for `GameLoaded`.
    AwaitGameLoaded,
    /// Waiting for `Ready`.
    AwaitReady,
    /// `Start` is to be sent.
    SendStart,
    /// The leg is complete.
    Done,
}

/// What the driver does next.
#[derive(Debug, PartialEq, Eq)]
pub enum LegAction {
    /// Send this datagram (`what` names it in errors).
    Send { bytes: Vec<u8>, what: &'static str },
    /// Receive one reply (`what` names the one expected).
    Recv { what: &'static str },
    /// The leg is complete.
    Done,
}

/// The boot-time control leg `Hello -> HelloAck -> LoadGame -> GameLoaded
/// -> Ready -> Start`: the decisions, with the sending and receiving left
/// to the caller.
#[derive(Debug)]
pub struct ControlLeg {
    proto_version: u16,
    game_dev: String,
    stage: LegStage,
}

/// Whether the unit's control section can drive a leg, and why not.
pub open spec fn spec_leg_check(c: UnitControlModel) -> Result<(), Seq<char>> {
    if c.protocol != "refwork-ctl"@ {
        Err("unsupported unit.control protocol "@ + str_debug_text(c.protocol))
    } else if c.proto_version > u16::MAX {
        Err("refwork proto_version "@ + spec_dec(c.proto_version as nat) + " exceeds u16"@)
    } else if c.game_dev is None {
        Err("refwork-ctl requires game_dev"@)
    } else {
        Ok(())
    }
}

/// What a reply does to the leg waiting at `stage` (for `pv`): the next
/// stage, or the error that ends the leg.
pub open spec fn spec_leg_reply(stage: LegStage, pv: u16, r: ReplyModel) -> Result<LegStage, Seq<char>> {
    match stage {
        LegStage::AwaitHelloAck => match r {
            ReplyModel::HelloAck { proto_version } => if proto_version == pv {
                Ok(LegStage::SendLoadGame)
            } else {
                Err(
                    "refwork HelloAck proto_version "@ + spec_dec(proto_version as nat) + " != "@
                        + spec_dec(pv as nat),
                )
            },
            ReplyModel::Fault { detail } => Err("refwork fault after Hello: "@ + detail),
            _ => Err("expected refwork HelloAck, got "@ + spec_reply_debug(r)),
        },
        LegStage::AwaitGameLoaded => match r {
            ReplyModel::GameLoaded => Ok(LegStage::AwaitReady),
            ReplyModel::Fault { detail } => Err("refwork fault after LoadGame: "@ + detail),
            _ => Err("expected refwork GameLoaded, got "@ + spec_reply_debug(r)),
        },
        LegStage::AwaitReady => match r {
            ReplyModel::Ready { frame } => if frame == 0 {
                Ok(LegStage::SendStart)
            } else {
                Err("refwork Ready frame must be 0, got "@ + spec_dec(frame as nat))
            },
            ReplyModel::Fault { detail } => Err("refwork fault before Start: "@ + detail),
            _ => Err("expected refwork Ready, got "@ + spec_reply_debug(r)),
        },
        _ => Err("unexpected refwork control reply"@),
    }
}

/// The stage after the datagram of `stage` was sent.
pub open spec fn spec_leg_sent(stage: LegStage) -> LegStage {
    match stage {
        LegStage::SendHello => LegStage::AwaitHelloAck,
        LegStage::SendLoadGame => LegStage::AwaitGameLoaded,
        LegStage::SendStart => LegStage::Done,
        _ => stage,
    }
}

impl ControlLeg {
    /// The leg's stage.
    pub closed spec fn stage(&self) -> LegStage {
        self.stage
    }

    /// The protocol version the leg speaks.
    pub closed spec fn spec_proto_version(&self) -> u16 {
        self.proto_version
    }

    /// The game device it loads.
    pub closed spec fn spec_game_dev(&self) -> Seq<char> {
        self.game_dev@
    }

    /// Begin the leg for `control`: `refwork-ctl` only, a protocol version
    /// that fits 16 bits, and a game device.
    pub fn start(control: &UnitControl) -> (r: Result<ControlLeg, String>)
        ensures
            match spec_leg_check(control@) {
                Ok(()) => r matches Ok(leg) && leg.stage() == LegStage::SendHello
                    && leg.spec_proto_version() == control.proto_version && opt_string_view(
                    control.game_dev,
                ) == Some(leg.spec_game_dev()),
                Err(e) => r matches Err(m) && m@ == e,
            },
    {
        let pc = chars_of(control.protocol.as_str());
        let want = chars_of("refwork-ctl");
        if !crate::text::chars_eq(pc.as_slice(), want.as_slice()) {
            let mut m = chars_of("unsupported unit.control protocol ");
            let d = debug_chars(pc.as_slice());
            push_chars(&mut m, d.as_slice());
            return Err(string_from_chars(m.as_slice()));
        }
        if control.proto_version > 0xFFFF {
            let mut m = chars_of("refwork proto_version ");
            push_dec(&mut m, control.proto_version as u128);
            push_str(&mut m, " exceeds u16");
            return Err(string_from_chars(m.as_slice()));
        }
        match &control.game_dev {
            Some(g) => {
                let game_dev = string_from_chars(chars_of(g.as_str()).as_slice());
                Ok(
                    ControlLeg {
                        proto_version: control.proto_version as u16,
                        game_dev,
                        stage: LegStage::SendHello,
                    },
                )
            },
            None => Err("refwork-ctl requires game_dev".to_owned()),
        }
    }

    /// The next thing to do: send the stage's datagram, receive the reply
    /// it waits for, or nothing more.
    pub fn next_action(&self) -> (r: LegAction)
        ensures
            match self.stage() {
                LegStage::SendHello => r matches LegAction::Send { bytes, what } && bytes@ == seq![
                    TAG_HELLO,
                ] + spec_varint(self.spec_proto_version() as nat) && what@ == "Hello"@,
                LegStage::SendLoadGame => r matches LegAction::Send { bytes, what } && what@
                    == "LoadGame"@ && bytes@ == seq![TAG_LOAD_GAME] + spec_varint(
                    encode_utf8(self.spec_game_dev()).len(),
                ) + encode_utf8(self.spec_game_dev()),
                LegStage::SendStart => r matches LegAction::Send { bytes, what } && bytes@ == seq![
                    TAG_START,
                ] && what@ == "Start"@,
                LegStage::AwaitHelloAck => r matches LegAction::Recv { what } && what@ == "HelloAck"@,
                LegStage::AwaitGameLoaded => r matches LegAction::Recv { what } && what@
                    == "GameLoaded"@,
                LegStage::AwaitReady => r matches LegAction::Recv { what } && what@ == "Ready"@,
                LegStage::Done => r is Done,
            },
    {
        match self.stage {
            LegStage::SendHello => LegAction::Send { bytes: encode_hello(self.proto_version), what: "Hello" },
            LegStage::SendLoadGame => {
                let b = encode_load_game(self.game_dev.as_str());
                LegAction::Send { bytes: b, what: "LoadGame" }
            },
            LegStage::SendStart => {
                let mut b: Vec<u8> = Vec::new();
                b.push(TAG_START);
                proof {
                    assert(b@ =~= seq![TAG_START]);
                }
                LegAction::Send { bytes: b, what: "Start" }
            },
            LegStage::AwaitHelloAck => LegAction::Recv { what: "HelloAck" },
            LegStage::AwaitGameLoaded => LegAction::Recv { what: "GameLoaded" },
            LegStage::AwaitReady => LegAction::Recv { what: "Ready" },
            LegStage::Done => LegAction::Done,
        }
    }

    /// The stage's datagram was sent.
    pub fn sent(&mut self)
        ensures
            final(self).stage() == spec_leg_sent(old(self).stage()),
            final(self).spec_proto_version() == old(self).spec_proto_version(),
            final(self).spec_game_dev() == old(self).spec_game_dev(),
    {
        self.stage = match self.stage {
            LegStage::SendHello => LegStage::AwaitHelloAck,
            LegStage::SendLoadGame => LegStage::AwaitGameLoaded,
            LegStage::SendStart => LegStage::Done,
            other => other,
        };
    }

    /// A reply arrived: advance, or end the leg with the error.
    pub fn on_reply(&mut self, reply: &ControlReply) -> (r: Result<(), String>)
        ensures
            final(self).spec_proto_version() == old(self).spec_proto_version(),
            final(self).spec_game_dev() == old(self).spec_game_dev(),
            match spec_leg_reply(old(self).stage(), old(self).spec_proto_version(), reply@) {
                Ok(next) => r is Ok && final(self).stage() == next,
                Err(e) => r matches Err(m) && m@ == e && final(self).stage() == old(self).stage(),
            },
    {
        let mut m: Vec<char> = Vec::new();
        match self.stage {
            LegStage::AwaitHelloAck => match reply {
                ControlReply::HelloAck { proto_version } => {
                    if *proto_version == self.proto_version {
                        self.stage = LegStage::SendLoadGame;
                        return Ok(());
                    }
                    push_str(&mut m, "refwork HelloAck proto_version ");
                    push_dec(&mut m, *proto_version as u128);
                    push_str(&mut m, " != ");
                    push_dec(&mut m, self.proto_version as u128);
                },
                ControlReply::Fault { detail } => {
                    push_str(&mut m, "refwork fault after Hello: ");
                    push_str(&mut m, detail.as_str());
                },
                _ => {
                    push_str(&mut m, "expected refwork HelloAck, got ");
                    let d = reply.debug_text();
                    push_str(&mut m, d.as_str());
                },
            },
            LegStage::AwaitGameLoaded => match reply {
                ControlReply::GameLoaded => {
                    self.stage = LegStage::AwaitReady;
                    return Ok(());
                },
                ControlReply::Fault { detail } => {
                    push_str(&mut m, "refwork fault after LoadGame: ");
                    push_str(&mut m, detail.as_str());
                },
                _ => {
                    push_str(&mut m, "expected refwork GameLoaded, got ");
                    let d = reply.debug_text();
                    push_str(&mut m, d.as_str());
                },
            },
            LegStage::AwaitReady => match reply {
                ControlReply::Ready { frame } => {
                    if *frame == 0 {
                        self.stage = LegStage::SendStart;
                        return Ok(());
                    }
                    push_str(&mut m, "refwork Ready frame must be 0, got ");
                    push_dec(&mut m, *frame as u128);
                },
                ControlReply::Fault { detail } => {
                    push_str(&mut m, "refwork fault before Start: ");
                    push_str(&mut m, detail.as_str());
                },
                _ => {
                    push_str(&mut m, "expected refwork Ready, got ");
                    let d = reply.debug_text();
                    push_str(&mut m, d.as_str());
                },
            },
            _ => {
                push_str(&mut m, "unexpected refwork control reply");
            },
        }
        proof {
            assert(m@ =~= spec_leg_reply(old(self).stage(), old(self).spec_proto_version(), reply@)->Err_0);
        }
        Err(string_from_chars(m.as_slice()))
    }
}

} // verus!

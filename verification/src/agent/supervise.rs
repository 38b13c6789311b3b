//! The pure parts of the supervise loop: framing workload pipe bytes into
//! log lines, the deterministic record timestamp, the graceful shutdown
//! deadline, and what each ring C command and each reaped child asks of
//! the supervisor.
use crate::wire::events::{Command, QuiesceMode, ShutdownMode, MAX_LOG_MSG};
use vstd::prelude::*;

verus! {

/// LogLine level used for workload stdout lines (2 = info).
pub const STDOUT_LEVEL: u8 = 2;
/// LogLine level used for workload stderr lines (0 = error).
pub const STDERR_LEVEL: u8 = 0;

/// The position of the first newline in `s`, or -1.
pub open spec fn spec_find_newline(s: Seq<u8>) -> int
    decreases s.len(),
{
    if s.len() == 0 {
        -1
    } else if s[0] == 10 {
        0
    } else {
        let r = spec_find_newline(s.subrange(1, s.len() as int));
        if r < 0 {
            -1
        } else {
            r + 1
        }
    }
}

/// `s` framed: the complete lines it holds (newline-stripped, split at
/// `MAX_LOG_MSG` bytes where a line runs longer), in order, and the bytes
/// left over. A newline within the first `MAX_LOG_MSG + 1` bytes ends a
/// line; otherwise, once `MAX_LOG_MSG` bytes are held, they are a line.
pub open spec fn spec_frame(s: Seq<u8>) -> (Seq<Seq<u8>>, Seq<u8>)
    decreases s.len(),
{
    let nl = spec_find_newline(s);
    if 0 <= nl <= MAX_LOG_MSG && nl < s.len() {
        let (ls, rest) = spec_frame(s.subrange(nl + 1, s.len() as int));
        (seq![s.subrange(0, nl)] + ls, rest)
    } else if s.len() >= MAX_LOG_MSG {
        let (ls, rest) = spec_frame(s.subrange(MAX_LOG_MSG as int, s.len() as int));
        (seq![s.subrange(0, MAX_LOG_MSG as int)] + ls, rest)
    } else {
        (Seq::empty(), s)
    }
}

/// `spec_find_newline` is -1 or the first newline's position.
proof fn lemma_find_newline(s: Seq<u8>)
    ensures
        -1 <= spec_find_newline(s) < s.len(),
        spec_find_newline(s) >= 0 ==> s[spec_find_newline(s)] == 10,
        forall|j: int|
            0 <= j < s.len() && (spec_find_newline(s) < 0 || j < spec_find_newline(s)) ==> s[j]
                != 10,
    decreases s.len(),
{
    if s.len() > 0 && s[0] != 10 {
        let u = s.subrange(1, s.len() as int);
        lemma_find_newline(u);
        assert forall|j: int|
            0 <= j < s.len() && (spec_find_newline(s) < 0 || j < spec_find_newline(s)) implies s[j]
            != 10 by {
            if j > 0 {
                assert(s[j] == u[j - 1]);
            }
        }
    }
}

/// What framing leaves over holds no newline and is shorter than a line;
/// every line it gives is at most `MAX_LOG_MSG` bytes.
pub proof fn lemma_frame_rest(s: Seq<u8>)
    ensures
        spec_frame(s).1.len() < MAX_LOG_MSG,
        forall|j: int| 0 <= j < spec_frame(s).1.len() ==> #[trigger] spec_frame(s).1[j] != 10,
        forall|i: int| 0 <= i < spec_frame(s).0.len() ==> #[trigger] spec_frame(s).0[i].len() <= MAX_LOG_MSG,
    decreases s.len(),
{
    lemma_find_newline(s);
    let nl = spec_find_newline(s);
    if 0 <= nl <= MAX_LOG_MSG && nl < s.len() {
        lemma_frame_rest(s.subrange(nl + 1, s.len() as int));
    } else if s.len() >= MAX_LOG_MSG {
        lemma_frame_rest(s.subrange(MAX_LOG_MSG as int, s.len() as int));
    }
}

/// The byte views of a sequence of byte vectors.
pub open spec fn lines_view(v: Seq<Vec<u8>>) -> Seq<Seq<u8>> {
    v.map_values(|l: Vec<u8>| l@)
}

/// Accumulates pipe bytes and yields complete lines (newline-stripped),
/// flushing oversized lines at the wire cap so a workload printing without
/// newlines cannot grow the buffer unboundedly.
#[derive(Debug)]
pub struct LineBuf {
    buf: Vec<u8>,
}

impl View for LineBuf {
    type V = Seq<u8>;

    /// The bytes held back: the start of a line not yet complete.
    closed spec fn view(&self) -> Seq<u8> {
        self.buf@
    }
}

impl Default for LineBuf {
    fn default() -> (r: Self)
        ensures
            r@ == Seq::<u8>::empty(),
    {
        LineBuf { buf: Vec::new() }
    }
}

/// A copy of `s[a..b]`.
fn copy_bytes(s: &[u8], a: usize, b: usize) -> (r: Vec<u8>)
    requires
        a <= b <= s@.len(),
    ensures
        r@ == s@.subrange(a as int, b as int),
{
    let mut r: Vec<u8> = Vec::new();
    let mut i = a;
    while i < b
        invariant
            a <= i <= b <= s@.len(),
            r@ == s@.subrange(a as int, i as int),
        decreases b - i,
    {
        r.push(s[i]);
        i = i + 1;
        proof {
            assert(r@ =~= s@.subrange(a as int, i as int));
        }
    }
    r
}

/// The first newline in `s`.
fn find_newline(s: &[u8]) -> (r: Option<usize>)
    ensures
        match r {
            Some(i) => i as int == spec_find_newline(s@) && i < s@.len(),
            None => spec_find_newline(s@) < 0,
        },
{
    proof {
        lemma_find_newline(s@);
    }
    let mut i: usize = 0;
    while i < s.len()
        invariant
            i <= s@.len(),
            forall|j: int| 0 <= j < i ==> s@[j] != 10,
            -1 <= spec_find_newline(s@) < s@.len(),
            spec_find_newline(s@) >= 0 ==> s@[spec_find_newline(s@)] == 10,
            forall|j: int|
                0 <= j < s@.len() && (spec_find_newline(s@) < 0 || j < spec_find_newline(s@))
                    ==> s@[j] != 10,
        decreases s@.len() - i,
    {
        if s[i] == 10 {
            return Some(i);
        }
        i = i + 1;
    }
    None
}

impl LineBuf {
    /// Maximum line length emitted; longer lines are split at this size
    /// (matches `MAX_LOG_MSG` so nothing is silently clipped downstream).
    pub const MAX_LINE: usize = MAX_LOG_MSG;

    /// Feed bytes; returns each line completed, in order.
    pub fn push(&mut self, bytes: &[u8]) -> (r: Vec<Vec<u8>>)
        ensures
            (lines_view(r@), final(self)@) == spec_frame(old(self)@ + bytes@),
            final(self)@.len() < MAX_LOG_MSG,
            forall|i: int| 0 <= i < r@.len() ==> #[trigger] r@[i]@.len() <= Self::MAX_LINE,
    {
        let mut all: Vec<u8> = Vec::new();
        let mut k: usize = 0;
        while k < self.buf.len()
            invariant
                k <= self.buf@.len(),
                all@ == self.buf@.subrange(0, k as int),
            decreases self.buf@.len() - k,
        {
            all.push(self.buf[k]);
            k = k + 1;
            proof {
                assert(all@ =~= self.buf@.subrange(0, k as int));
            }
        }
        let mut j: usize = 0;
        while j < bytes.len()
            invariant
                j <= bytes@.len(),
                all@ == old(self).buf@ + bytes@.subrange(0, j as int),
            decreases bytes@.len() - j,
        {
            all.push(bytes[j]);
            j = j + 1;
            proof {
                assert(all@ =~= old(self).buf@ + bytes@.subrange(0, j as int));
            }
        }
        proof {
            assert(bytes@.subrange(0, bytes@.len() as int) =~= bytes@);
        }
        let ghost total = all@;
        let mut lines: Vec<Vec<u8>> = Vec::new();
        let mut rest = all;
        proof {
            assert(lines_view(lines@) + spec_frame(rest@).0 =~= spec_frame(total).0);
        }
        loop
            invariant
                spec_frame(total) == (lines_view(lines@) + spec_frame(rest@).0, spec_frame(rest@).1),
            ensures
                spec_frame(total) == (lines_view(lines@), rest@),
            decreases rest@.len(),
        {
            let ghost before = lines_view(lines@);
            let ghost r0 = rest@;
            proof {
                lemma_find_newline(r0);
            }
            let found = find_newline(rest.as_slice());
            let at_newline = match found {
                Some(nl) => nl <= MAX_LOG_MSG,
                None => false,
            };
            match found {
                Some(nl) if at_newline => {
                    let line = copy_bytes(rest.as_slice(), 0, nl);
                    let tail = copy_bytes(rest.as_slice(), nl + 1, rest.len());
                    lines.push(line);
                    rest = tail;
                    proof {
                        assert(lines_view(lines@) =~= before.push(r0.subrange(0, nl as int)));
                        assert(before.push(r0.subrange(0, nl as int)) + spec_frame(rest@).0 =~= before
                            + (seq![r0.subrange(0, nl as int)] + spec_frame(rest@).0));
                    }
                },
                _ => {
                    if rest.len() >= MAX_LOG_MSG {
                        let line = copy_bytes(rest.as_slice(), 0, MAX_LOG_MSG);
                        let tail = copy_bytes(rest.as_slice(), MAX_LOG_MSG, rest.len());
                        lines.push(line);
                        rest = tail;
                        proof {
                            assert(lines_view(lines@) =~= before.push(
                                r0.subrange(0, MAX_LOG_MSG as int),
                            ));
                            assert(before.push(r0.subrange(0, MAX_LOG_MSG as int)) + spec_frame(
                                rest@,
                            ).0 =~= before + (seq![r0.subrange(0, MAX_LOG_MSG as int)]
                                + spec_frame(rest@).0));
                        }
                    } else {
                        proof {
                            assert(spec_frame(r0) == (Seq::<Seq<u8>>::empty(), r0));
                            assert(before + Seq::<Seq<u8>>::empty() =~= before);
                        }
                        break;
                    }
                },
            }
        }
        proof {
            lemma_frame_rest(total);
            assert forall|i: int| 0 <= i < lines@.len() implies #[trigger] lines@[i]@.len() <= Self::MAX_LINE by {
                assert(lines_view(lines@)[i] == lines@[i]@);
            }
        }
        self.buf = rest;
        lines
    }

    /// Flush a trailing unterminated line (pipe EOF): the held bytes, if
    /// any; the buffer is then empty.
    pub fn finish(&mut self) -> (r: Option<Vec<u8>>)
        ensures
            final(self)@ == Seq::<u8>::empty(),
            match r {
                Some(l) => old(self)@.len() > 0 && l@ == old(self)@,
                None => old(self)@.len() == 0,
            },
    {
        if self.buf.len() > 0 {
            let mut out: Vec<u8> = Vec::new();
            std::mem::swap(&mut out, &mut self.buf);
            Some(out)
        } else {
            None
        }
    }
}

/// Whether a unit's log mask lets lines of `level` through: bit `level`
/// of the mask is set.
pub fn log_level_enabled(log_mask: u32, level: u8) -> (r: bool)
    requires
        level < 32,
    ensures
        r == ((log_mask >> level) & 1u32 == 1u32),
{
    let bit: u32 = 1u32 << level;
    let r = log_mask & bit != 0;
    assert(r == ((log_mask >> level) & 1u32 == 1u32)) by (bit_vector)
        requires
            level < 32,
            bit == 1u32 << level,
            r == (log_mask & bit != 0),
    ;
    r
}

/// The `WorkloadExited` fields for a reaped workload: its exit code and
/// no signal when it exited, else exit code -1 and the signal that ended
/// it.
pub fn exit_fields(exited: bool, exit_status: i32, term_signal: i32) -> (r: (i32, i32))
    ensures
        r == if exited {
            (exit_status, 0i32)
        } else {
            (-1i32, term_signal)
        },
{
    if exited {
        (exit_status, 0)
    } else {
        (-1, term_signal)
    }
}

/// What the supervisor does for one ring C command.
#[derive(Debug, Clone, Copy, PartialEq, Eq, Structural)]
pub enum SupervisorAction {
    /// Start unit `unit`; once it runs, its log mask is `log_mask`.
    StartUnit { unit: u32, log_mask: u32 },
    /// Relay a cooperative quiesce request onto ring I.
    RelayQuiesce { token: u64 },
    /// Stop the workload (SIGSTOP); the reap acknowledges.
    ForcedQuiesce { token: u64 },
    /// Continue a stopped workload, then relay the resume onto ring I.
    Resume { token: u64 },
    /// SIGTERM now, SIGKILL at the deadline; the loop ends when the
    /// workload is gone.
    GracefulShutdown,
    /// SIGKILL and reap now; the loop ends at once.
    ImmediateShutdown,
    /// Replace the log mask.
    SetLogMask { mask: u32 },
    /// Re-walk the live regions.
    ReverifyRegions,
}

/// The action a ring C command asks for.
pub open spec fn spec_command_action(cmd: Command) -> SupervisorAction {
    match cmd {
        Command::StartWorkload { unit, log_mask } => SupervisorAction::StartUnit { unit, log_mask },
        Command::Quiesce { token, mode } => match mode {
            QuiesceMode::Coop => SupervisorAction::RelayQuiesce { token },
            QuiesceMode::Forced => SupervisorAction::ForcedQuiesce { token },
        },
        Command::Resume { token } => SupervisorAction::Resume { token },
        Command::Shutdown { mode } => match mode {
            ShutdownMode::Graceful => SupervisorAction::GracefulShutdown,
            ShutdownMode::Immediate => SupervisorAction::ImmediateShutdown,
        },
        Command::SetLogMask { mask } => SupervisorAction::SetLogMask { mask },
        Command::ReverifyRegions => SupervisorAction::ReverifyRegions,
    }
}

/// The action for `cmd`, and whether the supervise loop stops right after
/// it (only an immediate shutdown stops it at once).
pub fn command_action(cmd: Command) -> (r: (SupervisorAction, bool))
    ensures
        r.0 == spec_command_action(cmd),
        r.1 == (cmd == Command::Shutdown { mode: ShutdownMode::Immediate }),
{
    match cmd {
        Command::StartWorkload { unit, log_mask } => (SupervisorAction::StartUnit { unit, log_mask }, false),
        Command::Quiesce { token, mode } => match mode {
            QuiesceMode::Coop => (SupervisorAction::RelayQuiesce { token }, false),
            QuiesceMode::Forced => (SupervisorAction::ForcedQuiesce { token }, false),
        },
        Command::Resume { token } => (SupervisorAction::Resume { token }, false),
        Command::Shutdown { mode } => match mode {
            ShutdownMode::Graceful => (SupervisorAction::GracefulShutdown, false),
            ShutdownMode::Immediate => (SupervisorAction::ImmediateShutdown, true),
        },
        Command::SetLogMask { mask } => (SupervisorAction::SetLogMask { mask }, false),
        Command::ReverifyRegions => (SupervisorAction::ReverifyRegions, false),
    }
}

/// What the supervisor does with one reaped child.
#[derive(Debug, Clone, Copy, PartialEq, Eq, Structural)]
pub enum ReapStep {
    /// Not the supervised workload: nothing.
    Ignore,
    /// The workload stopped (a forced quiesce landed): mark it stopped and
    /// acknowledge with `QuiesceReady`.
    Stopped,
    /// The workload is gone: flush its output, release it and report
    /// `WorkloadExited`.
    Exited,
}

/// The reap decision for a child that changed state: whether it is the
/// supervised workload, and whether it stopped rather than ended.
pub fn reap_step(is_workload: bool, stopped: bool) -> (r: ReapStep)
    ensures
        r == if !is_workload {
            ReapStep::Ignore
        } else if stopped {
            ReapStep::Stopped
        } else {
            ReapStep::Exited
        },
{
    if !is_workload {
        ReapStep::Ignore
    } else if stopped {
        ReapStep::Stopped
    } else {
        ReapStep::Exited
    }
}

/// Pending graceful-shutdown state: SIGKILL fires at `kill_deadline`.
pub struct ShutdownState {
    /// CLOCK_MONOTONIC_RAW ns deadline for SIGKILL.
    pub kill_deadline: u64,
}

/// How long a gracefully stopped workload has between SIGTERM and SIGKILL.
pub const GRACEFUL_KILL_DELAY_NS: u64 = 2_000_000_000;

/// The shutdown state a graceful shutdown starts at `now`: with a
/// workload, SIGKILL is due `GRACEFUL_KILL_DELAY_NS` later; without one,
/// the deadline is 0 (already passed).
pub fn graceful_shutdown_state(has_workload: bool, now: u64) -> (r: ShutdownState)
    requires
        has_workload ==> now + GRACEFUL_KILL_DELAY_NS <= u64::MAX,
    ensures
        r.kill_deadline == if has_workload {
            now + GRACEFUL_KILL_DELAY_NS
        } else {
            0
        },
{
    if has_workload {
        ShutdownState { kill_deadline: now + GRACEFUL_KILL_DELAY_NS }
    } else {
        ShutdownState { kill_deadline: 0 }
    }
}

/// What a pass of the supervise loop does about a pending shutdown.
#[derive(Clone, Copy, Debug, PartialEq, Eq, Structural)]
pub enum ShutdownStep {
    /// No shutdown pending, or the workload still has time.
    Continue,
    /// The deadline has passed and the workload lives: SIGKILL it.
    Kill,
    /// The workload is gone: the loop ends and the guest powers off.
    PowerOff,
}

/// The shutdown decision of one loop pass, from the pending state, whether
/// a workload is still supervised, and the current monotonic time.
pub fn shutdown_step(shutdown: &Option<ShutdownState>, has_workload: bool, now: u64) -> (r:
    ShutdownStep)
    ensures
        r == match shutdown {
            None => ShutdownStep::Continue,
            Some(s) => if !has_workload {
                ShutdownStep::PowerOff
            } else if now >= s.kill_deadline {
                ShutdownStep::Kill
            } else {
                ShutdownStep::Continue
            },
        },
{
    match shutdown {
        None => ShutdownStep::Continue,
        Some(s) => {
            if !has_workload {
                ShutdownStep::PowerOff
            } else if now >= s.kill_deadline {
                ShutdownStep::Kill
            } else {
                ShutdownStep::Continue
            }
        },
    }
}

/// The deterministic ring-record timestamp source: successive values from
/// 1, one per record, independent of any wall clock.
pub struct VnanosClock {
    next: u64,
}

impl View for VnanosClock {
    type V = u64;

    /// The next timestamp it gives.
    closed spec fn view(&self) -> u64 {
        self.next
    }
}

impl VnanosClock {
    /// A clock whose first timestamp is 1.
    pub fn new() -> (r: Self)
        ensures
            r@ == 1,
    {
        VnanosClock { next: 1 }
    }

    /// The next timestamp; the clock advances by one (wrapping).
    pub fn vnanos(&mut self) -> (r: u64)
        ensures
            r == old(self)@,
            final(self)@ == if old(self)@ == u64::MAX {
                0
            } else {
                (old(self)@ + 1) as u64
            },
    {
        let r = self.next;
        self.next = if self.next == u64::MAX {
            0
        } else {
            self.next + 1
        };
        r
    }
}

} // verus!

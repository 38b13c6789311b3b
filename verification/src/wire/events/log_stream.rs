//! `LogLine.stream` values.
use vstd::prelude::*;

verus! {

/// Workload stdout, relayed by the agent.
pub const STDOUT: u8 = 1;
/// Workload stderr, relayed by the agent.
pub const STDERR: u8 = 2;
/// Agent-internal messages.
pub const AGENT: u8 = 3;
/// SDK `log_line` user messages.
pub const SDK_USER: u8 = 4;

} // verus!

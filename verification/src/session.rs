//! The agent's session decisions. The agent dials the daemon, registers,
//! and then reacts to three kinds of event (a metrics tick, a heartbeat
//! acknowledgement, a command from the daemon's stream) until the session
//! ends; it then reconnects after a backoff that doubles up to a cap.
use vstd::prelude::*;

use crate::daemon::NodeCommand;
use crate::text::{chars_equal_str, chars_of};

verus! {

/// Longest wait between reconnect attempts, in milliseconds.
pub const MAX_BACKOFF_MS: u64 = 30000;

/// The wait before the next reconnect attempt: twice the current one, at
/// most `MAX_BACKOFF_MS`.
pub fn next_backoff_ms(current_ms: u64) -> (next: u64)
    ensures
        next == if 2 * current_ms < MAX_BACKOFF_MS { 2 * current_ms } else { MAX_BACKOFF_MS as int },
{
    if current_ms < MAX_BACKOFF_MS / 2 {
        current_ms * 2
    } else {
        MAX_BACKOFF_MS
    }
}

/// The metrics cadence, in seconds, that the daemon's registration reply
/// asks for; zero means it asks for none and the configured cadence holds.
pub fn directed_interval_secs(ack_secs: u32) -> (r: Option<u64>)
    ensures
        r == if ack_secs > 0 { Some(ack_secs as u64) } else { None },
{
    if ack_secs > 0 {
        Some(ack_secs as u64)
    } else {
        None
    }
}

/// Whether the daemon asks the agent to register again.
pub open spec fn asks_reregister(directives: Seq<String>) -> bool {
    exists|i: int| 0 <= i < directives.len() && (#[trigger] directives[i])@ == "reregister"@
}

/// Whether the directives include "reregister".
pub fn has_reregister(d: &Vec<String>) -> (b: bool)
    ensures
        b == asks_reregister(d@),
{
    let mut i: usize = 0;
    while i < d.len()
        invariant
            i <= d@.len(),
            forall|j: int| 0 <= j < i ==> (#[trigger] d@[j])@ != "reregister"@,
        decreases d@.len() - i,
    {
        let c = chars_of(d[i].as_str());
        if chars_equal_str(&c, "reregister") {
            proof {
                assert((d@[i as int])@ == "reregister"@);
            }
            return true;
        }
        i = i + 1;
    }
    false
}

/// Something that happened during a session.
#[derive(Debug)]
pub enum SessionEvent {
    /// The metrics timer fired.
    MetricsDue,
    /// The daemon answered a heartbeat with these directives.
    HeartbeatAcked(Vec<String>),
    /// The daemon pushed a command; `None` when it carried no payload.
    CommandReceived(Option<NodeCommand>),
    /// The daemon closed the command stream.
    StreamClosed,
}

/// What the agent does next.
#[derive(Debug)]
pub enum SessionAction {
    /// Sample the node and send a metrics report.
    SendMetrics,
    /// Keep going.
    Continue,
    /// Run the command and report its outcome.
    Execute(NodeCommand),
    /// Skip a command without payload.
    SkipEmptyCommand,
    /// End the session (and reconnect).
    EndSession,
}

/// Decide the next action: a metrics tick sends metrics; a heartbeat reply
/// asking to register again ends the session, any other continues; a
/// command is executed, one without payload skipped; a closed stream ends
/// the session.
pub fn session_step(event: SessionEvent) -> (a: SessionAction)
    ensures
        match event {
            SessionEvent::MetricsDue => a is SendMetrics,
            SessionEvent::HeartbeatAcked(d) => if asks_reregister(d@) {
                a is EndSession
            } else {
                a is Continue
            },
            SessionEvent::CommandReceived(Some(c)) => a == SessionAction::Execute(c),
            SessionEvent::CommandReceived(None) => a is SkipEmptyCommand,
            SessionEvent::StreamClosed => a is EndSession,
        },
{
    match event {
        SessionEvent::MetricsDue => SessionAction::SendMetrics,
        SessionEvent::HeartbeatAcked(d) => {
            if has_reregister(&d) {
                SessionAction::EndSession
            } else {
                SessionAction::Continue
            }
        },
        SessionEvent::CommandReceived(Some(c)) => SessionAction::Execute(c),
        SessionEvent::CommandReceived(None) => SessionAction::SkipEmptyCommand,
        SessionEvent::StreamClosed => SessionAction::EndSession,
    }
}

} // verus!

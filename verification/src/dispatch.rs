//! The stream dispatcher: turns the raw output of one agent process into
//! events for the approver-facing channel.
//!
//! Per process, three readers run independently: stdout is decoded line by
//! line as JSON messages, stderr is forwarded as free text, and the exit
//! watcher removes the session from the registry before the completion event
//! is emitted, so a listener reacting to it can start the session anew
//! without racing the old entry.

use vstd::prelude::*;
use crate::messages::{ClaudeMessage, MessageV, message_of_line, decode_stdout_line};
use crate::registry::SessionRegistry;
use vstd::string::StrSliceExecFns;

verus! {

/// A decoded message event, wrapped with its session.
pub struct ClaudeEvent {
    pub session_id: String,
    pub message: ClaudeMessage,
}

/// A line of the agent's stderr, forwarded as free text.
pub struct ClaudeError {
    pub session_id: String,
    pub error: String,
}

/// A process-completion event; the exit code is absent where it could not be
/// determined, for example after a signal.
pub struct ClaudeDone {
    pub session_id: String,
    pub exit_code: Option<i32>,
}

/// Whether a line of stdout produces a message event: non-empty and decoding
/// as a structured message.
pub open spec fn well_formed_line(s: Seq<char>) -> bool {
    s.len() > 0 && message_of_line(s) is Some
}

/// The models of a list of lines.
pub open spec fn line_views(s: Seq<String>) -> Seq<Seq<char>> {
    Seq::new(s.len(), |i: int| s[i]@)
}

/// The messages that a sequence of stdout lines produces: exactly one per
/// well-formed line, in order; empty and malformed lines produce none.
pub open spec fn stdout_messages(lines: Seq<Seq<char>>) -> Seq<MessageV>
    decreases lines,
{
    if lines.len() == 0 {
        Seq::empty()
    } else {
        let rest = stdout_messages(lines.drop_last());
        if well_formed_line(lines.last()) {
            rest + seq![message_of_line(lines.last()).unwrap()]
        } else {
            rest
        }
    }
}

/// Handles one line of stdout: an empty line is skipped, a malformed line is
/// discarded without stopping the reader, and a well-formed line becomes a
/// message event for this session.
pub fn process_stdout_line(session_id: &str, line: &str) -> (r: Option<ClaudeEvent>)
    ensures
        r is Some <==> well_formed_line(line@),
        r matches Some(e) ==> e.session_id@ == session_id@ && message_of_line(line@) == Some(
            e.message@,
        ),
{
    if line.unicode_len() == 0 {
        return None;
    }
    match decode_stdout_line(line) {
        Some(message) => Some(
            ClaudeEvent { session_id: session_id.to_owned(), message },
        ),
        None => None,
    }
}

/// Handles one line of stderr: each non-empty line becomes an error event
/// carrying the raw text.
pub fn process_stderr_line(session_id: &str, line: &str) -> (r: Option<ClaudeError>)
    ensures
        r is Some <==> line@.len() > 0,
        r matches Some(e) ==> e.session_id@ == session_id@ && e.error@ == line@,
{
    if line.unicode_len() == 0 {
        return None;
    }
    Some(ClaudeError { session_id: session_id.to_owned(), error: line.to_owned() })
}

/// Dispatches a sequence of stdout lines in order: the events are exactly
/// one message event per well-formed line, each carrying this session's
/// identifier; malformed lines are dropped and reading continues.
#[verifier::loop_isolation(false)]
pub fn dispatch_stdout_lines(session_id: &str, lines: &Vec<String>) -> (r: Vec<ClaudeEvent>)
    ensures
        r@.len() == stdout_messages(line_views(lines@)).len(),
        forall|j: int|
            0 <= j < r@.len() ==> (#[trigger] r@[j]).session_id@ == session_id@ && r@[j].message@
                == stdout_messages(line_views(lines@))[j],
{
    let ghost lv = line_views(lines@);
    proof {
        assert(lv.take(0) =~= Seq::<Seq<char>>::empty());
    }
    let mut out: Vec<ClaudeEvent> = Vec::new();
    let mut i: usize = 0;
    while i < lines.len()
        invariant
            i <= lv.len(),
            out@.len() == stdout_messages(lv.take(i as int)).len(),
            forall|j: int|
                0 <= j < out@.len() ==> (#[trigger] out@[j]).session_id@ == session_id@ && out@[
                    j
                ].message@ == stdout_messages(lv.take(i as int))[j],
        decreases lv.len() - i,
    {
        proof {
            assert(lv.take(i as int + 1).drop_last() =~= lv.take(i as int));
            assert(lv.take(i as int + 1).last() == lv[i as int]);
        }
        match process_stdout_line(session_id, lines[i].as_str()) {
            Some(e) => {
                out.push(e);
            },
            None => {},
        }
        i += 1;
    }
    proof {
        assert(lv.take(lv.len() as int) =~= lv);
    }
    out
}

/// Handles process termination: removes the session from the registry (a
/// missing entry is tolerated, for a session stopped explicitly), then hands
/// back the completion event, to be emitted only after the removal.
pub fn handle_exit<H>(
    registry: &mut SessionRegistry<H>,
    session_id: &str,
    exit_code: Option<i32>,
) -> (r: ClaudeDone)
    requires
        old(registry).wf(),
    ensures
        final(registry).wf(),
        final(registry)@ == old(registry)@.remove(session_id@),
        r.session_id@ == session_id@,
        r.exit_code == exit_code,
{
    let removed = registry.remove(session_id);
    proof {
        if removed is None {
            assert(registry@.remove(session_id@) =~= registry@);
        }
    }
    ClaudeDone { session_id: session_id.to_owned(), exit_code }
}

} // verus!

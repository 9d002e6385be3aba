//! The monitor supervisor: restart/backoff policy for the audit child
//! process, malformed-line accounting, and extraction of executable paths
//! from the event stream.
//!
//! The caller owns the child process and its reader thread; every decision
//! — how long to wait before a respawn, when the delay resets, what a line
//! of output means — is made here.

use vstd::prelude::*;

use crate::BACKOFF_INITIAL_SECS;
use crate::BACKOFF_MAX_SECS;

verus! {

/// What an event line yields. `None`: the line is malformed (not a JSON
/// event, or an exec event missing its target path). `Some(None)`: a
/// well-formed event that is not an exec. `Some(Some(path))`: an exec
/// event and its executable path.
///
/// The result of parsing depends on the line's characters alone; this
/// names it, and `parse_exec_event_line` is the one place that computes it.
pub uninterp spec fn parsed_event_of(line: Seq<char>) -> Option<Option<Seq<char>>>;

pub open spec fn opt_view(o: &Option<String>) -> Option<Seq<char>> {
    match o {
        Some(s) => Some(s@),
        None => None,
    }
}

pub open spec fn parse_view(o: &Option<Option<String>>) -> Option<Option<Seq<char>>> {
    match o {
        Some(Some(s)) => Some(Some(s@)),
        Some(None) => Some(None),
        None => None,
    }
}

/// Relies on serde_json's `from_str`, `Value::get` and `Value::as_str`:
/// whether the line parses as a JSON event, whether that event carries an
/// exec, and what its `event.exec.target.executable.path` string is, are
/// all functions of the line alone.
#[verifier::external_body]
fn parse_exec_event_line(line: &str) -> (r: Option<Option<String>>)
    ensures
        parse_view(&r) == parsed_event_of(line@),
{
    let v: serde_json::Value = match serde_json::from_str(line) {
        Ok(v) => v,
        Err(_) => {
            return None;
        },
    };
    let event = v.get("event")?;
    let exec = match event.get("exec") {
        Some(e) if !e.is_null() => e,
        _ => {
            return Some(None);
        },
    };
    let path = exec.get("target")?.get("executable")?.get("path")?.as_str()?;
    Some(Some(path.to_owned()))
}

/// The delay after one more failed spawn or crash: doubled, capped at the
/// ceiling.
pub open spec fn spec_next_backoff(b: int) -> int {
    if 2 * b < BACKOFF_MAX_SECS {
        2 * b
    } else {
        BACKOFF_MAX_SECS as int
    }
}

/// The delay the supervisor waits after its `n`-th consecutive failure,
/// counting from a fresh (or freshly successful) state.
pub open spec fn spec_backoff_after(n: nat) -> int
    decreases n,
{
    if n == 0 {
        BACKOFF_INITIAL_SECS as int
    } else {
        spec_next_backoff(spec_backoff_after((n - 1) as nat))
    }
}

/// Law: consecutive failure delays never decrease and never exceed the
/// ceiling.
pub proof fn lemma_backoff_monotone_capped(n: nat)
    ensures
        BACKOFF_INITIAL_SECS <= spec_backoff_after(n) <= BACKOFF_MAX_SECS,
        spec_backoff_after(n) <= spec_backoff_after(n + 1),
    decreases n,
{
    if n > 0 {
        lemma_backoff_monotone_capped((n - 1) as nat);
    }
}

/// The supervisor's state: the next respawn delay, the count of malformed
/// lines since it was last drained, and whether a stop was requested.
pub struct Supervisor {
    backoff_secs: u64,
    parse_errors: u64,
    stopped: bool,
}

impl Supervisor {
    pub closed spec fn wf(&self) -> bool {
        BACKOFF_INITIAL_SECS <= self.backoff_secs <= BACKOFF_MAX_SECS
    }

    pub closed spec fn backoff(&self) -> int {
        self.backoff_secs as int
    }

    pub closed spec fn errors(&self) -> int {
        self.parse_errors as int
    }

    pub closed spec fn is_stopped(&self) -> bool {
        self.stopped
    }

    /// A fresh supervisor: initial delay, no errors, not stopped.
    pub fn new() -> (r: Supervisor)
        ensures
            r.wf(),
            r.backoff() == BACKOFF_INITIAL_SECS,
            r.errors() == 0,
            !r.is_stopped(),
    {
        Supervisor {
            backoff_secs: BACKOFF_INITIAL_SECS,
            parse_errors: 0,
            stopped: false,
        }
    }

    /// The child spawned and streamed: the next failure starts over at the
    /// initial delay.
    pub fn on_spawn_success(&mut self)
        requires
            old(self).wf(),
        ensures
            final(self).wf(),
            final(self).backoff() == BACKOFF_INITIAL_SECS,
            final(self).errors() == old(self).errors(),
            final(self).is_stopped() == old(self).is_stopped(),
    {
        self.backoff_secs = BACKOFF_INITIAL_SECS;
    }

    /// The child crashed, exited unexpectedly, or failed to spawn: the
    /// caller sleeps for the returned delay, and the next delay doubles up
    /// to the ceiling.
    pub fn on_failure(&mut self) -> (delay: u64)
        requires
            old(self).wf(),
        ensures
            final(self).wf(),
            delay == old(self).backoff(),
            BACKOFF_INITIAL_SECS <= delay <= BACKOFF_MAX_SECS,
            final(self).backoff() == spec_next_backoff(old(self).backoff()),
            final(self).errors() == old(self).errors(),
            final(self).is_stopped() == old(self).is_stopped(),
    {
        let delay = self.backoff_secs;
        if self.backoff_secs < BACKOFF_MAX_SECS / 2 {
            self.backoff_secs = self.backoff_secs * 2;
        } else {
            self.backoff_secs = BACKOFF_MAX_SECS;
        }
        delay
    }

    /// A stop was requested: no further restarts.
    pub fn request_stop(&mut self)
        requires
            old(self).wf(),
        ensures
            final(self).wf(),
            final(self).is_stopped(),
            final(self).backoff() == old(self).backoff(),
            final(self).errors() == old(self).errors(),
    {
        self.stopped = true;
    }

    /// Whether the loop should spawn (again): only while no stop was
    /// requested.
    pub fn should_run(&self) -> (r: bool)
        ensures
            r == !self.is_stopped(),
    {
        !self.stopped
    }

    /// One line of the child's output: an exec event yields the path to
    /// forward; a well-formed non-exec event is skipped; a malformed line
    /// counts as a parse error and is dropped rather than failing the
    /// stream.
    pub fn handle_line(&mut self, line: &str) -> (r: Option<String>)
        requires
            old(self).wf(),
        ensures
            final(self).wf(),
            opt_view(&r) == (match parsed_event_of(line@) {
                Some(p) => p,
                None => None,
            }),
            final(self).backoff() == old(self).backoff(),
            final(self).is_stopped() == old(self).is_stopped(),
            (parsed_event_of(line@) is Some ==> final(self).errors() == old(self).errors()),
            (parsed_event_of(line@) is None ==> final(self).errors() == if old(self).errors()
                < u64::MAX {
                old(self).errors() + 1
            } else {
                old(self).errors()
            }),
    {
        match parse_exec_event_line(line) {
            Some(path) => path,
            None => {
                if self.parse_errors < u64::MAX {
                    self.parse_errors = self.parse_errors + 1;
                }
                None
            },
        }
    }

    /// Drain the malformed-line count: return it and reset it to zero.
    pub fn take_parse_errors(&mut self) -> (r: u64)
        requires
            old(self).wf(),
        ensures
            final(self).wf(),
            r == old(self).errors(),
            final(self).errors() == 0,
            final(self).backoff() == old(self).backoff(),
            final(self).is_stopped() == old(self).is_stopped(),
    {
        let r = self.parse_errors;
        self.parse_errors = 0;
        r
    }
}

} // verus!

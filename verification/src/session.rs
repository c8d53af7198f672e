//! Profiling sessions: their states, counters and outcome, and how a
//! session's running time is shown.
use vstd::prelude::*;
use std::time::{Duration, Instant};
use crate::text::{owned, push_str, write_dec, dec_seq};
use crate::error::{ProfilerError, Result, display_spec};
use crate::analysis::exporter::AnalysisResult;

verus! {

/// Where a profiling session stands.
#[derive(Debug, Clone, Copy, PartialEq, Eq, Structural)]
pub enum SessionState {
    Initializing,
    Running { process_id: Option<u32> },
    Paused,
    Stopping,
    Completed,
    Failed,
}

/// A state's name, with the target's id when running with one.
pub open spec fn state_text(s: SessionState) -> Seq<char> {
    match s {
        SessionState::Initializing => "Initializing"@,
        SessionState::Running { process_id: None } => "Running"@,
        SessionState::Running { process_id: Some(p) } => "Running (PID: "@ + dec_seq(p as nat) + ")"@,
        SessionState::Paused => "Paused"@,
        SessionState::Stopping => "Stopping"@,
        SessionState::Completed => "Completed"@,
        SessionState::Failed => "Failed"@,
    }
}

impl SessionState {
    /// The state's name, with the target's id when running with one (what
    /// `Display` prints).
    pub fn to_display_string(&self) -> (r: String)
        ensures
            r@ == state_text(*self),
    {
        match self {
            SessionState::Initializing => owned("Initializing"),
            SessionState::Running { process_id: None } => owned("Running"),
            SessionState::Running { process_id: Some(p) } => {
                let mut s = owned("Running (PID: ");
                write_dec(&mut s, *p as u64);
                push_str(&mut s, ")");
                s
            },
            SessionState::Paused => owned("Paused"),
            SessionState::Stopping => owned("Stopping"),
            SessionState::Completed => owned("Completed"),
            SessionState::Failed => owned("Failed"),
        }
    }
}

/// Seconds as `Ns`, `Mm Ns` from a minute on, `Hh Mm Ns` from an hour on.
pub open spec fn elapsed_text(secs: u64) -> Seq<char> {
    if secs < 60 {
        dec_seq(secs as nat) + "s"@
    } else if secs < 3600 {
        dec_seq((secs / 60) as nat) + "m "@ + dec_seq((secs % 60) as nat) + "s"@
    } else {
        dec_seq((secs / 3600) as nat) + "h "@ + dec_seq(((secs % 3600) / 60) as nat) + "m "@ + dec_seq((secs % 60) as nat)
            + "s"@
    }
}

/// A session's running time in whole seconds, as `elapsed_text` shows it.
pub fn format_elapsed(secs: u64) -> (r: String)
    ensures
        r@ == elapsed_text(secs),
{
    let mut s = String::new();
    if secs < 60 {
        write_dec(&mut s, secs);
        push_str(&mut s, "s");
    } else if secs < 3600 {
        write_dec(&mut s, secs / 60);
        push_str(&mut s, "m ");
        write_dec(&mut s, secs % 60);
        push_str(&mut s, "s");
    } else {
        write_dec(&mut s, secs / 3600);
        push_str(&mut s, "h ");
        write_dec(&mut s, (secs % 3600) / 60);
        push_str(&mut s, "m ");
        write_dec(&mut s, secs % 60);
        push_str(&mut s, "s");
    }
    s
}

#[verifier::external_type_specification]
#[verifier::external_body]
pub struct ExInstant(Instant);

/// A fresh random session id: `uuid::Uuid::new_v4()` as a number. Every id
/// it gives has the version-4 nibble and the RFC 4122 variant bits set, as
/// the crate's source masks them in; the other bits are random.
#[verifier::external_body]
fn new_session_id() -> (r: u128)
    ensures
        (r >> 76u128) & 0xfu128 == 4,
        (r >> 62u128) & 0x3u128 == 2,
{
    uuid::Uuid::new_v4().as_u128()
}

/// The current instant of the monotonic clock (`Instant::now`); nothing is
/// known of it.
#[verifier::external_body]
fn instant_now() -> (r: Instant) {
    Instant::now()
}

/// The time since `start` (`Instant::elapsed`); it depends on the clock,
/// so nothing is stated of it.
#[verifier::external_body]
fn elapsed_since(start: &Instant) -> (r: Duration) {
    start.elapsed()
}

/// A duration in whole microseconds (`Duration::as_micros`). The duration
/// is opaque here, so nothing is stated of the number.
#[verifier::external_body]
pub(crate) fn whole_micros(d: &Duration) -> (r: u128) {
    d.as_micros()
}

/// One profiling session: its state, its target, its outcome and its
/// counters.
pub struct ProfilerSession {
    session_id: u128,
    start_time: Instant,
    state: SessionState,
    target_process_id: Option<u32>,
    result: Option<AnalysisResult>,
    error: Option<ProfilerError>,
    cancelled: bool,
    sample_count: u64,
    resolved_stacks: u64,
    thread_count: usize,
}

/// What a session records, apart from its id: its state, target, start
/// instant, result, error and counters.
pub struct SessionRecord {
    pub state: SessionState,
    pub target_process_id: Option<u32>,
    pub started: Instant,
    pub result: Option<AnalysisResult>,
    pub error: Option<ProfilerError>,
    pub cancelled: bool,
    pub sample_count: u64,
    pub resolved_stacks: u64,
    pub thread_count: usize,
}

impl ProfilerSession {
    pub closed spec fn id(&self) -> u128 {
        self.session_id
    }

    pub closed spec fn record(&self) -> SessionRecord {
        SessionRecord {
            state: self.state,
            target_process_id: self.target_process_id,
            started: self.start_time,
            result: self.result,
            error: self.error,
            cancelled: self.cancelled,
            sample_count: self.sample_count,
            resolved_stacks: self.resolved_stacks,
            thread_count: self.thread_count,
        }
    }

    /// A new session with a fresh random id, starting now, initialising.
    pub fn new() -> (r: Self)
        ensures
            r.record() == (SessionRecord { state: SessionState::Initializing, target_process_id: None,
                started: r.record().started, result: None, error: None, cancelled: false, sample_count: 0,
                resolved_stacks: 0, thread_count: 0 }),
            (r.id() >> 76u128) & 0xfu128 == 4,
    {
        ProfilerSession {
            session_id: new_session_id(),
            start_time: instant_now(),
            state: SessionState::Initializing,
            target_process_id: None,
            result: None,
            error: None,
            cancelled: false,
            sample_count: 0,
            resolved_stacks: 0,
            thread_count: 0,
        }
    }

    pub fn session_id(&self) -> (r: u128)
        ensures
            r == self.id(),
    {
        self.session_id
    }

    pub fn start_time(&self) -> (r: &Instant)
        ensures
            *r == self.record().started,
    {
        &self.start_time
    }

    /// The time since the session started.
    pub fn elapsed(&self) -> (r: Duration) {
        elapsed_since(&self.start_time)
    }

    /// Whole microseconds since the session started, cut to 64 bits.
    pub fn elapsed_us(&self) -> (r: u64) {
        let d = elapsed_since(&self.start_time);
        let us = whole_micros(&d);
        #[verifier::truncate]
        (us as u64)
    }

    pub fn state(&self) -> (r: SessionState)
        ensures
            r == self.record().state,
    {
        self.state
    }

    pub fn set_state(&mut self, new_state: SessionState)
        ensures
            final(self).id() == old(self).id(),
            final(self).record() == (SessionRecord { state: new_state, ..old(self).record() }),
    {
        self.state = new_state;
    }

    /// Running, on the given target (recorded as the target too).
    pub fn mark_running(&mut self, process_id: Option<u32>)
        ensures
            final(self).id() == old(self).id(),
            final(self).record() == (SessionRecord { state: SessionState::Running { process_id },
                target_process_id: process_id, ..old(self).record() }),
    {
        self.set_state(SessionState::Running { process_id });
        self.target_process_id = process_id;
    }

    pub fn mark_paused(&mut self)
        ensures
            final(self).id() == old(self).id(),
            final(self).record() == (SessionRecord { state: SessionState::Paused, ..old(self).record() }),
    {
        self.set_state(SessionState::Paused);
    }

    pub fn mark_stopping(&mut self)
        ensures
            final(self).id() == old(self).id(),
            final(self).record() == (SessionRecord { state: SessionState::Stopping, ..old(self).record() }),
    {
        self.set_state(SessionState::Stopping);
    }

    pub fn mark_completed(&mut self)
        ensures
            final(self).id() == old(self).id(),
            final(self).record() == (SessionRecord { state: SessionState::Completed, ..old(self).record() }),
    {
        self.set_state(SessionState::Completed);
    }

    /// Failed, keeping the error.
    pub fn mark_failed(&mut self, error: ProfilerError)
        ensures
            final(self).id() == old(self).id(),
            final(self).record() == (SessionRecord { state: SessionState::Failed, error: Some(error),
                ..old(self).record() }),
    {
        self.set_state(SessionState::Failed);
        self.error = Some(error);
    }

    pub fn is_running(&self) -> (r: bool)
        ensures
            r == self.record().state is Running,
    {
        match self.state {
            SessionState::Running { .. } => true,
            _ => false,
        }
    }

    pub fn is_completed(&self) -> (r: bool)
        ensures
            r == (self.record().state == SessionState::Completed),
    {
        match self.state {
            SessionState::Completed => true,
            _ => false,
        }
    }

    pub fn is_failed(&self) -> (r: bool)
        ensures
            r == (self.record().state == SessionState::Failed),
    {
        match self.state {
            SessionState::Failed => true,
            _ => false,
        }
    }

    pub fn is_cancelled(&self) -> (r: bool)
        ensures
            r == self.record().cancelled,
    {
        self.cancelled
    }

    /// Asks the session to stop: cancelled, and stopping.
    pub fn cancel(&mut self)
        ensures
            final(self).id() == old(self).id(),
            final(self).record() == (SessionRecord { cancelled: true, state: SessionState::Stopping,
                ..old(self).record() }),
    {
        self.cancelled = true;
        self.mark_stopping();
    }

    pub fn target_process_id(&self) -> (r: Option<u32>)
        ensures
            r == self.record().target_process_id,
    {
        self.target_process_id
    }

    /// Keeps the result; the session is then completed.
    pub fn set_result(&mut self, result: AnalysisResult)
        ensures
            final(self).id() == old(self).id(),
            final(self).record() == (SessionRecord { result: Some(result), state: SessionState::Completed,
                ..old(self).record() }),
    {
        self.state = SessionState::Completed;
        self.result = Some(result);
    }

    pub fn get_result(&self) -> (r: Option<&AnalysisResult>)
        ensures
            r == match self.record().result { Some(x) => Some(&x), None => None },
    {
        match &self.result {
            Some(x) => Some(x),
            None => None,
        }
    }

    /// The message of the error the session failed with, if any.
    pub fn get_error(&self) -> (r: Option<String>)
        ensures
            match r {
                Some(m) => self.record().error matches Some(e) && display_spec(e) == m@,
                None => self.record().error is None,
            },
    {
        match &self.error {
            Some(e) => Some(e.to_display_string()),
            None => None,
        }
    }

    /// Adds to the sample count (wrapping around at 64 bits).
    pub fn increment_samples(&mut self, count: u64)
        ensures
            final(self).id() == old(self).id(),
            final(self).record() == (SessionRecord {
                sample_count: old(self).record().sample_count.wrapping_add(count),
                ..old(self).record() }),
    {
        self.sample_count = self.sample_count.wrapping_add(count);
    }

    pub fn sample_count(&self) -> (r: u64)
        ensures
            r == self.record().sample_count,
    {
        self.sample_count
    }

    /// Adds to the count of resolved stacks (wrapping around at 64 bits).
    pub fn increment_resolved(&mut self, count: u64)
        ensures
            final(self).id() == old(self).id(),
            final(self).record() == (SessionRecord {
                resolved_stacks: old(self).record().resolved_stacks.wrapping_add(count),
                ..old(self).record() }),
    {
        self.resolved_stacks = self.resolved_stacks.wrapping_add(count);
    }

    pub fn resolved_count(&self) -> (r: u64)
        ensures
            r == self.record().resolved_stacks,
    {
        self.resolved_stacks
    }

    pub fn set_thread_count(&mut self, count: usize)
        ensures
            final(self).id() == old(self).id(),
            final(self).record() == (SessionRecord { thread_count: count, ..old(self).record() }),
    {
        self.thread_count = count;
    }

    pub fn thread_count(&self) -> (r: usize)
        ensures
            r == self.record().thread_count,
    {
        self.thread_count
    }

    /// The session's figures now.
    pub fn stats(&self) -> (r: SessionStats)
        ensures
            r.session_id == self.id(),
            r.state == self.record().state,
            r.sample_count == self.record().sample_count,
            r.resolved_stacks == self.record().resolved_stacks,
            r.thread_count == self.record().thread_count,
            r.target_process_id == self.record().target_process_id,
    {
        SessionStats {
            session_id: self.session_id,
            elapsed_us: self.elapsed_us(),
            state: self.state,
            sample_count: self.sample_count,
            resolved_stacks: self.resolved_stacks,
            thread_count: self.thread_count,
            target_process_id: self.target_process_id,
        }
    }

    /// One look while waiting for the session to end: `None` to keep
    /// waiting; done when completed, or cancelled; failed with the
    /// session's error (or "Unknown error") when failed, or with "Wait
    /// timeout" once the wait has timed out.
    pub fn completion_step(&self, timed_out: bool) -> (r: Option<Result<()>>)
        ensures
            self.record().state == SessionState::Completed ==> r == Some(Ok::<(), ProfilerError>(())),
            self.record().state == SessionState::Failed ==> (r matches Some(Err(ProfilerError::Generic(m)))
                && m@ == match self.record().error { Some(e) => display_spec(e), None => "Unknown error"@ }),
            (self.record().state != SessionState::Completed && self.record().state != SessionState::Failed) ==> {
                &&& timed_out ==> (r matches Some(Err(ProfilerError::Generic(m))) && m@ == "Wait timeout"@)
                &&& !timed_out && self.record().cancelled ==> r == Some(Ok::<(), ProfilerError>(()))
                &&& !timed_out && !self.record().cancelled ==> r is None
            },
    {
        match self.state {
            SessionState::Completed => Some(Ok(())),
            SessionState::Failed => {
                let msg = match self.get_error() {
                    Some(m) => m,
                    None => owned("Unknown error"),
                };
                Some(Err(ProfilerError::Generic(msg)))
            },
            _ => {
                if timed_out {
                    Some(Err(ProfilerError::Generic(owned("Wait timeout"))))
                } else if self.cancelled {
                    Some(Ok(()))
                } else {
                    None
                }
            },
        }
    }
}

/// A session's figures at one moment.
#[derive(Debug, Clone, Copy)]
pub struct SessionStats {
    pub session_id: u128,
    /// Microseconds since the session started.
    pub elapsed_us: u64,
    pub state: SessionState,
    pub sample_count: u64,
    pub resolved_stacks: u64,
    pub thread_count: usize,
    pub target_process_id: Option<u32>,
}

impl SessionStats {
    /// The running time in whole seconds, as `elapsed_text` shows it.
    pub fn format_elapsed(&self) -> (r: String)
        ensures
            r@ == elapsed_text(self.elapsed_us / 1_000_000),
    {
        format_elapsed(self.elapsed_us / 1_000_000)
    }
}

} // verus!

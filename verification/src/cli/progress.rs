//! Snapshots of a profiling run's progress and how elapsed time is shown.
use vstd::prelude::*;
use crate::text::{owned, push_str, write_dec, dec_seq};
use crate::session::{format_elapsed, elapsed_text};

verus! {

/// How far a profiling run has got.
#[derive(Debug, Clone)]
pub struct ProfilerProgress {
    pub samples_collected: u64,
    pub stacks_resolved: u64,
    pub threads_tracked: usize,
    /// Time since the start, in microseconds.
    pub elapsed_time_us: u64,
    pub status: String,
}

impl Default for ProfilerProgress {
    fn default() -> (r: Self)
        ensures
            r.samples_collected == 0,
            r.stacks_resolved == 0,
            r.threads_tracked == 0,
            r.elapsed_time_us == 0,
            r.status@ == "Initializing..."@,
    {
        ProfilerProgress {
            samples_collected: 0,
            stacks_resolved: 0,
            threads_tracked: 0,
            elapsed_time_us: 0,
            status: owned("Initializing..."),
        }
    }
}

impl ProfilerProgress {
    pub fn new() -> (r: Self)
        ensures
            r.samples_collected == 0,
            r.stacks_resolved == 0,
            r.threads_tracked == 0,
            r.elapsed_time_us == 0,
            r.status@ == "Initializing..."@,
    {
        Self::default()
    }

    pub fn with_samples(self, samples: u64) -> (r: Self)
        ensures
            r == (ProfilerProgress { samples_collected: samples, ..self }),
    {
        ProfilerProgress { samples_collected: samples, ..self }
    }

    pub fn with_resolved(self, resolved: u64) -> (r: Self)
        ensures
            r == (ProfilerProgress { stacks_resolved: resolved, ..self }),
    {
        ProfilerProgress { stacks_resolved: resolved, ..self }
    }

    pub fn with_threads(self, threads: usize) -> (r: Self)
        ensures
            r == (ProfilerProgress { threads_tracked: threads, ..self }),
    {
        ProfilerProgress { threads_tracked: threads, ..self }
    }

    pub fn with_elapsed(self, elapsed_us: u64) -> (r: Self)
        ensures
            r == (ProfilerProgress { elapsed_time_us: elapsed_us, ..self }),
    {
        ProfilerProgress { elapsed_time_us: elapsed_us, ..self }
    }

    pub fn with_status(self, status: &str) -> (r: Self)
        ensures
            r.status@ == status@,
            r == (ProfilerProgress { status: r.status, ..self }),
    {
        ProfilerProgress { status: owned(status), ..self }
    }
}

/// Whole seconds as `Ns`, `Mm Ns` or `Hh Mm Ns`.
pub fn format_duration(secs: u64) -> (r: String)
    ensures
        r@ == elapsed_text(secs),
{
    format_elapsed(secs)
}

/// A text progress line is due once the reporting interval has passed
/// since the last one.
pub fn report_due(since_last_us: u64, interval_us: u64) -> (r: bool)
    ensures
        r == (since_last_us >= interval_us),
{
    since_last_us >= interval_us
}

/// The text progress line: `[elapsed] Samples: n, Resolved: n, Threads: n - status`.
pub fn progress_line(p: &ProfilerProgress) -> (r: String)
    ensures
        r@ == "["@ + elapsed_text(p.elapsed_time_us / 1_000_000) + "] Samples: "@ + dec_seq(p.samples_collected as nat)
            + ", Resolved: "@ + dec_seq(p.stacks_resolved as nat) + ", Threads: "@ + dec_seq(p.threads_tracked as nat)
            + " - "@ + p.status@,
{
    let mut s = owned("[");
    let e = format_elapsed(p.elapsed_time_us / 1_000_000);
    push_str(&mut s, e.as_str());
    push_str(&mut s, "] Samples: ");
    write_dec(&mut s, p.samples_collected);
    push_str(&mut s, ", Resolved: ");
    write_dec(&mut s, p.stacks_resolved);
    push_str(&mut s, ", Threads: ");
    write_dec(&mut s, p.threads_tracked as u64);
    push_str(&mut s, " - ");
    push_str(&mut s, p.status.as_str());
    s
}

} // verus!

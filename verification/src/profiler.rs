//! What the profiler decides and reports around a run: which samples
//! belong to the target, how its progress is shown, when collection stops
//! and what result it hands over.
use vstd::prelude::*;
use crate::text::owned;
use crate::config::TargetProcess;
use crate::session::{SessionStats, SessionState};
use crate::analysis::aggregator::{StatsAggregator, distinct_threads};
use crate::analysis::exporter::AnalysisResult;
use crate::types::{ProcessStats, ThreadStats};

verus! {

/// A snapshot of a profiling run.
#[derive(Debug, Clone)]
pub struct ProfilerProgress {
    pub samples_collected: u64,
    pub stacks_resolved: u64,
    pub threads_tracked: usize,
    /// Time since the start, in microseconds.
    pub elapsed_time_us: u64,
    pub status: String,
}

impl Default for ProfilerProgress {
    fn default() -> (r: Self)
        ensures
            r.samples_collected == 0,
            r.stacks_resolved == 0,
            r.threads_tracked == 0,
            r.elapsed_time_us == 0,
            r.status@ == "Idle"@,
    {
        ProfilerProgress { samples_collected: 0, stacks_resolved: 0, threads_tracked: 0, elapsed_time_us: 0, status: owned("Idle") }
    }
}

/// A sample of process `process_id` is profiled unless the target is
/// another process given by id.
pub fn is_target_sample(target: &Option<TargetProcess>, process_id: u32) -> (r: bool)
    ensures
        r == match *target { Some(TargetProcess::Pid(p)) => p == process_id, _ => true },
{
    match target {
        Some(t) => match t.as_pid() {
            Some(p) => p == process_id,
            None => true,
        },
        None => true,
    }
}

/// The progress of a run as its session's figures show it.
pub fn progress_of(stats: &SessionStats) -> (r: ProfilerProgress)
    ensures
        r.samples_collected == stats.sample_count,
        r.stacks_resolved == stats.resolved_stacks,
        r.threads_tracked == stats.thread_count,
        r.elapsed_time_us == stats.elapsed_us,
        r.status@ == crate::session::state_text(stats.state),
{
    ProfilerProgress {
        samples_collected: stats.sample_count,
        stacks_resolved: stats.resolved_stacks,
        threads_tracked: stats.thread_count,
        elapsed_time_us: stats.elapsed_us,
        status: stats.state.to_display_string(),
    }
}

/// Whether collection stops now: once the run has lasted its duration
/// (when it has one), or when asked to stop.
pub fn collection_should_stop(duration_us: Option<u64>, elapsed_us: u64, stop_requested: bool) -> (r: bool)
    ensures
        r == (stop_requested || match duration_us { Some(d) => elapsed_us >= d, None => false }),
{
    if stop_requested {
        return true;
    }
    match duration_us {
        Some(d) => elapsed_us >= d,
        None => false,
    }
}

/// How many new samples the aggregator counted since the last look, and
/// the count to remember: nothing new unless the count grew.
pub fn new_samples(current: u64, last_seen: u64) -> (r: (u64, u64))
    ensures
        current > last_seen ==> r == ((current - last_seen) as u64, current),
        current <= last_seen ==> r == (0u64, last_seen),
{
    if current > last_seen {
        (current - last_seen, current)
    } else {
        (0, last_seen)
    }
}

/// The result of a run: the target (0 when none), the aggregator's sample
/// count and threads, and its timing: it starts `start_us` in and lasts
/// `elapsed_us` (the end saturating at `u64::MAX`).
pub fn result_from(aggregator: &StatsAggregator, target_process_id: Option<u32>, start_us: u64, elapsed_us: u64)
    -> (r: AnalysisResult)
    requires
        aggregator.wf(),
    ensures
        r.wf(),
        r.process_stats.process_id == match target_process_id { Some(p) => p, None => 0 },
        r.process_stats.total_samples == 0 && r.process_stats.thread_count == 0 && r.process_stats.process_name is None,
        r.total_samples == aggregator.samples(),
        r.thread_stats@.len() == aggregator.threads().len(),
        forall|i: int| 0 <= i < r.thread_stats@.len() ==> (#[trigger] r.thread_stats@[i]).same_as(aggregator.threads()[i]),
        r.analysis_start_time == start_us,
        r.analysis_end_time == if start_us + elapsed_us > u64::MAX { u64::MAX as int } else { start_us + elapsed_us },
        r.flame_graph is None && r.top_functions@.len() == 0 && r.hot_paths@.len() == 0,
{
    let pid = match target_process_id {
        Some(p) => p,
        None => 0,
    };
    let mut result = AnalysisResult::new(ProcessStats::new(pid));
    result.total_samples = aggregator.total_samples();
    let threads = aggregator.get_all_thread_stats();
    let mut copies: Vec<ThreadStats> = Vec::new();
    let mut i: usize = 0;
    while i < threads.len()
        invariant
            i <= threads@.len(),
            threads@ == aggregator.threads(),
            copies@.len() == i,
            forall|j: int| 0 <= j < i ==> (#[trigger] copies@[j]).same_as(threads@[j]),
        decreases threads@.len() - i,
    {
        copies.push(threads[i].copy());
        i = i + 1;
    }
    proof {
        assert forall|a: int, b: int| 0 <= a < b < copies@.len() implies copies@[a].thread_id != copies@[b].thread_id by {
            assert(copies@[a].same_as(threads@[a]));
            assert(copies@[b].same_as(threads@[b]));
        }
        assert forall|a: int| 0 <= a < copies@.len() implies (#[trigger] copies@[a]).wf() by {
            assert(copies@[a].same_as(threads@[a]));
            assert(threads@[a].wf());
        }
    }
    result.thread_stats = copies;
    result.analysis_start_time = start_us;
    result.analysis_end_time = start_us.saturating_add(elapsed_us);
    result
}

} // verus!

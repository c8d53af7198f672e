//! Analysis of collected stacks: flame graphs, per-thread statistics and
//! per-function statistics.
use vstd::prelude::*;
use crate::types::{FunctionStats, ThreadId, ThreadStats, merged};
use crate::error::Result;
use crate::stackwalker::collector::CollectedStack;
use crate::analysis::exporter::AnalysisResult;
use crate::analysis::thread_analyzer::CallPath;

pub mod flamegraph;
pub mod aggregator;
pub mod function_stats;
pub mod thread_analyzer;
pub mod exporter;

verus! {

/// What an analysis strategy offers: stacks in, a result out.
pub trait Analyzer: Send + Sync {
    fn analyze(&mut self, stack: &CollectedStack) -> Result<()>;

    fn get_result(&self) -> AnalysisResult;

    fn reset(&mut self);

    fn sample_count(&self) -> u64;
}

/// What a statistics aggregator offers.
pub trait StatsAggregatorTrait: Send + Sync {
    fn process_stack(&mut self, stack: &CollectedStack) -> Result<()>;

    fn get_thread_stats(&self, thread_id: ThreadId) -> Option<&ThreadStats>;

    fn get_all_thread_stats(&self) -> &Vec<ThreadStats>;

    fn get_function_stats(&self, thread_id: ThreadId, function_name: &str) -> Option<&FunctionStats>;

    fn get_top_functions(&self, thread_id: ThreadId, limit: usize) -> Vec<FunctionStats>;

    fn reset(&mut self);

    fn total_samples(&self) -> u64;
}

/// What a hot-path analyzer offers.
pub trait HotPathAnalyzer: Send + Sync {
    fn find_hot_paths(&self, depth: usize) -> Vec<CallPath>;

    fn get_callers(&self, function_name: &str) -> Vec<String>;

    fn get_callees(&self, function_name: &str) -> Vec<String>;
}

/// The first entry with every later one merged into it, in order.
pub open spec fn merge_all(s: Seq<FunctionStats>) -> FunctionStats
    decreases s.len(),
{
    if s.len() <= 1 { s[0] } else { merged(merge_all(s.drop_last()), s.last()) }
}

/// Merges a list of function statistics into the first; `None` when the
/// list is empty.
pub fn merge_function_stats(stats: &[FunctionStats]) -> (r: Option<FunctionStats>)
    ensures
        stats@.len() == 0 ==> r is None,
        stats@.len() > 0 ==> r == Some(merge_all(stats@)),
{
    if stats.len() == 0 {
        return None;
    }
    let mut m = stats[0].copy();
    let mut i: usize = 1;
    assert(merge_all(stats@.subrange(0, 1)) == stats@[0]);
    while i < stats.len()
        invariant
            1 <= i <= stats@.len(),
            m == merge_all(stats@.subrange(0, i as int)),
        decreases stats@.len() - i,
    {
        m.merge(&stats[i]);
        proof {
            let s1 = stats@.subrange(0, i + 1);
            assert(s1.drop_last() =~= stats@.subrange(0, i as int));
        }
        i = i + 1;
    }
    assert(stats@.subrange(0, i as int) =~= stats@);
    Some(m)
}

/// Settings of an analysis.
#[derive(Debug, Clone, Copy)]
pub struct AnalysisConfig {
    pub enable_call_graph: bool,
    pub enable_flame_graph: bool,
    /// How deep hot paths are followed.
    pub hot_path_depth: usize,
    /// The fewest samples a function needs to be reported.
    pub min_sample_threshold: u64,
    pub sample_interval_ms: u32,
}

impl Default for AnalysisConfig {
    fn default() -> (r: Self)
        ensures
            r.enable_call_graph,
            r.enable_flame_graph,
            r.hot_path_depth == 10,
            r.min_sample_threshold == 1,
            r.sample_interval_ms == 1,
    {
        AnalysisConfig {
            enable_call_graph: true,
            enable_flame_graph: true,
            hot_path_depth: 10,
            min_sample_threshold: 1,
            sample_interval_ms: 1,
        }
    }
}

/// Counters of an analysis run.
#[derive(Debug, Clone, Copy)]
pub struct AnalysisStats {
    pub total_samples: u64,
    pub skipped_samples: u64,
    pub resolved_stacks: u64,
    pub failed_stacks: u64,
    pub analysis_duration_us: u64,
}

impl Default for AnalysisStats {
    fn default() -> (r: Self)
        ensures
            r.total_samples == 0,
            r.skipped_samples == 0,
            r.resolved_stacks == 0,
            r.failed_stacks == 0,
            r.analysis_duration_us == 0,
    {
        AnalysisStats { total_samples: 0, skipped_samples: 0, resolved_stacks: 0, failed_stacks: 0, analysis_duration_us: 0 }
    }
}

} // verus!

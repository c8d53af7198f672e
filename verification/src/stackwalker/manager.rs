//! Settings of stack collection and the outcome of processing a sample.
use vstd::prelude::*;
use crate::stackwalker::collector::CollectedStack;
use crate::types::ProcessId;

verus! {

/// How stacks are collected.
#[derive(Debug, Clone, Copy)]
pub struct StackManagerConfig {
    pub max_stack_depth: usize,
    pub enable_kernel_stack: bool,
    pub skip_system_modules: bool,
    pub max_cache_entries: usize,
    pub enable_filtering: bool,
}

impl Default for StackManagerConfig {
    fn default() -> (r: Self)
        ensures
            r.max_stack_depth == 64,
            r.enable_kernel_stack,
            !r.skip_system_modules,
            r.max_cache_entries == 10000,
            r.enable_filtering,
    {
        StackManagerConfig {
            max_stack_depth: 64,
            enable_kernel_stack: true,
            skip_system_modules: false,
            max_cache_entries: 10000,
            enable_filtering: true,
        }
    }
}

impl StackManagerConfig {
    pub fn new() -> (r: Self)
        ensures
            r.max_stack_depth == 64,
            r.enable_kernel_stack,
            !r.skip_system_modules,
            r.max_cache_entries == 10000,
            r.enable_filtering,
    {
        Self::default()
    }

    pub fn with_max_depth(self, depth: usize) -> (r: Self)
        ensures
            r == (StackManagerConfig { max_stack_depth: depth, ..self }),
    {
        StackManagerConfig { max_stack_depth: depth, ..self }
    }

    pub fn with_kernel_stack(self, enable: bool) -> (r: Self)
        ensures
            r == (StackManagerConfig { enable_kernel_stack: enable, ..self }),
    {
        StackManagerConfig { enable_kernel_stack: enable, ..self }
    }

    pub fn with_skip_system_modules(self, skip: bool) -> (r: Self)
        ensures
            r == (StackManagerConfig { skip_system_modules: skip, ..self }),
    {
        StackManagerConfig { skip_system_modules: skip, ..self }
    }

    pub fn with_max_cache_entries(self, max: usize) -> (r: Self)
        ensures
            r == (StackManagerConfig { max_cache_entries: max, ..self }),
    {
        StackManagerConfig { max_cache_entries: max, ..self }
    }

    pub fn with_filtering(self, enable: bool) -> (r: Self)
        ensures
            r == (StackManagerConfig { enable_filtering: enable, ..self }),
    {
        StackManagerConfig { enable_filtering: enable, ..self }
    }
}

/// What became of a sample's stack.
#[derive(Debug, Clone)]
pub enum StackProcessResult {
    Collected(CollectedStack),
    /// A filter left it out.
    Filtered,
    Failed(String),
}

/// What receives the outcome of each stack collection.
pub trait StackSampleHandler: Send + Sync {
    fn handle_stack(&mut self, stack: &CollectedStack);

    fn handle_filtered(&mut self, process_id: ProcessId, thread_id: u32);

    fn handle_error(&mut self, error: &str, process_id: ProcessId);
}

} // verus!

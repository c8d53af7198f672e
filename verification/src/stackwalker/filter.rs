//! Stack filters: predicates on whole stacks and on single frames, and
//! their combinations.
use vstd::prelude::*;
use crate::stackwalker::collector::{CollectedStack, FrameType, ResolvedFrame, count_type};
use crate::stackwalker::{is_system_module, names_system_module};
use crate::text::{contains_seq, copy_string, lowercase, owned, push_str, str_contains, str_eq, to_lower, views, join_seq};
use crate::types::ProcessId;

verus! {

/// A predicate on stacks and on single frames.
pub trait StackFilter {
    /// Whether a stack is kept.
    spec fn includes(&self, stack: CollectedStack) -> bool;

    /// Whether a frame of a kept stack is kept.
    spec fn includes_frame(&self, frame: ResolvedFrame) -> bool;

    /// The filter's name.
    spec fn name_spec(&self) -> Seq<char>;

    fn should_include(&self, stack: &CollectedStack) -> (r: bool)
        ensures
            r == self.includes(*stack);

    fn should_include_frame(&self, frame: &ResolvedFrame) -> (r: bool)
        ensures
            r == self.includes_frame(*frame);

    fn name(&self) -> (r: &str)
        ensures
            r@ == self.name_spec();

    fn description(&self) -> String {
        String::new()
    }
}

/// Leaves out frames of system modules (and of the extra modules named), or,
/// inverted, frames of every other module.
pub struct SystemModuleFilter {
    extra_modules: Vec<String>,
    invert: bool,
    filter_entire_stack: bool,
}

/// The module named `name` counts as a system module for the filter: a known
/// system image or one of `extra` occurs in its lower-cased name (the answer
/// flipped when inverted).
pub open spec fn counts_as_system(extra: Seq<Seq<char>>, invert: bool, name: Seq<char>) -> bool {
    (names_system_module(lowercase(name))
        || exists|i: int| 0 <= i < extra.len() && contains_seq(lowercase(name), #[trigger] extra[i])) != invert
}

/// A frame that is not of a system module (frames without a module count
/// as such).
pub open spec fn non_system_frame(extra: Seq<Seq<char>>, invert: bool, f: ResolvedFrame) -> bool {
    match f.module {
        Some(m) => !counts_as_system(extra, invert, m.name@),
        None => true,
    }
}

impl SystemModuleFilter {
    pub closed spec fn extra(&self) -> Seq<Seq<char>> {
        views(self.extra_modules@)
    }

    pub closed spec fn inverted_spec(&self) -> bool {
        self.invert
    }

    pub closed spec fn entire_stack(&self) -> bool {
        self.filter_entire_stack
    }

    pub fn new() -> (r: Self)
        ensures
            r.extra().len() == 0,
            !r.inverted_spec(),
            !r.entire_stack(),
    {
        SystemModuleFilter { extra_modules: Vec::new(), invert: false, filter_entire_stack: false }
    }

    pub fn inverted() -> (r: Self)
        ensures
            r.extra().len() == 0,
            r.inverted_spec(),
            !r.entire_stack(),
    {
        SystemModuleFilter { extra_modules: Vec::new(), invert: true, filter_entire_stack: false }
    }

    /// Also treats modules whose lower-cased name contains `module`
    /// (lower-cased) as system modules.
    pub fn add_module(&mut self, module: &str) -> (r: &mut Self)
        ensures
            r.extra() == if old(self).extra().contains(lowercase(module@)) {
                old(self).extra()
            } else {
                old(self).extra().push(lowercase(module@))
            },
            r.inverted_spec() == old(self).inverted_spec(),
            r.entire_stack() == old(self).entire_stack(),
            *final(self) == *final(r),
    {
        let m = to_lower(module);
        let mut found = false;
        let mut i: usize = 0;
        while i < self.extra_modules.len()
            invariant
                i <= self.extra_modules@.len(),
                found == exists|j: int| 0 <= j < i && views(self.extra_modules@)[j] == m@,
            decreases self.extra_modules@.len() - i,
        {
            assert(views(self.extra_modules@)[i as int] == self.extra_modules@[i as int]@);
            if str_eq(self.extra_modules[i].as_str(), m.as_str()) {
                found = true;
            }
            i = i + 1;
        }
        if !found {
            self.extra_modules.push(m);
            assert(views(self.extra_modules@) =~= views(old(self).extra_modules@).push(lowercase(module@)));
        }
        self
    }

    pub fn filter_entire_stack(self, enable: bool) -> (r: Self)
        ensures
            r.extra() == self.extra(),
            r.inverted_spec() == self.inverted_spec(),
            r.entire_stack() == enable,
    {
        SystemModuleFilter { filter_entire_stack: enable, ..self }
    }

    fn is_system(&self, module_name: &str) -> (r: bool)
        ensures
            r == counts_as_system(self.extra(), self.invert, module_name@),
    {
        let lower = to_lower(module_name);
        let mut hit = is_system_module(module_name);
        let mut i: usize = 0;
        while i < self.extra_modules.len()
            invariant
                i <= self.extra_modules@.len(),
                lower@ == lowercase(module_name@),
                hit == (names_system_module(lowercase(module_name@))
                    || exists|j: int| 0 <= j < i && contains_seq(lowercase(module_name@), #[trigger] views(self.extra_modules@)[j])),
            decreases self.extra_modules@.len() - i,
        {
            assert(views(self.extra_modules@)[i as int] == self.extra_modules@[i as int]@);
            if str_contains(lower.as_str(), self.extra_modules[i].as_str()) {
                hit = true;
            }
            i = i + 1;
        }
        hit != self.invert
    }
}

impl Default for SystemModuleFilter {
    fn default() -> (r: Self)
        ensures
            r.extra().len() == 0,
            !r.inverted_spec(),
            !r.entire_stack(),
    {
        SystemModuleFilter::new()
    }
}

impl StackFilter for SystemModuleFilter {
    /// Without whole-stack filtering every stack is kept; with it, a stack is
    /// kept when some frame is not of a system module (inverted: when none is).
    closed spec fn includes(&self, stack: CollectedStack) -> bool {
        !self.filter_entire_stack || ((exists|i: int| 0 <= i < stack.frames@.len()
            && non_system_frame(views(self.extra_modules@), self.invert, #[trigger] stack.frames@[i])) != self.invert)
    }

    closed spec fn includes_frame(&self, frame: ResolvedFrame) -> bool {
        non_system_frame(views(self.extra_modules@), self.invert, frame)
    }

    closed spec fn name_spec(&self) -> Seq<char> {
        "SystemModuleFilter"@
    }

    fn should_include(&self, stack: &CollectedStack) -> (r: bool) {
        if !self.filter_entire_stack {
            return true;
        }
        let mut has_non_system = false;
        let mut i: usize = 0;
        while i < stack.frames.len()
            invariant
                i <= stack.frames@.len(),
                has_non_system == exists|j: int| 0 <= j < i
                    && non_system_frame(views(self.extra_modules@), self.invert, #[trigger] stack.frames@[j]),
            decreases stack.frames@.len() - i,
        {
            if self.should_include_frame(&stack.frames[i]) {
                has_non_system = true;
            }
            i = i + 1;
        }
        has_non_system != self.invert
    }

    fn should_include_frame(&self, frame: &ResolvedFrame) -> (r: bool) {
        match &frame.module {
            Some(module) => !self.is_system(module.name.as_str()),
            None => true,
        }
    }

    fn name(&self) -> (r: &str) {
        "SystemModuleFilter"
    }

    fn description(&self) -> (r: String)
        ensures
            r@ == if self.inverted_spec() { "Filters out non-system modules"@ } else { "Filters out system modules (ntdll.dll, kernel32.dll, etc.)"@ },
    {
        if self.invert {
            owned("Filters out non-system modules")
        } else {
            owned("Filters out system modules (ntdll.dll, kernel32.dll, etc.)")
        }
    }
}

/// With whole-stack filtering (not inverted), a stack holding a frame that
/// is not of a system module is kept, whatever system frames it also holds.
pub proof fn law_application_frame_keeps_stack(f: SystemModuleFilter, stack: CollectedStack, i: int)
    requires
        !f.inverted_spec(),
        0 <= i < stack.frames@.len(),
        non_system_frame(f.extra(), false, stack.frames@[i]),
    ensures
        f.includes(stack),
{
    assert(non_system_frame(views(f.extra_modules@), f.invert, stack.frames@[i]));
}

/// With whole-stack filtering (not inverted), a stack whose frames are all
/// of system modules is dropped.
pub proof fn law_system_only_stack_dropped(f: SystemModuleFilter, stack: CollectedStack)
    requires
        f.entire_stack(),
        !f.inverted_spec(),
        forall|i: int| 0 <= i < stack.frames@.len() ==> !non_system_frame(f.extra(), false, #[trigger] stack.frames@[i]),
    ensures
        !f.includes(stack),
{
}

/// Without whole-stack filtering, every stack is kept (frames are filtered
/// one by one instead).
pub proof fn law_frame_filtering_keeps_stacks(f: SystemModuleFilter, stack: CollectedStack)
    requires
        !f.entire_stack(),
    ensures
        f.includes(stack),
{
}

/// What a depth filter does with deep stacks.
#[derive(Debug, Clone, Copy, PartialEq, Eq, Structural)]
pub enum DepthAction {
    /// Keep them; `truncate` cuts them down.
    Truncate,
    /// Leave them out.
    Filter,
}

/// Keeps stacks by their depth.
pub struct DepthFilter {
    max_depth: usize,
    min_depth: usize,
    action: DepthAction,
}

impl DepthFilter {
    pub closed spec fn max(&self) -> usize {
        self.max_depth
    }

    pub closed spec fn min(&self) -> usize {
        self.min_depth
    }

    pub closed spec fn action_spec(&self) -> DepthAction {
        self.action
    }

    pub fn new(max_depth: usize) -> (r: Self)
        ensures
            r.max() == max_depth,
            r.min() == 1,
            r.action_spec() == DepthAction::Truncate,
    {
        DepthFilter { max_depth, min_depth: 1, action: DepthAction::Truncate }
    }

    /// Sets the minimum depth; stacks outside the range are then left out.
    pub fn with_min_depth(self, min_depth: usize) -> (r: Self)
        ensures
            r.max() == self.max(),
            r.min() == min_depth,
            r.action_spec() == DepthAction::Filter,
    {
        DepthFilter { min_depth, action: DepthAction::Filter, ..self }
    }

    pub fn filter_mode(self) -> (r: Self)
        ensures
            r.max() == self.max(),
            r.min() == self.min(),
            r.action_spec() == DepthAction::Filter,
    {
        DepthFilter { action: DepthAction::Filter, ..self }
    }

    pub fn truncate_mode(self) -> (r: Self)
        ensures
            r.max() == self.max(),
            r.min() == self.min(),
            r.action_spec() == DepthAction::Truncate,
    {
        DepthFilter { action: DepthAction::Truncate, ..self }
    }

    /// Cuts a stack deeper than the maximum down to its innermost frames and
    /// recounts its user and kernel frames and whether it is purely kernel.
    pub fn truncate(&self, stack: &mut CollectedStack)
        ensures
            final(stack).frames@ == if old(stack).frames@.len() > self.max() {
                old(stack).frames@.subrange(0, self.max() as int)
            } else {
                old(stack).frames@
            },
            old(stack).frames@.len() > self.max() ==> final(stack).user_stack_depth == count_type(final(stack).frames@, FrameType::User)
                && final(stack).kernel_stack_depth == count_type(final(stack).frames@, FrameType::Kernel),
            old(stack).frames@.len() <= self.max() ==> final(stack).user_stack_depth == old(stack).user_stack_depth
                && final(stack).kernel_stack_depth == old(stack).kernel_stack_depth,
            final(stack).process_id == old(stack).process_id,
            final(stack).thread_id == old(stack).thread_id,
            final(stack).timestamp == old(stack).timestamp,
            old(stack).frames@.len() > self.max() ==> final(stack).is_kernel_stack
                == (final(stack).user_stack_depth == 0 && final(stack).kernel_stack_depth > 0),
            old(stack).frames@.len() <= self.max() ==> final(stack).is_kernel_stack == old(stack).is_kernel_stack,
    {
        if stack.frames.len() > self.max_depth {
            stack.frames.truncate(self.max_depth);
            stack.user_stack_depth = crate::stackwalker::collector::count_frames_of(&stack.frames, FrameType::User);
            stack.kernel_stack_depth = crate::stackwalker::collector::count_frames_of(&stack.frames, FrameType::Kernel);
            stack.is_kernel_stack = stack.user_stack_depth == 0 && stack.kernel_stack_depth > 0;
        }
    }
}

impl StackFilter for DepthFilter {
    closed spec fn includes(&self, stack: CollectedStack) -> bool {
        match self.action {
            DepthAction::Filter => self.min_depth <= stack.frames@.len() <= self.max_depth,
            DepthAction::Truncate => stack.frames@.len() >= self.min_depth,
        }
    }

    closed spec fn includes_frame(&self, frame: ResolvedFrame) -> bool {
        true
    }

    closed spec fn name_spec(&self) -> Seq<char> {
        "DepthFilter"@
    }

    fn should_include(&self, stack: &CollectedStack) -> (r: bool) {
        match self.action {
            DepthAction::Filter => stack.total_depth() >= self.min_depth && stack.total_depth() <= self.max_depth,
            DepthAction::Truncate => stack.total_depth() >= self.min_depth,
        }
    }

    fn should_include_frame(&self, frame: &ResolvedFrame) -> (r: bool) {
        true
    }

    fn name(&self) -> (r: &str) {
        "DepthFilter"
    }

    fn description(&self) -> (r: String)
        ensures
            r@ == match self.action_spec() {
                DepthAction::Truncate => "Truncates stacks exceeding maximum depth"@,
                DepthAction::Filter => "Filters stacks outside depth range"@,
            },
    {
        match self.action {
            DepthAction::Truncate => owned("Truncates stacks exceeding maximum depth"),
            DepthAction::Filter => owned("Filters stacks outside depth range"),
        }
    }
}

/// Keeps only (whitelist) or leaves out (blacklist) the stacks of the
/// listed processes.
pub struct ProcessFilter {
    process_ids: Vec<ProcessId>,
    whitelist: bool,
}

impl ProcessFilter {
    pub closed spec fn pids(&self) -> Set<ProcessId> {
        self.process_ids@.to_set()
    }

    pub closed spec fn is_whitelist(&self) -> bool {
        self.whitelist
    }

    pub fn whitelist(process_ids: Vec<ProcessId>) -> (r: Self)
        ensures
            r.pids() == process_ids@.to_set(),
            r.is_whitelist(),
    {
        ProcessFilter { process_ids, whitelist: true }
    }

    pub fn blacklist(process_ids: Vec<ProcessId>) -> (r: Self)
        ensures
            r.pids() == process_ids@.to_set(),
            !r.is_whitelist(),
    {
        ProcessFilter { process_ids, whitelist: false }
    }

    pub fn add_process(&mut self, pid: ProcessId) -> (r: &mut Self)
        ensures
            r.pids() == old(self).pids().insert(pid),
            r.is_whitelist() == old(self).is_whitelist(),
            *final(self) == *final(r),
    {
        let ghost before = self.process_ids@;
        self.process_ids.push(pid);
        proof {
            assert(self.process_ids@.to_set() =~= before.to_set().insert(pid)) by {
                assert forall|x: ProcessId| self.process_ids@.to_set().contains(x) implies before.to_set().insert(pid).contains(x) by {
                    if x != pid {
                        let k = choose|k: int| 0 <= k < self.process_ids@.len() && self.process_ids@[k] == x;
                        assert(before[k] == x);
                    }
                }
                assert forall|x: ProcessId| before.to_set().insert(pid).contains(x) implies self.process_ids@.to_set().contains(x) by {
                    if x == pid {
                        assert(self.process_ids@[before.len() as int] == pid);
                    } else {
                        let k = choose|k: int| 0 <= k < before.len() && before[k] == x;
                        assert(self.process_ids@[k] == x);
                    }
                }
            }
        }
        self
    }

    pub fn remove_process(&mut self, pid: ProcessId) -> (r: &mut Self)
        ensures
            r.pids() == old(self).pids().remove(pid),
            r.is_whitelist() == old(self).is_whitelist(),
            *final(self) == *final(r),
    {
        let mut kept: Vec<ProcessId> = Vec::new();
        let mut i: usize = 0;
        while i < self.process_ids.len()
            invariant
                i <= self.process_ids@.len(),
                forall|x: ProcessId| kept@.contains(x) <==> (x != pid && exists|k: int| 0 <= k < i && #[trigger] self.process_ids@[k] == x),
            decreases self.process_ids@.len() - i,
        {
            let ghost before = kept@;
            let v = self.process_ids[i];
            if v != pid {
                kept.push(v);
            }
            proof {
                assert forall|x: ProcessId| kept@.contains(x) <==> (x != pid && exists|k: int| 0 <= k < i + 1 && #[trigger] self.process_ids@[k] == x) by {
                    if kept@.contains(x) {
                        let w = choose|w: int| 0 <= w < kept@.len() && kept@[w] == x;
                        if w < before.len() {
                            assert(before[w] == x);
                            assert(before.contains(x));
                        } else {
                            assert(self.process_ids@[i as int] == x);
                        }
                    }
                    if x != pid && exists|k: int| 0 <= k < i + 1 && #[trigger] self.process_ids@[k] == x {
                        let k = choose|k: int| 0 <= k < i + 1 && #[trigger] self.process_ids@[k] == x;
                        if k < i {
                            assert(before.contains(x));
                            let w = choose|w: int| 0 <= w < before.len() && before[w] == x;
                            assert(kept@[w] == x);
                        } else {
                            assert(kept@[kept@.len() - 1] == x);
                        }
                    }
                }
            }
            i = i + 1;
        }
        proof {
            assert(kept@.to_set() =~= self.process_ids@.to_set().remove(pid)) by {
                assert forall|x: ProcessId| kept@.to_set().contains(x) == self.process_ids@.to_set().remove(pid).contains(x) by {
                    if self.process_ids@.contains(x) {
                        let k = choose|k: int| 0 <= k < self.process_ids@.len() && self.process_ids@[k] == x;
                    }
                }
            }
        }
        self.process_ids = kept;
        self
    }

    fn contains(&self, pid: ProcessId) -> (r: bool)
        ensures
            r == self.pids().contains(pid),
    {
        let mut i: usize = 0;
        while i < self.process_ids.len()
            invariant
                i <= self.process_ids@.len(),
                forall|j: int| 0 <= j < i ==> self.process_ids@[j] != pid,
            decreases self.process_ids@.len() - i,
        {
            if self.process_ids[i] == pid {
                assert(self.process_ids@.to_set().contains(pid));
                return true;
            }
            i = i + 1;
        }
        false
    }
}

impl StackFilter for ProcessFilter {
    closed spec fn includes(&self, stack: CollectedStack) -> bool {
        self.process_ids@.to_set().contains(stack.process_id) == self.whitelist
    }

    closed spec fn includes_frame(&self, frame: ResolvedFrame) -> bool {
        true
    }

    closed spec fn name_spec(&self) -> Seq<char> {
        if self.whitelist { "ProcessWhitelistFilter"@ } else { "ProcessBlacklistFilter"@ }
    }

    fn should_include(&self, stack: &CollectedStack) -> (r: bool) {
        let in_list = self.contains(stack.process_id);
        if self.whitelist { in_list } else { !in_list }
    }

    fn should_include_frame(&self, frame: &ResolvedFrame) -> (r: bool) {
        true
    }

    fn name(&self) -> (r: &str) {
        if self.whitelist { "ProcessWhitelistFilter" } else { "ProcessBlacklistFilter" }
    }

    fn description(&self) -> (r: String)
        ensures
            r@ == if self.is_whitelist() { "Only includes stacks from specified processes"@ } else { "Excludes stacks from specified processes"@ },
    {
        if self.whitelist {
            owned("Only includes stacks from specified processes")
        } else {
            owned("Excludes stacks from specified processes")
        }
    }
}

/// Leaves out pure kernel stacks (unless mixed stacks are allowed) and,
/// when asked, kernel frames.
pub struct KernelStackFilter {
    allow_mixed: bool,
    disable_kernel_frames: bool,
}

impl KernelStackFilter {
    pub closed spec fn mixed_allowed(&self) -> bool {
        self.allow_mixed
    }

    pub closed spec fn kernel_disabled(&self) -> bool {
        self.disable_kernel_frames
    }

    pub fn new() -> (r: Self)
        ensures
            r.mixed_allowed(),
            !r.kernel_disabled(),
    {
        KernelStackFilter { allow_mixed: true, disable_kernel_frames: false }
    }

    pub fn allow_mixed(self, allow: bool) -> (r: Self)
        ensures
            r.mixed_allowed() == allow,
            r.kernel_disabled() == self.kernel_disabled(),
    {
        KernelStackFilter { allow_mixed: allow, ..self }
    }

    pub fn disable_kernel(self, disable: bool) -> (r: Self)
        ensures
            r.mixed_allowed() == self.mixed_allowed(),
            r.kernel_disabled() == disable,
    {
        KernelStackFilter { disable_kernel_frames: disable, ..self }
    }
}

impl Default for KernelStackFilter {
    fn default() -> (r: Self)
        ensures
            r.mixed_allowed(),
            !r.kernel_disabled(),
    {
        KernelStackFilter::new()
    }
}

impl StackFilter for KernelStackFilter {
    closed spec fn includes(&self, stack: CollectedStack) -> bool {
        !(stack.is_kernel_stack && !self.allow_mixed)
    }

    closed spec fn includes_frame(&self, frame: ResolvedFrame) -> bool {
        !self.disable_kernel_frames || frame.frame_type != FrameType::Kernel
    }

    closed spec fn name_spec(&self) -> Seq<char> {
        "KernelStackFilter"@
    }

    fn should_include(&self, stack: &CollectedStack) -> (r: bool) {
        !(stack.is_kernel_stack && !self.allow_mixed)
    }

    fn should_include_frame(&self, frame: &ResolvedFrame) -> (r: bool) {
        if self.disable_kernel_frames { frame.frame_type != FrameType::Kernel } else { true }
    }

    fn name(&self) -> (r: &str) {
        "KernelStackFilter"
    }

    fn description(&self) -> (r: String)
        ensures
            r@ == "Filters kernel stacks and/or frames"@,
    {
        owned("Filters kernel stacks and/or frames")
    }
}

/// How a composite filter combines its members.
#[derive(Debug, Clone, Copy, PartialEq, Eq, Structural)]
pub enum FilterCombinationMode {
    /// Every member must keep it.
    All,
    /// Some member must keep it.
    Any,
}

/// Combines filters with AND or OR.
pub struct CompositeFilter {
    filters: Vec<Box<dyn StackFilter>>,
    mode: FilterCombinationMode,
}

impl CompositeFilter {
    pub closed spec fn members(&self) -> Seq<Box<dyn StackFilter>> {
        self.filters@
    }

    pub closed spec fn mode_spec(&self) -> FilterCombinationMode {
        self.mode
    }

    pub fn new(filters: Vec<Box<dyn StackFilter>>) -> (r: Self)
        ensures
            r.members() == filters@,
            r.mode_spec() == FilterCombinationMode::All,
    {
        CompositeFilter { filters, mode: FilterCombinationMode::All }
    }

    pub fn any(filters: Vec<Box<dyn StackFilter>>) -> (r: Self)
        ensures
            r.members() == filters@,
            r.mode_spec() == FilterCombinationMode::Any,
    {
        CompositeFilter { filters, mode: FilterCombinationMode::Any }
    }

    pub fn add_filter(&mut self, filter: Box<dyn StackFilter>) -> (r: &mut Self)
        ensures
            r.members() == old(self).members().push(filter),
            r.mode_spec() == old(self).mode_spec(),
            *final(self) == *final(r),
    {
        self.filters.push(filter);
        self
    }

    pub fn set_mode(&mut self, mode: FilterCombinationMode) -> (r: &mut Self)
        ensures
            r.members() == old(self).members(),
            r.mode_spec() == mode,
            *final(self) == *final(r),
    {
        self.mode = mode;
        self
    }
}

impl StackFilter for CompositeFilter {
    closed spec fn includes(&self, stack: CollectedStack) -> bool {
        match self.mode {
            FilterCombinationMode::All => forall|i: int| 0 <= i < self.filters@.len() ==> (#[trigger] self.filters@[i]).includes(stack),
            FilterCombinationMode::Any => exists|i: int| 0 <= i < self.filters@.len() && (#[trigger] self.filters@[i]).includes(stack),
        }
    }

    closed spec fn includes_frame(&self, frame: ResolvedFrame) -> bool {
        match self.mode {
            FilterCombinationMode::All => forall|i: int| 0 <= i < self.filters@.len() ==> (#[trigger] self.filters@[i]).includes_frame(frame),
            FilterCombinationMode::Any => exists|i: int| 0 <= i < self.filters@.len() && (#[trigger] self.filters@[i]).includes_frame(frame),
        }
    }

    closed spec fn name_spec(&self) -> Seq<char> {
        "CompositeFilter"@
    }

    fn should_include(&self, stack: &CollectedStack) -> (r: bool) {
        let all = match self.mode { FilterCombinationMode::All => true, FilterCombinationMode::Any => false };
        let mut i: usize = 0;
        while i < self.filters.len()
            invariant
                i <= self.filters@.len(),
                all == (self.mode == FilterCombinationMode::All),
                all ==> forall|j: int| 0 <= j < i ==> (#[trigger] self.filters@[j]).includes(*stack),
                !all ==> forall|j: int| 0 <= j < i ==> !(#[trigger] self.filters@[j]).includes(*stack),
            decreases self.filters@.len() - i,
        {
            let keep = self.filters[i].should_include(stack);
            if all && !keep {
                assert(!self.filters@[i as int].includes(*stack));
                return false;
            }
            if !all && keep {
                assert(self.filters@[i as int].includes(*stack));
                return true;
            }
            i = i + 1;
        }
        all
    }

    fn should_include_frame(&self, frame: &ResolvedFrame) -> (r: bool) {
        let all = match self.mode { FilterCombinationMode::All => true, FilterCombinationMode::Any => false };
        let mut i: usize = 0;
        while i < self.filters.len()
            invariant
                i <= self.filters@.len(),
                all == (self.mode == FilterCombinationMode::All),
                all ==> forall|j: int| 0 <= j < i ==> (#[trigger] self.filters@[j]).includes_frame(*frame),
                !all ==> forall|j: int| 0 <= j < i ==> !(#[trigger] self.filters@[j]).includes_frame(*frame),
            decreases self.filters@.len() - i,
        {
            let keep = self.filters[i].should_include_frame(frame);
            if all && !keep {
                assert(!self.filters@[i as int].includes_frame(*frame));
                return false;
            }
            if !all && keep {
                assert(self.filters@[i as int].includes_frame(*frame));
                return true;
            }
            i = i + 1;
        }
        all
    }

    fn name(&self) -> (r: &str) {
        "CompositeFilter"
    }

    fn description(&self) -> (r: String)
        ensures
            r@ == "Combines filters ["@ + join_names(self.members().map_values(|f: Box<dyn StackFilter>| f.name_spec()))
                + "] with "@ + match self.mode_spec() { FilterCombinationMode::All => "AND"@, FilterCombinationMode::Any => "OR"@ },
    {
        let mut s = owned("Combines filters [");
        let mut i: usize = 0;
        let ghost names = self.filters@.map_values(|f: Box<dyn StackFilter>| f.name_spec());
        while i < self.filters.len()
            invariant
                i <= self.filters@.len(),
                names == self.filters@.map_values(|f: Box<dyn StackFilter>| f.name_spec()),
                s@ == "Combines filters ["@ + join_names(names.subrange(0, i as int)),
            decreases self.filters@.len() - i,
        {
            let ghost prev = names.subrange(0, i as int);
            if i > 0 {
                push_str(&mut s, ", ");
            }
            push_str(&mut s, self.filters[i].name());
            i = i + 1;
            proof {
                let cur = names.subrange(0, i as int);
                assert(cur.drop_last() =~= prev);
                assert(cur.last() == self.filters@[i - 1].name_spec());
            }
            assert(s@ =~= "Combines filters ["@ + join_names(names.subrange(0, i as int)));
        }
        assert(names.subrange(0, i as int) =~= names);
        push_str(&mut s, "] with ");
        match self.mode {
            FilterCombinationMode::All => push_str(&mut s, "AND"),
            FilterCombinationMode::Any => push_str(&mut s, "OR"),
        }
        s
    }
}

/// Keeps stacks (whitelist) or leaves them out (blacklist) by whether a
/// frame's symbol name contains one of the patterns; without case
/// sensitivity names and patterns are compared lower-cased.
pub struct FunctionNameFilter {
    patterns: Vec<String>,
    whitelist: bool,
    case_sensitive: bool,
}

/// The name as compared: lower-cased unless case-sensitive.
pub open spec fn compared_name(case_sensitive: bool, name: Seq<char>) -> Seq<char> {
    if case_sensitive { name } else { lowercase(name) }
}

/// Some pattern occurs in the compared name.
pub open spec fn name_matches(patterns: Seq<Seq<char>>, case_sensitive: bool, name: Seq<char>) -> bool {
    exists|i: int| 0 <= i < patterns.len() && contains_seq(compared_name(case_sensitive, name), #[trigger] patterns[i])
}

/// A frame whose symbol name matches.
pub open spec fn frame_matches(patterns: Seq<Seq<char>>, case_sensitive: bool, f: ResolvedFrame) -> bool {
    match f.symbol {
        Some(s) => name_matches(patterns, case_sensitive, s.name@),
        None => false,
    }
}

fn lowered_all(v: &Vec<String>) -> (r: Vec<String>)
    ensures
        views(r@) == views(v@).map_values(|p: Seq<char>| lowercase(p)),
{
    let mut out: Vec<String> = Vec::new();
    let mut i: usize = 0;
    while i < v.len()
        invariant
            i <= v@.len(),
            out@.len() == i,
            forall|j: int| 0 <= j < i ==> #[trigger] out@[j]@ == lowercase(v@[j]@),
        decreases v@.len() - i,
    {
        out.push(to_lower(v[i].as_str()));
        i = i + 1;
    }
    assert(views(out@) =~= views(v@).map_values(|p: Seq<char>| lowercase(p)));
    out
}

impl FunctionNameFilter {
    pub closed spec fn patterns_spec(&self) -> Seq<Seq<char>> {
        views(self.patterns@)
    }

    pub closed spec fn is_whitelist(&self) -> bool {
        self.whitelist
    }

    pub closed spec fn is_case_sensitive(&self) -> bool {
        self.case_sensitive
    }

    /// A whitelist of the patterns, lower-cased, compared without case.
    pub fn new(patterns: Vec<String>) -> (r: Self)
        ensures
            r.patterns_spec() == views(patterns@).map_values(|p: Seq<char>| lowercase(p)),
            r.is_whitelist(),
            !r.is_case_sensitive(),
    {
        FunctionNameFilter { patterns: lowered_all(&patterns), whitelist: true, case_sensitive: false }
    }

    pub fn blacklist(self) -> (r: Self)
        ensures
            r.patterns_spec() == self.patterns_spec(),
            !r.is_whitelist(),
            r.is_case_sensitive() == self.is_case_sensitive(),
    {
        FunctionNameFilter { whitelist: false, ..self }
    }

    /// Sets case sensitivity; turning it off lower-cases the patterns.
    pub fn case_sensitive(self, sensitive: bool) -> (r: Self)
        ensures
            r.patterns_spec() == if sensitive {
                self.patterns_spec()
            } else {
                self.patterns_spec().map_values(|p: Seq<char>| lowercase(p))
            },
            r.is_whitelist() == self.is_whitelist(),
            r.is_case_sensitive() == sensitive,
    {
        if sensitive {
            FunctionNameFilter { case_sensitive: true, ..self }
        } else {
            let patterns = lowered_all(&self.patterns);
            FunctionNameFilter { patterns, whitelist: self.whitelist, case_sensitive: false }
        }
    }

    /// Adds a pattern, lower-cased unless case-sensitive.
    pub fn add_pattern(&mut self, pattern: &str) -> (r: &mut Self)
        ensures
            r.patterns_spec() == old(self).patterns_spec().push(compared_name(old(self).is_case_sensitive(), pattern@)),
            r.is_whitelist() == old(self).is_whitelist(),
            r.is_case_sensitive() == old(self).is_case_sensitive(),
            *final(self) == *final(r),
    {
        let p = if self.case_sensitive { owned(pattern) } else { to_lower(pattern) };
        self.patterns.push(p);
        assert(views(self.patterns@) =~= views(old(self).patterns@).push(compared_name(old(self).case_sensitive, pattern@)));
        self
    }

    fn matches(&self, function_name: &str) -> (r: bool)
        ensures
            r == name_matches(views(self.patterns@), self.case_sensitive, function_name@),
    {
        let name = if self.case_sensitive { owned(function_name) } else { to_lower(function_name) };
        let mut i: usize = 0;
        while i < self.patterns.len()
            invariant
                i <= self.patterns@.len(),
                name@ == compared_name(self.case_sensitive, function_name@),
                forall|j: int| 0 <= j < i ==> !contains_seq(name@, #[trigger] views(self.patterns@)[j]),
            decreases self.patterns@.len() - i,
        {
            assert(views(self.patterns@)[i as int] == self.patterns@[i as int]@);
            if str_contains(name.as_str(), self.patterns[i].as_str()) {
                return true;
            }
            i = i + 1;
        }
        false
    }
}

impl StackFilter for FunctionNameFilter {
    closed spec fn includes(&self, stack: CollectedStack) -> bool {
        (exists|i: int| 0 <= i < stack.frames@.len()
            && frame_matches(views(self.patterns@), self.case_sensitive, #[trigger] stack.frames@[i])) == self.whitelist
    }

    closed spec fn includes_frame(&self, frame: ResolvedFrame) -> bool {
        frame_matches(views(self.patterns@), self.case_sensitive, frame) == self.whitelist
    }

    closed spec fn name_spec(&self) -> Seq<char> {
        "FunctionNameFilter"@
    }

    fn should_include(&self, stack: &CollectedStack) -> (r: bool) {
        let mut has_match = false;
        let mut i: usize = 0;
        while i < stack.frames.len()
            invariant
                i <= stack.frames@.len(),
                has_match == exists|j: int| 0 <= j < i
                    && frame_matches(views(self.patterns@), self.case_sensitive, #[trigger] stack.frames@[j]),
            decreases stack.frames@.len() - i,
        {
            let m = match &stack.frames[i].symbol {
                Some(s) => self.matches(s.name.as_str()),
                None => false,
            };
            if m {
                has_match = true;
            }
            i = i + 1;
        }
        has_match == self.whitelist
    }

    fn should_include_frame(&self, frame: &ResolvedFrame) -> (r: bool) {
        let m = match &frame.symbol {
            Some(s) => self.matches(s.name.as_str()),
            None => false,
        };
        m == self.whitelist
    }

    fn name(&self) -> (r: &str) {
        "FunctionNameFilter"
    }

    fn description(&self) -> (r: String)
        ensures
            r@ == if self.is_whitelist() { "Includes stacks containing specified function names"@ } else { "Excludes stacks containing specified function names"@ },
    {
        if self.whitelist {
            owned("Includes stacks containing specified function names")
        } else {
            owned("Excludes stacks containing specified function names")
        }
    }
}

/// The stack with only the frames the filter keeps, or nothing when the
/// filter leaves the stack out or keeps none of its frames.
pub fn apply_filter(stack: &CollectedStack, filter: &dyn StackFilter) -> (r: Option<CollectedStack>)
    ensures
        ({
            let kept = stack.frames@.filter(|f: ResolvedFrame| filter.includes_frame(f));
            &&& (r is None) == (!filter.includes(*stack) || kept.len() == 0)
            &&& r matches Some(s) ==> s.frames@ == kept && s.process_id == stack.process_id
                && s.thread_id == stack.thread_id && s.timestamp == stack.timestamp && s.depths_consistent()
        }),
{
    let ghost p = |f: ResolvedFrame| filter.includes_frame(f);
    if !filter.should_include(stack) {
        return None;
    }
    let mut frames: Vec<ResolvedFrame> = Vec::new();
    let mut i: usize = 0;
    while i < stack.frames.len()
        invariant
            i <= stack.frames@.len(),
            p == (|f: ResolvedFrame| filter.includes_frame(f)),
            frames@ == stack.frames@.subrange(0, i as int).filter(p),
        decreases stack.frames@.len() - i,
    {
        proof {
            let prev = stack.frames@.subrange(0, i as int);
            assert(stack.frames@.subrange(0, i + 1) =~= prev.push(stack.frames@[i as int]));
            prev.lemma_filter_push(stack.frames@[i as int], p);
        }
        if filter.should_include_frame(&stack.frames[i]) {
            frames.push(stack.frames[i].copy());
        }
        i = i + 1;
    }
    assert(stack.frames@.subrange(0, i as int) =~= stack.frames@);
    if frames.len() == 0 {
        return None;
    }
    Some(CollectedStack::new(stack.process_id, stack.thread_id, stack.timestamp, frames))
}

fn boxed_system_filter() -> Box<dyn StackFilter> {
    Box::new(SystemModuleFilter::new())
}

fn boxed_depth_filter(depth: usize) -> Box<dyn StackFilter> {
    Box::new(DepthFilter::new(depth))
}

fn boxed_process_filter(pids: Vec<ProcessId>, whitelist: bool) -> Box<dyn StackFilter> {
    if whitelist {
        Box::new(ProcessFilter::whitelist(pids))
    } else {
        Box::new(ProcessFilter::blacklist(pids))
    }
}

/// Builds an all-of composite filter step by step.
pub struct FilterChainBuilder {
    filters: Vec<Box<dyn StackFilter>>,
}

impl FilterChainBuilder {
    pub closed spec fn members(&self) -> Seq<Box<dyn StackFilter>> {
        self.filters@
    }

    pub fn new() -> (r: Self)
        ensures
            r.members().len() == 0,
    {
        FilterChainBuilder { filters: Vec::new() }
    }

    /// Adds a filter of system-module frames.
    pub fn exclude_system_modules(self) -> (r: Self)
        ensures
            r.members().len() == self.members().len() + 1,
            r.members().subrange(0, self.members().len() as int) == self.members(),
    {
        self.pushed(boxed_system_filter())
    }

    /// Adds a depth filter with the given maximum.
    pub fn max_depth(self, depth: usize) -> (r: Self)
        ensures
            r.members().len() == self.members().len() + 1,
            r.members().subrange(0, self.members().len() as int) == self.members(),
    {
        self.pushed(boxed_depth_filter(depth))
    }

    /// Adds a whitelist of processes.
    pub fn include_processes(self, pids: Vec<ProcessId>) -> (r: Self)
        ensures
            r.members().len() == self.members().len() + 1,
            r.members().subrange(0, self.members().len() as int) == self.members(),
    {
        self.pushed(boxed_process_filter(pids, true))
    }

    /// Adds a blacklist of processes.
    pub fn exclude_processes(self, pids: Vec<ProcessId>) -> (r: Self)
        ensures
            r.members().len() == self.members().len() + 1,
            r.members().subrange(0, self.members().len() as int) == self.members(),
    {
        self.pushed(boxed_process_filter(pids, false))
    }

    /// The chain with `b` appended.
    fn pushed(self, b: Box<dyn StackFilter>) -> (r: Self)
        ensures
            r.members() == self.members().push(b),
            r.members().len() == self.members().len() + 1,
            r.members().subrange(0, self.members().len() as int) == self.members(),
    {
        let ghost m0 = self.filters@;
        let mut filters = self.filters;
        filters.push(b);
        proof {
            vstd::seq::axiom_seq_push_len(m0, b);
            let t = filters@.subrange(0, m0.len() as int);
            vstd::seq::axiom_seq_subrange_len(filters@, 0, m0.len() as int);
            assert forall|k: int| 0 <= k < m0.len() implies t[k] == m0[k] by {
                vstd::seq::axiom_seq_subrange_index(filters@, 0, m0.len() as int, k);
                vstd::seq::axiom_seq_push_index_different(m0, b, k);
            }
            vstd::seq::axiom_seq_ext_equal(t, m0);
        }
        FilterChainBuilder { filters }
    }

    pub fn add_filter(self, filter: Box<dyn StackFilter>) -> (r: Self)
        ensures
            r.members() == self.members().push(filter),
    {
        let mut filters = self.filters;
        filters.push(filter);
        FilterChainBuilder { filters }
    }

    /// The composite filter requiring every filter added.
    pub fn build(self) -> (r: CompositeFilter)
        ensures
            r.members() == self.members(),
            r.mode_spec() == FilterCombinationMode::All,
    {
        CompositeFilter::new(self.filters)
    }
}

impl Default for FilterChainBuilder {
    fn default() -> (r: Self)
        ensures
            r.members().len() == 0,
    {
        FilterChainBuilder::new()
    }
}

/// Names joined with ", ".
pub open spec fn join_names(names: Seq<Seq<char>>) -> Seq<char>
    decreases names.len(),
{
    if names.len() == 0 {
        Seq::empty()
    } else if names.len() == 1 {
        names[0]
    } else {
        join_names(names.drop_last()) + ", "@ + names.last()
    }
}

} // verus!

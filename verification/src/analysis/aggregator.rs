//! Aggregation of collected stacks into per-thread, per-function statistics.
use vstd::prelude::*;
use crate::text::{copy_string, copy_opt_string, lowercase, views};
use crate::types::{FunctionStats, ThreadStats, ProcessId, ThreadId, fn_index, lemma_fn_index, lemma_fn_index_same_names, lemma_fn_index_push, distinct_fn_names, find_fn, min_u64, max_u64};
use crate::stackwalker::{is_system_module, names_system_module};
use crate::stackwalker::collector::{CollectedStack, ResolvedFrame, display_name_spec};
use crate::error::{ProfilerError, Result};

verus! {

/// Options of the aggregation.
#[derive(Debug, Clone)]
pub struct AggregatorConfig {
    /// Count a run of identical consecutive frames once.
    pub merge_recursive_calls: bool,
    /// Leave out frames of system modules.
    pub exclude_system_functions: bool,
    /// Functions called fewer times are dropped by the filter.
    pub min_sample_count: usize,
    /// Time one sample stands for, in milliseconds.
    pub sample_interval_ms: u32,
    pub max_stack_depth: usize,
    pub calculate_self_time: bool,
}

impl AggregatorConfig {
    pub open spec fn is_default(&self) -> bool {
        &&& self.merge_recursive_calls
        &&& !self.exclude_system_functions
        &&& self.min_sample_count == 1
        &&& self.sample_interval_ms == 1
        &&& self.max_stack_depth == 128
        &&& self.calculate_self_time
    }

    pub fn new() -> (r: Self)
        ensures
            r.is_default(),
    {
        AggregatorConfig {
            merge_recursive_calls: true,
            exclude_system_functions: false,
            min_sample_count: 1,
            sample_interval_ms: 1,
            max_stack_depth: 128,
            calculate_self_time: true,
        }
    }

    pub fn with_merge_recursive_calls(self, merge: bool) -> (r: Self)
        ensures
            r == (AggregatorConfig { merge_recursive_calls: merge, ..self }),
    {
        AggregatorConfig { merge_recursive_calls: merge, ..self }
    }

    pub fn with_exclude_system_functions(self, exclude: bool) -> (r: Self)
        ensures
            r == (AggregatorConfig { exclude_system_functions: exclude, ..self }),
    {
        AggregatorConfig { exclude_system_functions: exclude, ..self }
    }

    pub fn with_min_sample_count(self, count: usize) -> (r: Self)
        ensures
            r == (AggregatorConfig { min_sample_count: count, ..self }),
    {
        AggregatorConfig { min_sample_count: count, ..self }
    }

    pub fn with_sample_interval_ms(self, interval_ms: u32) -> (r: Self)
        ensures
            r == (AggregatorConfig { sample_interval_ms: interval_ms, ..self }),
    {
        AggregatorConfig { sample_interval_ms: interval_ms, ..self }
    }
}

impl Default for AggregatorConfig {
    fn default() -> (r: Self)
        ensures
            r.is_default(),
    {
        AggregatorConfig::new()
    }
}

/// `s` with every run of equal consecutive names kept once.
pub open spec fn dedup_consecutive(s: Seq<Seq<char>>) -> Seq<Seq<char>>
    decreases s.len(),
{
    if s.len() == 0 {
        Seq::empty()
    } else {
        let p = dedup_consecutive(s.drop_last());
        if p.len() > 0 && p.last() == s.last() { p } else { p.push(s.last()) }
    }
}

pub proof fn lemma_dedup_len(s: Seq<Seq<char>>)
    ensures
        dedup_consecutive(s).len() <= s.len(),
        s.len() > 0 ==> dedup_consecutive(s).len() > 0 && dedup_consecutive(s).last() == s.last(),
    decreases s.len(),
{
    if s.len() > 0 {
        lemma_dedup_len(s.drop_last());
    }
}

/// The display names of frames.
pub open spec fn display_names(frames: Seq<ResolvedFrame>) -> Seq<Seq<char>> {
    frames.map_values(|f: ResolvedFrame| display_name_spec(f))
}

/// The function names an aggregation counts for a stack, innermost first.
pub open spec fn names_to_process(frames: Seq<ResolvedFrame>, merge: bool) -> Seq<Seq<char>> {
    if merge { dedup_consecutive(display_names(frames)) } else { display_names(frames) }
}

/// The name at position `d` is counted: system frames are left out when the
/// configuration asks for it (the frame being the one at the same position
/// of the stack).
pub open spec fn frame_included(exclude: bool, frames: Seq<ResolvedFrame>, d: int) -> bool {
    !(exclude && 0 <= d < frames.len() && (match frames[d].module {
        Some(m) => names_system_module(lowercase(m.name@)),
        None => false,
    }))
}

/// Counted occurrences of `n` among the first `upto` names.
pub open spec fn occurrences(names: Seq<Seq<char>>, exclude: bool, frames: Seq<ResolvedFrame>, n: Seq<char>, upto: int) -> nat
    decreases upto,
{
    if upto <= 0 {
        0
    } else {
        occurrences(names, exclude, frames, n, upto - 1)
            + if names[upto - 1] == n && frame_included(exclude, frames, upto - 1) { 1nat } else { 0nat }
    }
}

pub proof fn lemma_occurrences_le(names: Seq<Seq<char>>, exclude: bool, frames: Seq<ResolvedFrame>, n: Seq<char>, upto: int)
    requires
        upto >= 0,
    ensures
        occurrences(names, exclude, frames, n, upto) <= upto,
    decreases upto,
{
    if upto > 0 {
        lemma_occurrences_le(names, exclude, frames, n, upto - 1);
    }
}

/// First counted position of `n` among the first `upto` names, or -1.
pub open spec fn first_occurrence(names: Seq<Seq<char>>, exclude: bool, frames: Seq<ResolvedFrame>, n: Seq<char>, upto: int) -> int
    decreases upto,
{
    if upto <= 0 {
        -1
    } else {
        let f = first_occurrence(names, exclude, frames, n, upto - 1);
        if f >= 0 {
            f
        } else if names[upto - 1] == n && frame_included(exclude, frames, upto - 1) {
            upto - 1
        } else {
            -1
        }
    }
}

pub proof fn lemma_first_occurrence(names: Seq<Seq<char>>, exclude: bool, frames: Seq<ResolvedFrame>, n: Seq<char>, upto: int)
    requires
        upto >= 0,
    ensures
        (first_occurrence(names, exclude, frames, n, upto) >= 0) == (occurrences(names, exclude, frames, n, upto) > 0),
        first_occurrence(names, exclude, frames, n, upto) < upto,
    decreases upto,
{
    if upto > 0 {
        lemma_first_occurrence(names, exclude, frames, n, upto - 1);
    }
}

/// The module name of the frame at `d`, if there is such a frame with a module.
pub open spec fn module_at(frames: Seq<ResolvedFrame>, d: int) -> Option<String> {
    if 0 <= d < frames.len() {
        match frames[d].module {
            Some(m) => Some(m.name),
            None => None,
        }
    } else {
        None
    }
}

/// How one function's statistics stand after a stack was counted: `base` is
/// its entry before (if any), `e` its entry after, `occ` the counted
/// occurrences of its name, `leaf` whether the innermost name is it and was
/// counted, `iu` the sample interval in microseconds.
pub open spec fn entry_updated(base: Option<FunctionStats>, e: FunctionStats, occ: nat, leaf: bool, iu: u64,
    tid: ThreadId, module: Option<String>) -> bool
{
    let bt: int = match base { Some(b) => b.total_time_us as int, None => 0 };
    let bs: int = match base { Some(b) => b.self_time_us as int, None => 0 };
    let bc: int = match base { Some(b) => b.call_count as int, None => 0 };
    let bmin: u64 = match base { Some(b) => b.min_time_us, None => u64::MAX };
    let bmax: u64 = match base { Some(b) => b.max_time_us, None => 0 };
    &&& e.total_time_us == bt + occ * iu
    &&& e.self_time_us == bs + if leaf { iu as int } else { 0 }
    &&& e.call_count == bc + if leaf { 1int } else { 0 }
    &&& e.min_time_us == if occ > 0 { min_u64(bmin, iu) } else { bmin }
    &&& e.max_time_us == if occ > 0 { max_u64(bmax, iu) } else { bmax }
    &&& match base {
        Some(b) => e.function_name == b.function_name && e.module_name == b.module_name
            && e.thread_id == b.thread_id && e.average_time_us == b.average_time_us,
        None => e.thread_id == Some(tid) && e.module_name == module && e.average_time_us == 0,
    }
}

/// The function table `after` is `before` with the counted names of a stack
/// recorded (the first `upto` names).
pub open spec fn table_updated(before: Seq<FunctionStats>, after: Seq<FunctionStats>, names: Seq<Seq<char>>,
    exclude: bool, frames: Seq<ResolvedFrame>, upto: int, iu: u64, tid: ThreadId) -> bool
{
    &&& distinct_fn_names(after)
    &&& forall|n: Seq<char>| #![trigger fn_index(after, n)] {
        let k0 = fn_index(before, n);
        let k = fn_index(after, n);
        let occ = occurrences(names, exclude, frames, n, upto);
        let leaf = upto > 0 && names[0] == n && frame_included(exclude, frames, 0);
        &&& (k >= 0) == (k0 >= 0 || occ > 0)
        &&& k >= 0 ==> entry_updated(if k0 >= 0 { Some(before[k0]) } else { None }, after[k], occ, leaf, iu,
                tid, module_at(frames, first_occurrence(names, exclude, frames, n, upto)))
    }
}

/// Room in every counter of a function table for one more stack of `len`
/// names at interval `iu`.
pub open spec fn table_has_room(fs: Seq<FunctionStats>, len: nat, iu: u64) -> bool {
    &&& len * iu <= u64::MAX
    &&& forall|i: int| 0 <= i < fs.len() ==> (#[trigger] fs[i]).total_time_us + len * iu <= u64::MAX
        && fs[i].self_time_us + iu <= u64::MAX && fs[i].call_count < u64::MAX
}

/// Position of the statistics of thread `tid`, or -1.
pub open spec fn thread_index(s: Seq<ThreadStats>, tid: ThreadId) -> int
    decreases s.len(),
{
    if s.len() == 0 { -1 } else if s.last().thread_id == tid { s.len() - 1 } else { thread_index(s.drop_last(), tid) }
}

pub proof fn lemma_thread_index(s: Seq<ThreadStats>, tid: ThreadId)
    ensures
        -1 <= thread_index(s, tid) < s.len(),
        thread_index(s, tid) >= 0 ==> s[thread_index(s, tid)].thread_id == tid,
        thread_index(s, tid) == -1 ==> forall|j: int| 0 <= j < s.len() ==> s[j].thread_id != tid,
    decreases s.len(),
{
    if s.len() > 0 && s.last().thread_id != tid {
        lemma_thread_index(s.drop_last(), tid);
        assert forall|j: int| thread_index(s, tid) == -1 && 0 <= j < s.len() implies s[j].thread_id != tid by {
            if j < s.len() - 1 {
                assert(s.drop_last()[j] == s[j]);
            }
        }
    }
}

pub open spec fn distinct_threads(s: Seq<ThreadStats>) -> bool {
    forall|i: int, j: int| 0 <= i < j < s.len() ==> s[i].thread_id != s[j].thread_id
}

pub proof fn lemma_thread_index_distinct(s: Seq<ThreadStats>, k: int)
    requires
        distinct_threads(s),
        0 <= k < s.len(),
    ensures
        thread_index(s, s[k].thread_id) == k,
    decreases s.len(),
{
    if k < s.len() - 1 {
        lemma_thread_index_distinct(s.drop_last(), k);
    }
}

pub fn find_thread(s: &Vec<ThreadStats>, tid: ThreadId) -> (r: Option<usize>)
    ensures
        match r {
            Some(i) => i as int == thread_index(s@, tid),
            None => thread_index(s@, tid) == -1,
        },
{
    proof { lemma_thread_index(s@, tid); }
    let mut i: usize = s.len();
    while i > 0
        invariant
            i <= s@.len(),
            forall|j: int| i <= j < s@.len() ==> s@[j].thread_id != tid,
            -1 <= thread_index(s@, tid) < s@.len(),
            thread_index(s@, tid) >= 0 ==> s@[thread_index(s@, tid)].thread_id == tid,
        decreases i,
    {
        if s[i - 1].thread_id == tid {
            proof { lemma_thread_index_tail(s@, tid, (i - 1) as int); }
            return Some(i - 1);
        }
        i = i - 1;
    }
    None
}

proof fn lemma_thread_index_tail(s: Seq<ThreadStats>, tid: ThreadId, k: int)
    requires
        0 <= k < s.len(),
        s[k].thread_id == tid,
        forall|j: int| k < j < s.len() ==> s[j].thread_id != tid,
    ensures
        thread_index(s, tid) == k,
    decreases s.len(),
{
    if k < s.len() - 1 {
        lemma_thread_index_tail(s.drop_last(), tid, k);
    }
}

/// Position of the sample count of process `pid`, or -1.
pub open spec fn process_index(s: Seq<(ProcessId, u64)>, pid: ProcessId) -> int
    decreases s.len(),
{
    if s.len() == 0 { -1 } else if s.last().0 == pid { s.len() - 1 } else { process_index(s.drop_last(), pid) }
}

pub proof fn lemma_process_index(s: Seq<(ProcessId, u64)>, pid: ProcessId)
    ensures
        -1 <= process_index(s, pid) < s.len(),
        process_index(s, pid) >= 0 ==> s[process_index(s, pid)].0 == pid,
        process_index(s, pid) == -1 ==> forall|j: int| 0 <= j < s.len() ==> s[j].0 != pid,
    decreases s.len(),
{
    if s.len() > 0 && s.last().0 != pid {
        lemma_process_index(s.drop_last(), pid);
        assert forall|j: int| process_index(s, pid) == -1 && 0 <= j < s.len() implies s[j].0 != pid by {
            if j < s.len() - 1 {
                assert(s.drop_last()[j] == s[j]);
            }
        }
    }
}

pub open spec fn distinct_processes(s: Seq<(ProcessId, u64)>) -> bool {
    forall|i: int, j: int| 0 <= i < j < s.len() ==> s[i].0 != s[j].0
}

fn find_process(s: &Vec<(ProcessId, u64)>, pid: ProcessId) -> (r: Option<usize>)
    ensures
        match r {
            Some(i) => i as int == process_index(s@, pid),
            None => process_index(s@, pid) == -1,
        },
{
    proof { lemma_process_index(s@, pid); }
    let mut i: usize = s.len();
    while i > 0
        invariant
            i <= s@.len(),
            forall|j: int| i <= j < s@.len() ==> s@[j].0 != pid,
            -1 <= process_index(s@, pid) < s@.len(),
            process_index(s@, pid) >= 0 ==> s@[process_index(s@, pid)].0 == pid,
        decreases i,
    {
        if s[i - 1].0 == pid {
            proof { lemma_process_index_tail(s@, pid, (i - 1) as int); }
            return Some(i - 1);
        }
        i = i - 1;
    }
    None
}

proof fn lemma_process_index_tail(s: Seq<(ProcessId, u64)>, pid: ProcessId, k: int)
    requires
        0 <= k < s.len(),
        s[k].0 == pid,
        forall|j: int| k < j < s.len() ==> s[j].0 != pid,
    ensures
        process_index(s, pid) == k,
    decreases s.len(),
{
    if k < s.len() - 1 {
        lemma_process_index_tail(s.drop_last(), pid, k);
    }
}


/// Records one counted occurrence of `name` in a function table.
/// The call counts of a function table added up.
pub open spec fn call_sum(fs: Seq<FunctionStats>) -> int
    decreases fs.len(),
{
    if fs.len() == 0 { 0 } else { call_sum(fs.drop_last()) + fs.last().call_count }
}

/// Each entry's self time is its call count times the interval `iu`, and
/// at most its total time.
pub open spec fn entries_timed(fs: Seq<FunctionStats>, iu: u64) -> bool {
    forall|j: int| 0 <= j < fs.len() ==> (#[trigger] fs[j]).self_time_us == fs[j].call_count * iu
        && fs[j].self_time_us <= fs[j].total_time_us
}

/// In every thread the call counts add up to the thread's samples, and
/// every entry is timed at interval `iu`.
pub open spec fn calls_balanced(ts: Seq<ThreadStats>, iu: u64) -> bool {
    forall|i: int| 0 <= i < ts.len() ==> call_sum((#[trigger] ts[i]).function_stats@) == ts[i].total_samples
        && entries_timed(ts[i].function_stats@, iu)
}

pub proof fn lemma_call_sum_update(fs: Seq<FunctionStats>, k: int, e: FunctionStats)
    requires
        0 <= k < fs.len(),
    ensures
        call_sum(fs.update(k, e)) == call_sum(fs) - fs[k].call_count + e.call_count,
    decreases fs.len(),
{
    if k < fs.len() - 1 {
        assert(fs.update(k, e).drop_last() =~= fs.drop_last().update(k, e));
        lemma_call_sum_update(fs.drop_last(), k, e);
    } else {
        assert(fs.update(k, e).drop_last() =~= fs.drop_last());
    }
}

pub proof fn lemma_call_sum_push(fs: Seq<FunctionStats>, e: FunctionStats)
    ensures
        call_sum(fs.push(e)) == call_sum(fs) + e.call_count,
{
    assert(fs.push(e).drop_last() =~= fs);
}

fn record_name(fs: &mut Vec<FunctionStats>, name: &String, leaf: bool, iu: u64, tid: ThreadId, module: Option<String>)
    requires
        distinct_fn_names(old(fs)@),
        fn_index(old(fs)@, name@) >= 0 ==> {
            let e = old(fs)@[fn_index(old(fs)@, name@)];
            e.total_time_us + iu <= u64::MAX && (leaf ==> e.self_time_us + iu <= u64::MAX && e.call_count < u64::MAX)
        },
    ensures
        distinct_fn_names(final(fs)@),
        ({
            let k0 = fn_index(old(fs)@, name@);
            &&& k0 >= 0 ==> final(fs)@.len() == old(fs)@.len() && forall|j: int| 0 <= j < old(fs)@.len() && j != k0 ==> final(fs)@[j] == old(fs)@[j]
            &&& k0 < 0 ==> final(fs)@.len() == old(fs)@.len() + 1 && forall|j: int| 0 <= j < old(fs)@.len() ==> final(fs)@[j] == old(fs)@[j]
            &&& final(fs)@[if k0 >= 0 { k0 } else { old(fs)@.len() as int }].function_name@ == name@
            &&& entry_updated(if k0 >= 0 { Some(old(fs)@[k0]) } else { None },
                    final(fs)@[if k0 >= 0 { k0 } else { old(fs)@.len() as int }], 1, leaf, iu, tid, module)
        }),
        call_sum(final(fs)@) == call_sum(old(fs)@) + if leaf { 1int } else { 0 },
        entries_timed(old(fs)@, iu) ==> entries_timed(final(fs)@, iu),
{
    proof { lemma_fn_index(fs@, name@); }
    match find_fn(fs, name.as_str()) {
        Some(k) => {
            let mut e = fs.remove(k);
            e.total_time_us = e.total_time_us + iu;
            if leaf {
                e.self_time_us = e.self_time_us + iu;
                e.call_count = e.call_count + 1;
            }
            if iu < e.min_time_us {
                e.min_time_us = iu;
            }
            if iu > e.max_time_us {
                e.max_time_us = iu;
            }
            fs.insert(k, e);
            proof {
                assert forall|a: int, b: int| 0 <= a < b < fs@.len() implies fs@[a].function_name@ != fs@[b].function_name@ by {
                    assert(fs@[a].function_name == old(fs)@[a].function_name);
                    assert(fs@[b].function_name == old(fs)@[b].function_name);
                }
                assert(fs@ =~= old(fs)@.update(k as int, e));
                lemma_call_sum_update(old(fs)@, k as int, e);
                if entries_timed(old(fs)@, iu) {
                    let b = old(fs)@[k as int];
                    assert(b.self_time_us == b.call_count * iu);
                    assert((b.call_count + 1) * iu == b.call_count * iu + iu) by (nonlinear_arith);
                    assert forall|j: int| 0 <= j < fs@.len() implies (#[trigger] fs@[j]).self_time_us == fs@[j].call_count * iu
                        && fs@[j].self_time_us <= fs@[j].total_time_us by {
                        if j != k {
                            assert(fs@[j] == old(fs)@[j]);
                        }
                    }
                }
            }
        },
        None => {
            let mut e = FunctionStats::new(name.as_str());
            e.thread_id = Some(tid);
            e.module_name = module;
            e.total_time_us = iu;
            if leaf {
                e.self_time_us = iu;
                e.call_count = 1;
            }
            e.min_time_us = iu;
            e.max_time_us = iu;
            fs.push(e);
            proof {
                assert forall|a: int, b: int| 0 <= a < b < fs@.len() implies fs@[a].function_name@ != fs@[b].function_name@ by {
                    if b < old(fs)@.len() {
                        assert(fs@[a] == old(fs)@[a]);
                        assert(fs@[b] == old(fs)@[b]);
                    } else {
                        assert(fs@[a] == old(fs)@[a]);
                    }
                }
                lemma_call_sum_push(old(fs)@, e);
                assert(e.self_time_us == e.call_count * iu) by (nonlinear_arith)
                    requires
                        e.call_count == 0 || e.call_count == 1,
                        e.call_count == 1 ==> e.self_time_us == iu,
                        e.call_count == 0 ==> e.self_time_us == 0;
                if entries_timed(old(fs)@, iu) {
                    assert forall|j: int| 0 <= j < fs@.len() implies (#[trigger] fs@[j]).self_time_us == fs@[j].call_count * iu
                        && fs@[j].self_time_us <= fs@[j].total_time_us by {
                        if j < old(fs)@.len() {
                            assert(fs@[j] == old(fs)@[j]);
                        }
                    }
                }
            }
        },
    }
}

/// The module name of the frame at `d`.
fn module_name_at(frames: &Vec<ResolvedFrame>, d: usize) -> (r: Option<String>)
    ensures
        r == module_at(frames@, d as int),
{
    if d < frames.len() {
        match &frames[d].module {
            Some(m) => Some(copy_string(&m.name)),
            None => None,
        }
    } else {
        None
    }
}

/// Whether the name at position `d` is counted.
fn included_at(exclude: bool, frames: &Vec<ResolvedFrame>, d: usize) -> (r: bool)
    ensures
        r == frame_included(exclude, frames@, d as int),
{
    if exclude && d < frames.len() {
        match &frames[d].module {
            Some(m) => !is_system_module(m.name.as_str()),
            None => true,
        }
    } else {
        true
    }
}

/// One step of counting: the table after recording position `d` (or not,
/// when it is left out) relates to the table before counting as the
/// positions up to `d + 1` say.
proof fn lemma_count_step(before: Seq<FunctionStats>, mid: Seq<FunctionStats>, after: Seq<FunctionStats>,
    names: Seq<Seq<char>>, exclude: bool, frames: Seq<ResolvedFrame>, d: int, iu: u64, tid: ThreadId)
    requires
        0 <= d < names.len(),
        table_updated(before, mid, names, exclude, frames, d, iu, tid),
        distinct_fn_names(after),
        !frame_included(exclude, frames, d) ==> after == mid,
        frame_included(exclude, frames, d) ==> ({
            let k0 = fn_index(mid, names[d]);
            &&& k0 >= 0 ==> after.len() == mid.len() && forall|j: int| 0 <= j < mid.len() && j != k0 ==> after[j] == mid[j]
            &&& k0 < 0 ==> after.len() == mid.len() + 1 && forall|j: int| 0 <= j < mid.len() ==> after[j] == mid[j]
            &&& after[if k0 >= 0 { k0 } else { mid.len() as int }].function_name@ == names[d]
            &&& entry_updated(if k0 >= 0 { Some(mid[k0]) } else { None },
                    after[if k0 >= 0 { k0 } else { mid.len() as int }], 1, d == 0, iu, tid, module_at(frames, d))
        }),
    ensures
        table_updated(before, after, names, exclude, frames, d + 1, iu, tid),
{
    assert forall|n: Seq<char>| #![trigger fn_index(after, n)] {
        let k0 = fn_index(before, n);
        let k = fn_index(after, n);
        let occ = occurrences(names, exclude, frames, n, d + 1);
        let leaf = d + 1 > 0 && names[0] == n && frame_included(exclude, frames, 0);
        &&& (k >= 0) == (k0 >= 0 || occ > 0)
        &&& k >= 0 ==> entry_updated(if k0 >= 0 { Some(before[k0]) } else { None }, after[k], occ, leaf, iu,
                tid, module_at(frames, first_occurrence(names, exclude, frames, n, d + 1)))
    } by {
        let k0 = fn_index(before, n);
        let km = fn_index(mid, n);
        lemma_fn_index(mid, n);
        lemma_fn_index(before, n);
        lemma_fn_index(after, n);
        lemma_first_occurrence(names, exclude, frames, n, d);
        if d >= 1 {
            lemma_occurrences_first(names, exclude, frames, n, d);
        }
        let occ = occurrences(names, exclude, frames, n, d);
        let hit = names[d] == n && frame_included(exclude, frames, d);
        assert(occurrences(names, exclude, frames, n, d + 1) == occ + if hit { 1nat } else { 0nat });
        // the entry of `n` in `mid`, as counted so far
        if km >= 0 {
            assert(entry_updated(if k0 >= 0 { Some(before[k0]) } else { None }, mid[km], occ,
                d > 0 && names[0] == n && frame_included(exclude, frames, 0), iu, tid,
                module_at(frames, first_occurrence(names, exclude, frames, n, d))));
        }
        if frame_included(exclude, frames, d) {
            let kd = fn_index(mid, names[d]);
            lemma_fn_index(mid, names[d]);
            if kd >= 0 {
                assert forall|i: int| 0 <= i < after.len() implies after[i].function_name@ == mid[i].function_name@ by {
                    if i != kd {
                        assert(after[i] == mid[i]);
                    }
                }
                lemma_fn_index_same_names(after, mid, n);
                if hit {
                    assert(kd == km);
                    assert(occ * iu + iu == (occ + 1) * iu) by (nonlinear_arith);
                } else {
                    if km >= 0 {
                        assert(km != kd);
                        assert(after[km] == mid[km]);
                    }
                }
            } else {
                assert(after.subrange(0, mid.len() as int) =~= mid);
                assert(after =~= mid.push(after[mid.len() as int]));
                lemma_fn_index_push(mid, after[mid.len() as int], n);
                if hit {
                    assert(km == -1);
                    assert(occ == 0);
                    assert(k0 == -1);
                    assert(fn_index(after, n) == mid.len());
                    assert(first_occurrence(names, exclude, frames, n, d + 1) == d);
                } else if km >= 0 {
                    assert(after[km] == mid[km]);
                }
            }
        }
    }
}

/// Before any counted occurrence, position 0 is not a counted occurrence.
proof fn lemma_occurrences_first(names: Seq<Seq<char>>, exclude: bool, frames: Seq<ResolvedFrame>, n: Seq<char>, upto: int)
    requires
        upto >= 1,
    ensures
        names[0] == n && frame_included(exclude, frames, 0) ==> occurrences(names, exclude, frames, n, upto) >= 1,
    decreases upto,
{
    if upto > 1 {
        lemma_occurrences_first(names, exclude, frames, n, upto - 1);
    } else {
        assert(occurrences(names, exclude, frames, n, 0) == 0);
    }
}

/// Records every counted name of a stack in a function table.
fn count_names(fs: &mut Vec<FunctionStats>, names: &Vec<String>, frames: &Vec<ResolvedFrame>, exclude: bool, iu: u64, tid: ThreadId)
    requires
        distinct_fn_names(old(fs)@),
        table_has_room(old(fs)@, names@.len(), iu),
    ensures
        table_updated(old(fs)@, final(fs)@, views(names@), exclude, frames@, names@.len() as int, iu, tid),
        call_sum(final(fs)@) == call_sum(old(fs)@) + if names@.len() > 0 && frame_included(exclude, frames@, 0) { 1int } else { 0 },
        entries_timed(old(fs)@, iu) ==> entries_timed(final(fs)@, iu),
{
    let ghost before = fs@;
    let ghost nv = views(names@);
    proof {
        assert forall|n: Seq<char>| #![trigger fn_index(fs@, n)] {
            let k0 = fn_index(before, n);
            let k = fn_index(fs@, n);
            let occ = occurrences(nv, exclude, frames@, n, 0);
            let leaf = 0 > 0 && nv[0] == n && frame_included(exclude, frames@, 0);
            &&& (k >= 0) == (k0 >= 0 || occ > 0)
            &&& k >= 0 ==> entry_updated(if k0 >= 0 { Some(before[k0]) } else { None }, fs@[k], occ, leaf, iu,
                    tid, module_at(frames@, first_occurrence(nv, exclude, frames@, n, 0)))
        } by {
            lemma_fn_index(before, n);
            let k = fn_index(before, n);
            if k >= 0 {
                assert(min_u64(before[k].min_time_us, iu) == before[k].min_time_us || true);
            }
        }
    }
    let mut d: usize = 0;
    while d < names.len()
        invariant
            d <= names@.len(),
            nv == views(names@),
            table_has_room(before, names@.len(), iu),
            table_updated(before, fs@, nv, exclude, frames@, d as int, iu, tid),
            call_sum(fs@) == call_sum(before) + if d > 0 && frame_included(exclude, frames@, 0) { 1int } else { 0 },
            entries_timed(before, iu) ==> entries_timed(fs@, iu),
        decreases names@.len() - d,
    {
        let ghost mid = fs@;
        if included_at(exclude, frames, d) {
            let m = module_name_at(frames, d);
            proof {
                let n = nv[d as int];
                assert(nv[d as int] == names@[d as int]@);
                lemma_fn_index(mid, n);
                lemma_fn_index(before, n);
                let km = fn_index(mid, n);
                let k0 = fn_index(before, n);
                lemma_occurrences_le(nv, exclude, frames@, n, d as int);
                let occ = occurrences(nv, exclude, frames@, n, d as int);
                if km >= 0 {
                    if k0 >= 0 {
                        assert(before[k0].total_time_us + names@.len() * iu <= u64::MAX);
                    }
                    assert((occ + 1) * iu <= names@.len() * iu) by (nonlinear_arith)
                        requires occ + 1 <= names@.len();
                    assert(occ * iu + iu == (occ + 1) * iu) by (nonlinear_arith);
                    assert(1 * iu <= names@.len() * iu) by (nonlinear_arith)
                        requires 1 <= names@.len();
                }
            }
            record_name(fs, &names[d], d == 0, iu, tid, m);
        }
        proof {
            lemma_count_step(before, mid, fs@, nv, exclude, frames@, d as int, iu, tid);
        }
        d = d + 1;
    }
}

/// `s` without repeats of consecutive names.
fn compress_names(s: Vec<String>) -> (r: Vec<String>)
    ensures
        views(r@) == dedup_consecutive(views(s@)),
{
    let mut out: Vec<String> = Vec::new();
    let mut i: usize = 0;
    while i < s.len()
        invariant
            i <= s@.len(),
            views(out@) == dedup_consecutive(views(s@.subrange(0, i as int))),
        decreases s@.len() - i,
    {
        let ghost prev = views(s@.subrange(0, i as int));
        let ghost cur = views(s@.subrange(0, i + 1));
        assert(cur.drop_last() =~= prev);
        assert(cur.last() == s@[i as int]@);
        let n = out.len();
        if n > 0 && crate::text::str_eq(out[n - 1].as_str(), s[i].as_str()) {
        } else {
            out.push(copy_string(&s[i]));
            assert(views(out@) =~= dedup_consecutive(prev).push(s@[i as int]@));
        }
        i = i + 1;
    }
    assert(s@.subrange(0, i as int) =~= s@);
    out
}


/// Sum of the sample counts of threads.
pub open spec fn thread_samples_sum(ts: Seq<ThreadStats>) -> nat
    decreases ts.len(),
{
    if ts.len() == 0 { 0 } else { thread_samples_sum(ts.drop_last()) + ts.last().total_samples as nat }
}

/// Sum of the sample counts of processes.
pub open spec fn process_samples_sum(ps: Seq<(ProcessId, u64)>) -> nat
    decreases ps.len(),
{
    if ps.len() == 0 { 0 } else { process_samples_sum(ps.drop_last()) + ps.last().1 as nat }
}

/// Number of function entries over threads.
pub open spec fn function_count_sum(ts: Seq<ThreadStats>) -> nat
    decreases ts.len(),
{
    if ts.len() == 0 { 0 } else { function_count_sum(ts.drop_last()) + ts.last().function_stats@.len() }
}

/// The function entries of all threads, thread by thread.
pub open spec fn all_functions(ts: Seq<ThreadStats>) -> Seq<FunctionStats>
    decreases ts.len(),
{
    if ts.len() == 0 { Seq::empty() } else { all_functions(ts.drop_last()) + ts.last().function_stats@ }
}

pub proof fn lemma_sum_update(ts: Seq<ThreadStats>, i: int, t: ThreadStats)
    requires
        0 <= i < ts.len(),
    ensures
        thread_samples_sum(ts.update(i, t)) == thread_samples_sum(ts) - ts[i].total_samples + t.total_samples,
    decreases ts.len(),
{
    if i < ts.len() - 1 {
        assert(ts.update(i, t).drop_last() =~= ts.drop_last().update(i, t));
        lemma_sum_update(ts.drop_last(), i, t);
    } else {
        assert(ts.update(i, t).drop_last() =~= ts.drop_last());
    }
}

pub proof fn lemma_psum_update(ps: Seq<(ProcessId, u64)>, i: int, p: (ProcessId, u64))
    requires
        0 <= i < ps.len(),
    ensures
        process_samples_sum(ps.update(i, p)) == process_samples_sum(ps) - ps[i].1 + p.1,
    decreases ps.len(),
{
    if i < ps.len() - 1 {
        assert(ps.update(i, p).drop_last() =~= ps.drop_last().update(i, p));
        lemma_psum_update(ps.drop_last(), i, p);
    } else {
        assert(ps.update(i, p).drop_last() =~= ps.drop_last());
    }
}

pub proof fn lemma_sum_bound(ts: Seq<ThreadStats>, i: int)
    requires
        0 <= i < ts.len(),
    ensures
        ts[i].total_samples <= thread_samples_sum(ts),
    decreases ts.len(),
{
    if i < ts.len() - 1 {
        lemma_sum_bound(ts.drop_last(), i);
    }
}

pub proof fn lemma_psum_bound(ps: Seq<(ProcessId, u64)>, i: int)
    requires
        0 <= i < ps.len(),
    ensures
        ps[i].1 <= process_samples_sum(ps),
    decreases ps.len(),
{
    if i < ps.len() - 1 {
        lemma_psum_bound(ps.drop_last(), i);
    }
}

/// Aggregates stacks into per-thread and per-process statistics.
pub struct StatsAggregator {
    config: AggregatorConfig,
    thread_stats: Vec<ThreadStats>,
    process_stats: Vec<(ProcessId, u64)>,
    total_samples: u64,
    total_time_ms: u64,
}

/// Summary counts of an aggregation.
#[derive(Debug, Clone)]
pub struct AggregatorSummary {
    pub total_samples: u64,
    pub total_threads: usize,
    pub total_processes: usize,
    pub total_functions: usize,
    pub total_time_ms: u64,
}

impl StatsAggregator {
    pub closed spec fn threads(&self) -> Seq<ThreadStats> {
        self.thread_stats@
    }

    pub closed spec fn processes(&self) -> Seq<(ProcessId, u64)> {
        self.process_stats@
    }

    pub closed spec fn samples(&self) -> u64 {
        self.total_samples
    }

    pub closed spec fn time_ms(&self) -> u64 {
        self.total_time_ms
    }

    pub closed spec fn cfg(&self) -> AggregatorConfig {
        self.config
    }

    /// One entry per thread and per process, one entry per function within a
    /// thread, and the sample counts of the threads, and of the processes,
    /// add up to the total.
    pub open spec fn wf(&self) -> bool {
        &&& distinct_threads(self.threads())
        &&& forall|i: int| 0 <= i < self.threads().len() ==> (#[trigger] self.threads()[i]).wf()
        &&& distinct_processes(self.processes())
        &&& thread_samples_sum(self.threads()) == self.samples()
        &&& process_samples_sum(self.processes()) == self.samples()
    }

    /// In every thread the call counts add up to the thread's samples, and
    /// each function's self time is its call count times the sample interval
    /// and at most its total time.
    pub open spec fn calls_match(&self) -> bool {
        calls_balanced(self.threads(), (self.cfg().sample_interval_ms as nat * 1000) as u64)
    }

    /// Every counter can take one more stack.
    pub open spec fn room_for(&self, stack: &CollectedStack) -> bool {
        let iu = (self.cfg().sample_interval_ms as nat * 1000) as u64;
        let ti = thread_index(self.threads(), stack.thread_id);
        &&& self.samples() < u64::MAX
        &&& self.time_ms() + self.cfg().sample_interval_ms <= u64::MAX
        &&& table_has_room(if ti >= 0 { self.threads()[ti].function_stats@ } else { Seq::empty() }, stack.frames@.len(), iu)
    }

    pub fn new(config: AggregatorConfig) -> (r: Self)
        ensures
            r.wf(),
            r.cfg() == config,
            r.threads().len() == 0,
            r.processes().len() == 0,
            r.samples() == 0,
            r.time_ms() == 0,
            r.calls_match(),
    {
        StatsAggregator { config, thread_stats: Vec::new(), process_stats: Vec::new(), total_samples: 0, total_time_ms: 0 }
    }

    /// Whether every counter can take one more stack.
    pub fn has_room(&self, stack: &CollectedStack) -> (r: bool)
        requires
            self.wf(),
        ensures
            r == self.room_for(stack),
    {
        if self.total_samples == u64::MAX {
            return false;
        }
        if self.total_time_ms > u64::MAX - self.config.sample_interval_ms as u64 {
            return false;
        }
        let iu: u64 = self.config.sample_interval_ms as u64 * 1000;
        let len = stack.frames.len() as u64;
        if iu > 0 && len > u64::MAX / iu {
            assert(len * iu > u64::MAX) by (nonlinear_arith)
                requires iu > 0, len > u64::MAX / iu;
            return false;
        }
        assert(len * iu <= u64::MAX) by (nonlinear_arith)
            requires iu == 0 || len <= u64::MAX / iu;
        let span: u64 = len * iu;
        match find_thread(&self.thread_stats, stack.thread_id) {
            None => true,
            Some(ti) => {
                proof { lemma_thread_index(self.thread_stats@, stack.thread_id); }
                let fs = &self.thread_stats[ti].function_stats;
                let mut i: usize = 0;
                while i < fs.len()
                    invariant
                        i <= fs@.len(),
                        ti as int == thread_index(self.thread_stats@, stack.thread_id),
                        0 <= ti < self.thread_stats@.len(),
                        fs@ == self.thread_stats@[ti as int].function_stats@,
                        iu == (self.config.sample_interval_ms as nat * 1000) as u64,
                        self.total_samples < u64::MAX,
                        self.total_time_ms + self.config.sample_interval_ms <= u64::MAX,
                        span == stack.frames@.len() * iu,
                        span <= u64::MAX,
                        forall|j: int| 0 <= j < i ==> (#[trigger] fs@[j]).total_time_us + span <= u64::MAX
                            && fs@[j].self_time_us + iu <= u64::MAX && fs@[j].call_count < u64::MAX,
                    decreases fs@.len() - i,
                {
                    let f = &fs[i];
                    if f.total_time_us > u64::MAX - span || f.self_time_us > u64::MAX - iu || f.call_count == u64::MAX {
                        assert(!(fs@[i as int].total_time_us + span <= u64::MAX
                            && fs@[i as int].self_time_us + iu <= u64::MAX && fs@[i as int].call_count < u64::MAX));
                        return false;
                    }
                    i = i + 1;
                }
                true
            },
        }
    }

    /// Counts one stack: one more sample for its thread and its process, and
    /// for every counted function name (innermost first, runs of one name
    /// merged when configured, system frames left out when configured) the
    /// sample interval added to its total time, and to its self time and call
    /// count for the innermost name. An empty stack changes nothing.
    pub fn process_stack(&mut self, stack: &CollectedStack) -> (r: Result<()>)
        requires
            old(self).wf(),
            old(self).room_for(stack),
        ensures
            r is Ok,
            final(self).wf(),
            final(self).cfg() == old(self).cfg(),
            stack.frames@.len() == 0 ==> final(self).threads() == old(self).threads()
                && final(self).processes() == old(self).processes()
                && final(self).samples() == old(self).samples()
                && final(self).time_ms() == old(self).time_ms(),
            stack.frames@.len() > 0 ==> final(self).samples() == old(self).samples() + 1
                && final(self).time_ms() == old(self).time_ms() + old(self).cfg().sample_interval_ms
                && final(self).processes() == ({
                    let pi = process_index(old(self).processes(), stack.process_id);
                    if pi >= 0 {
                        old(self).processes().update(pi, (stack.process_id, (old(self).processes()[pi].1 + 1) as u64))
                    } else {
                        old(self).processes().push((stack.process_id, 1u64))
                    }
                })
                && thread_counted(old(self).threads(), final(self).threads(), stack, old(self).cfg()),
            stack_counted(*old(self), *final(self), *stack),
            old(self).calls_match() && !old(self).cfg().exclude_system_functions ==> final(self).calls_match(),
    {
        proof { reveal(stack_counted); }
        if stack.frames.len() == 0 {
            return Ok(());
        }
        let ghost old_threads = self.thread_stats@;
        let tid = stack.thread_id;
        let pid = stack.process_id;
        proof { lemma_thread_index(self.thread_stats@, tid); }
        let ti: usize = match find_thread(&self.thread_stats, tid) {
            Some(i) => i,
            None => {
                self.thread_stats.push(ThreadStats::new(tid, pid));
                self.thread_stats.len() - 1
            },
        };
        let ghost mid_threads = self.thread_stats@;
        proof {
            if mid_threads.len() > old_threads.len() {
                assert(mid_threads.drop_last() =~= old_threads);
                assert(thread_samples_sum(mid_threads) == thread_samples_sum(old_threads));
            }
            lemma_sum_bound(mid_threads, ti as int);
        }
        let mut ts = self.thread_stats.remove(ti);
        let ghost base = ts;
        ts.total_samples = ts.total_samples + 1;
        let mut names: Vec<String> = Vec::new();
        let mut i: usize = 0;
        while i < stack.frames.len()
            invariant
                i <= stack.frames@.len(),
                names@.len() == i,
                forall|j: int| 0 <= j < i ==> #[trigger] names@[j]@ == display_name_spec(stack.frames@[j]),
            decreases stack.frames@.len() - i,
        {
            names.push(stack.frames[i].display_name());
            i = i + 1;
        }
        assert(views(names@) =~= display_names(stack.frames@));
        if self.config.merge_recursive_calls {
            names = compress_names(names);
            proof { lemma_dedup_len(display_names(stack.frames@)); }
        }
        let iu: u64 = self.config.sample_interval_ms as u64 * 1000;
        proof {
            let nl = names@.len();
            let fl = stack.frames@.len();
            assert(nl <= fl);
            assert(nl * iu <= fl * iu) by (nonlinear_arith)
                requires nl <= fl;
            assert(table_has_room(ts.function_stats@, names@.len(), iu));
        }
        count_names(&mut ts.function_stats, &names, &stack.frames, self.config.exclude_system_functions, iu, tid);
        self.thread_stats.insert(ti, ts);
        let ghost old_ps = self.process_stats@;
        proof { lemma_process_index(self.process_stats@, pid); }
        match find_process(&self.process_stats, pid) {
            Some(pi) => {
                proof { lemma_psum_bound(self.process_stats@, pi as int); }
                let c = self.process_stats[pi].1;
                self.process_stats.set(pi, (pid, c + 1));
                proof { lemma_psum_update(old_ps, pi as int, (pid, (c + 1) as u64)); }
            },
            None => {
                self.process_stats.push((pid, 1));
                proof { assert(self.process_stats@.drop_last() =~= old_ps); }
            },
        }
        self.total_samples = self.total_samples + 1;
        self.total_time_ms = self.total_time_ms + self.config.sample_interval_ms as u64;
        proof {
            let nt = self.thread_stats@;
            assert(nt =~= mid_threads.update(ti as int, ts));
            lemma_sum_update(mid_threads, ti as int, ts);
            assert forall|a: int, b: int| 0 <= a < b < nt.len() implies nt[a].thread_id != nt[b].thread_id by {
                if mid_threads.len() > old_threads.len() {
                    if b == nt.len() - 1 {
                        assert(nt[a] == old_threads[a] || a == ti);
                    }
                }
            }
            assert forall|a: int, b: int| 0 <= a < b < self.process_stats@.len() implies self.process_stats@[a].0 != self.process_stats@[b].0 by {
                if b == old_ps.len() {
                    assert(self.process_stats@[a] == old_ps[a]);
                }
            }
            assert forall|j: int| 0 <= j < nt.len() implies (#[trigger] nt[j]).wf() by {
                if j != ti {
                    assert(nt[j] == mid_threads[j]);
                }
            }
            if mid_threads.len() == old_threads.len() {
                assert(mid_threads =~= old_threads);
            }
            let iu0 = (self.config.sample_interval_ms as nat * 1000) as u64;
            assert(iu0 == iu);
            if old(self).calls_match() && !self.config.exclude_system_functions {
                assert(names@.len() > 0);
                assert(frame_included(false, stack.frames@, 0));
                assert(call_sum(base.function_stats@) == base.total_samples && entries_timed(base.function_stats@, iu)) by {
                    if mid_threads.len() == old_threads.len() {
                        assert(mid_threads[ti as int] == old_threads[ti as int]);
                    } else {
                        assert(base.function_stats@.len() == 0);
                    }
                }
                assert forall|i: int| 0 <= i < nt.len() implies call_sum((#[trigger] nt[i]).function_stats@) == nt[i].total_samples
                    && entries_timed(nt[i].function_stats@, iu) by {
                    if i != ti {
                        assert(nt[i] == mid_threads[i]);
                        assert(mid_threads[i] == old_threads[i]);
                    }
                }
            }
        }
        Ok(())
    }
}

impl StatsAggregator {
    /// Counts the stacks in order; stops with an error, keeping what was
    /// counted, when a counter would overflow.
    pub fn process_stacks(&mut self, stacks: &[CollectedStack]) -> (r: Result<()>)
        requires
            old(self).wf(),
        ensures
            final(self).wf(),
            final(self).cfg() == old(self).cfg(),
            final(self).samples() <= old(self).samples() + stacks@.len(),
            r is Ok ==> exists|states: Seq<StatsAggregator>| #[trigger] counted_run(*old(self), stacks@, stacks@.len() as int, states)
                && states.last() == *final(self),
            r is Err ==> exists|k: int, states: Seq<StatsAggregator>| #[trigger] counted_run(*old(self), stacks@, k, states)
                && states.last() == *final(self) && k < stacks@.len() && !final(self).room_for(&stacks@[k]),
            old(self).calls_match() && !old(self).cfg().exclude_system_functions ==> final(self).calls_match(),
    {
        let mut i: usize = 0;
        let ghost mut states: Seq<StatsAggregator> = seq![*self];
        while i < stacks.len()
            invariant
                i <= stacks@.len(),
                self.wf(),
                self.cfg() == old(self).cfg(),
                self.samples() <= old(self).samples() + i,
                counted_run(*old(self), stacks@, i as int, states),
                states.last() == *self,
                old(self).calls_match() && !old(self).cfg().exclude_system_functions ==> self.calls_match(),
            decreases stacks@.len() - i,
        {
            if !self.has_room(&stacks[i]) {
                assert(counted_run(*old(self), stacks@, i as int, states));
                return Err(ProfilerError::generic("sample counters would overflow"));
            }
            let ghost prev = *self;
            let _ = self.process_stack(&stacks[i]);
            proof {
                let s0 = states;
                states = states.push(*self);
                assert forall|k: int| 0 <= k < i + 1 implies (#[trigger] states[k]).room_for(&stacks@[k])
                    && stack_counted(states[k], states[k + 1], stacks@[k]) by {
                    if k < i {
                        assert(states[k] == s0[k]);
                        assert(states[k + 1] == s0[k + 1]);
                    } else {
                        assert(states[k] == prev);
                        assert(states[k + 1] == *self);
                    }
                }
            }
            i = i + 1;
        }
        assert(counted_run(*old(self), stacks@, stacks@.len() as int, states));
        Ok(())
    }

    /// The statistics of thread `thread_id`.
    pub fn get_thread_stats(&self, thread_id: ThreadId) -> (r: Option<&ThreadStats>)
        ensures
            thread_index(self.threads(), thread_id) >= 0 ==> r == Some(&self.threads()[thread_index(self.threads(), thread_id)]),
            thread_index(self.threads(), thread_id) < 0 ==> r is None,
    {
        proof { lemma_thread_index(self.thread_stats@, thread_id); }
        match find_thread(&self.thread_stats, thread_id) {
            Some(i) => Some(&self.thread_stats[i]),
            None => None,
        }
    }

    /// Mutable access to the statistics of thread `thread_id`.
    pub fn get_thread_stats_mut(&mut self, thread_id: ThreadId) -> (r: Option<&mut ThreadStats>)
        ensures
            thread_index(old(self).threads(), thread_id) >= 0 ==> (r matches Some(t)
                && *t == old(self).threads()[thread_index(old(self).threads(), thread_id)]),
            thread_index(old(self).threads(), thread_id) < 0 ==> r is None,
    {
        proof { lemma_thread_index(self.thread_stats@, thread_id); }
        match find_thread(&self.thread_stats, thread_id) {
            Some(i) => Some(&mut self.thread_stats[i]),
            None => None,
        }
    }

    pub fn get_all_thread_stats(&self) -> (r: &Vec<ThreadStats>)
        ensures
            r@ == self.threads(),
    {
        &self.thread_stats
    }

    /// The statistics of function `function_name` in thread `thread_id`.
    pub fn get_function_stats(&self, thread_id: ThreadId, function_name: &str) -> (r: Option<&FunctionStats>)
        ensures
            ({
                let ti = thread_index(self.threads(), thread_id);
                if ti >= 0 && fn_index(self.threads()[ti].function_stats@, function_name@) >= 0 {
                    r == Some(&self.threads()[ti].function_stats@[fn_index(self.threads()[ti].function_stats@, function_name@)])
                } else {
                    r is None
                }
            }),
    {
        match self.get_thread_stats(thread_id) {
            Some(ts) => {
                proof { lemma_fn_index(ts.function_stats@, function_name@); }
                ts.get(function_name)
            },
            None => None,
        }
    }

    /// The `limit` functions of thread `thread_id` with the largest total time.
    pub fn get_top_functions(&self, thread_id: ThreadId, limit: usize) -> (r: Vec<FunctionStats>)
        ensures
            ({
                let ti = thread_index(self.threads(), thread_id);
                &&& ti < 0 ==> r@.len() == 0
                &&& ti >= 0 ==> exists|idx: Seq<usize>| #[trigger] crate::rank::is_top_selection(
                        crate::types::time_keys(self.threads()[ti].function_stats@), limit as nat, idx)
                        && r@ == idx.map_values(|i: usize| self.threads()[ti].function_stats@[i as int])
            }),
    {
        match self.get_thread_stats(thread_id) {
            Some(ts) => ts.top_functions_by_time(limit),
            None => Vec::new(),
        }
    }

    /// The `limit` functions of all threads with the largest total time.
    pub fn get_global_top_functions(&self, limit: usize) -> (r: Vec<FunctionStats>)
        ensures
            exists|idx: Seq<usize>| #[trigger] crate::rank::is_top_selection(
                crate::types::time_keys(all_functions(self.threads())), limit as nat, idx)
                && r@ == idx.map_values(|i: usize| all_functions(self.threads())[i as int]),
    {
        let mut all: Vec<FunctionStats> = Vec::new();
        let mut t: usize = 0;
        while t < self.thread_stats.len()
            invariant
                t <= self.thread_stats@.len(),
                all@ == all_functions(self.thread_stats@.subrange(0, t as int)),
            decreases self.thread_stats@.len() - t,
        {
            let fs = &self.thread_stats[t].function_stats;
            let ghost start = all@;
            let mut i: usize = 0;
            while i < fs.len()
                invariant
                    i <= fs@.len(),
                    all@ == start + fs@.subrange(0, i as int),
                decreases fs@.len() - i,
            {
                all.push(fs[i].copy());
                i = i + 1;
                assert(all@ =~= start + fs@.subrange(0, i as int));
            }
            proof {
                assert(fs@.subrange(0, i as int) =~= fs@);
                let nx = self.thread_stats@.subrange(0, t + 1);
                assert(nx.drop_last() =~= self.thread_stats@.subrange(0, t as int));
                assert(nx.last() == self.thread_stats@[t as int]);
                assert(all_functions(nx) == all_functions(nx.drop_last()) + nx.last().function_stats@);
            }
            t = t + 1;
        }
        assert(self.thread_stats@.subrange(0, t as int) =~= self.thread_stats@);
        assert(all@ == all_functions(self.threads()));
        let tmp = ThreadStats { thread_id: 0, process_id: 0, total_samples: 0, total_execution_time_us: 0, function_stats: all };
        let r = tmp.top_functions_by_time(limit);
        assert(tmp.function_stats@ == all_functions(self.threads()));
        r
    }

    /// Copies of the statistics of the threads of process `process_id`.
    pub fn get_process_threads(&self, process_id: ProcessId) -> (r: Vec<ThreadStats>)
        ensures
            r@.len() == self.threads().filter(|t: ThreadStats| t.process_id == process_id).len(),
            forall|i: int| 0 <= i < r@.len() ==> (#[trigger] r@[i]).same_as(self.threads().filter(|t: ThreadStats| t.process_id == process_id)[i]),
    {
        let ghost f = |t: ThreadStats| t.process_id == process_id;
        let mut out: Vec<ThreadStats> = Vec::new();
        let mut i: usize = 0;
        while i < self.thread_stats.len()
            invariant
                i <= self.thread_stats@.len(),
                f == (|t: ThreadStats| t.process_id == process_id),
                out@.len() == self.thread_stats@.subrange(0, i as int).filter(f).len(),
                forall|j: int| 0 <= j < out@.len() ==> (#[trigger] out@[j]).same_as(self.thread_stats@.subrange(0, i as int).filter(f)[j]),
            decreases self.thread_stats@.len() - i,
        {
            let ghost prev = self.thread_stats@.subrange(0, i as int);
            let ghost next = self.thread_stats@.subrange(0, i + 1);
            proof {
                assert(next =~= prev.push(self.thread_stats@[i as int]));
                prev.lemma_filter_push(self.thread_stats@[i as int], f);
            }
            if self.thread_stats[i].process_id == process_id {
                out.push(self.thread_stats[i].copy());
            }
            i = i + 1;
        }
        assert(self.thread_stats@.subrange(0, i as int) =~= self.thread_stats@);
        out
    }
}

/// A function's statistics with its average time set from its totals (when
/// it was called at all).
pub open spec fn with_average(f: FunctionStats) -> FunctionStats {
    if f.call_count > 0 { FunctionStats { average_time_us: f.total_time_us / f.call_count, ..f } } else { f }
}

/// The average of a function that was called is its total time divided by
/// its calls, rounded down.
pub proof fn law_average_is_total_per_call(f: FunctionStats)
    requires
        f.call_count > 0,
    ensures
        with_average(f).average_time_us * f.call_count <= f.total_time_us,
        f.total_time_us < (with_average(f).average_time_us + 1) * f.call_count,
        with_average(f).total_time_us == f.total_time_us,
        with_average(f).call_count == f.call_count,
{
    let t = f.total_time_us as int;
    let c = f.call_count as int;
    vstd::arithmetic::div_mod::lemma_fundamental_div_mod(t, c);
    vstd::arithmetic::div_mod::lemma_mod_pos_bound(t, c);
    let q = t / c;
    assert(q * c <= t) by (nonlinear_arith)
        requires t == c * q + t % c, 0 <= t % c;
    assert(t < (q + 1) * c) by (nonlinear_arith)
        requires t == c * q + t % c, t % c < c;
}

/// The thread `b` is `a` with another function table.
pub open spec fn same_thread_fields(a: ThreadStats, b: ThreadStats) -> bool {
    a.thread_id == b.thread_id && a.process_id == b.process_id && a.total_samples == b.total_samples
        && a.total_execution_time_us == b.total_execution_time_us
}

pub proof fn lemma_sum_same_fields(a: Seq<ThreadStats>, b: Seq<ThreadStats>)
    requires
        a.len() == b.len(),
        forall|i: int| 0 <= i < a.len() ==> same_thread_fields(#[trigger] a[i], b[i]),
    ensures
        thread_samples_sum(a) == thread_samples_sum(b),
    decreases a.len(),
{
    if a.len() > 0 {
        lemma_sum_same_fields(a.drop_last(), b.drop_last());
    }
}

fn averaged(fs: &Vec<FunctionStats>) -> (r: Vec<FunctionStats>)
    ensures
        r@ == fs@.map_values(|f: FunctionStats| with_average(f)),
{
    let mut out: Vec<FunctionStats> = Vec::new();
    let mut i: usize = 0;
    while i < fs.len()
        invariant
            i <= fs@.len(),
            out@ == fs@.subrange(0, i as int).map_values(|f: FunctionStats| with_average(f)),
        decreases fs@.len() - i,
    {
        let mut e = fs[i].copy();
        if e.call_count > 0 {
            e.average_time_us = e.total_time_us / e.call_count;
        }
        out.push(e);
        i = i + 1;
        assert(out@ =~= fs@.subrange(0, i as int).map_values(|f: FunctionStats| with_average(f)));
    }
    assert(fs@.subrange(0, i as int) =~= fs@);
    out
}

fn retain_called(fs: &Vec<FunctionStats>, threshold: u64) -> (r: Vec<FunctionStats>)
    requires
        distinct_fn_names(fs@),
    ensures
        r@ == fs@.filter(|f: FunctionStats| f.call_count >= threshold),
        distinct_fn_names(r@),
{
    let ghost p = |f: FunctionStats| f.call_count >= threshold;
    let mut out: Vec<FunctionStats> = Vec::new();
    let mut i: usize = 0;
    while i < fs.len()
        invariant
            i <= fs@.len(),
            p == (|f: FunctionStats| f.call_count >= threshold),
            distinct_fn_names(fs@),
            out@ == fs@.subrange(0, i as int).filter(p),
            distinct_fn_names(out@),
            forall|j: int| 0 <= j < out@.len() ==> exists|t: int| 0 <= t < i && #[trigger] out@[j] == fs@[t],
        decreases fs@.len() - i,
    {
        let ghost prev = fs@.subrange(0, i as int);
        let ghost old_out = out@;
        proof {
            assert(fs@.subrange(0, i + 1) =~= prev.push(fs@[i as int]));
            prev.lemma_filter_push(fs@[i as int], p);
        }
        if fs[i].call_count >= threshold {
            out.push(fs[i].copy());
            proof {
                assert forall|a: int, b: int| 0 <= a < b < out@.len() implies out@[a].function_name@ != out@[b].function_name@ by {
                    assert(out@[a] == old_out[a] || b < old_out.len());
                    if b == old_out.len() {
                        let t = choose|t: int| 0 <= t < i && old_out[a] == fs@[t];
                        assert(out@[a] == fs@[t]);
                    } else {
                        assert(out@[a] == old_out[a]);
                        assert(out@[b] == old_out[b]);
                    }
                }
                assert forall|j: int| 0 <= j < out@.len() implies exists|t: int| 0 <= t < i + 1 && #[trigger] out@[j] == fs@[t] by {
                    if j < old_out.len() {
                        assert(out@[j] == old_out[j]);
                        let t = choose|t: int| 0 <= t < i && old_out[j] == fs@[t];
                        assert(out@[j] == fs@[t]);
                    } else {
                        assert(out@[j] == fs@[i as int]);
                    }
                }
            }
        }
        i = i + 1;
    }
    assert(fs@.subrange(0, i as int) =~= fs@);
    out
}

impl StatsAggregator {
    /// Sets every function's average time from its totals.
    pub fn calculate_exclusive_times(&mut self)
        requires
            old(self).wf(),
        ensures
            final(self).wf(),
            final(self).cfg() == old(self).cfg(),
            final(self).processes() == old(self).processes(),
            final(self).samples() == old(self).samples(),
            final(self).time_ms() == old(self).time_ms(),
            final(self).threads().len() == old(self).threads().len(),
            forall|t: int| 0 <= t < old(self).threads().len() ==> same_thread_fields(#[trigger] final(self).threads()[t], old(self).threads()[t])
                && final(self).threads()[t].function_stats@ == old(self).threads()[t].function_stats@.map_values(|f: FunctionStats| with_average(f)),
            forall|t: int, i: int| 0 <= t < final(self).threads().len() && 0 <= i < final(self).threads()[t].function_stats@.len()
                && (#[trigger] final(self).threads()[t].function_stats@[i]).call_count > 0 ==> {
                    let e = final(self).threads()[t].function_stats@[i];
                    e.average_time_us * e.call_count <= e.total_time_us && e.total_time_us < (e.average_time_us + 1) * e.call_count
                },
    {
        let mut out: Vec<ThreadStats> = Vec::new();
        let mut t: usize = 0;
        while t < self.thread_stats.len()
            invariant
                t <= self.thread_stats@.len(),
                out@.len() == t,
                forall|j: int| 0 <= j < t ==> same_thread_fields(#[trigger] out@[j], self.thread_stats@[j])
                    && out@[j].function_stats@ == self.thread_stats@[j].function_stats@.map_values(|f: FunctionStats| with_average(f)),
            decreases self.thread_stats@.len() - t,
        {
            let ts = &self.thread_stats[t];
            let fs = averaged(&ts.function_stats);
            out.push(ThreadStats {
                thread_id: ts.thread_id,
                process_id: ts.process_id,
                total_samples: ts.total_samples,
                total_execution_time_us: ts.total_execution_time_us,
                function_stats: fs,
            });
            t = t + 1;
        }
        proof {
            lemma_sum_same_fields(out@, self.thread_stats@);
            assert forall|a: int, b: int| 0 <= a < b < out@.len() implies out@[a].thread_id != out@[b].thread_id by {
                assert(same_thread_fields(out@[a], self.thread_stats@[a]));
                assert(same_thread_fields(out@[b], self.thread_stats@[b]));
            }
            assert forall|j: int| 0 <= j < out@.len() implies (#[trigger] out@[j]).wf() by {
                assert(self.thread_stats@[j].wf());
                let a = self.thread_stats@[j].function_stats@;
                assert forall|x: int, y: int| 0 <= x < y < out@[j].function_stats@.len() implies
                    out@[j].function_stats@[x].function_name@ != out@[j].function_stats@[y].function_name@ by {
                    assert(out@[j].function_stats@[x].function_name == a[x].function_name);
                    assert(out@[j].function_stats@[y].function_name == a[y].function_name);
                }
            }
            assert forall|t: int, i: int| 0 <= t < out@.len() && 0 <= i < out@[t].function_stats@.len()
                && (#[trigger] out@[t].function_stats@[i]).call_count > 0 implies {
                    let e = out@[t].function_stats@[i];
                    e.average_time_us * e.call_count <= e.total_time_us && e.total_time_us < (e.average_time_us + 1) * e.call_count
                } by {
                let f0 = self.thread_stats@[t].function_stats@[i];
                assert(out@[t].function_stats@[i] == with_average(f0));
                law_average_is_total_per_call(f0);
            }
        }
        self.thread_stats = out;
    }

    /// Percentages are derived on demand from the totals; nothing is stored.
    pub fn calculate_percentages(&mut self)
        ensures
            final(self).threads() == old(self).threads(),
            final(self).processes() == old(self).processes(),
            final(self).samples() == old(self).samples(),
            final(self).time_ms() == old(self).time_ms(),
            final(self).cfg() == old(self).cfg(),
    {
    }

    /// Drops, in every thread, the functions called fewer than
    /// `min_sample_count` times.
    pub fn filter_low_sample_functions(&mut self)
        requires
            old(self).wf(),
        ensures
            final(self).wf(),
            final(self).cfg() == old(self).cfg(),
            final(self).processes() == old(self).processes(),
            final(self).samples() == old(self).samples(),
            final(self).time_ms() == old(self).time_ms(),
            final(self).threads().len() == old(self).threads().len(),
            forall|t: int| 0 <= t < old(self).threads().len() ==> same_thread_fields(#[trigger] final(self).threads()[t], old(self).threads()[t])
                && final(self).threads()[t].function_stats@ == old(self).threads()[t].function_stats@.filter(
                    |f: FunctionStats| f.call_count >= old(self).cfg().min_sample_count as u64),
    {
        let threshold = self.config.min_sample_count as u64;
        let mut out: Vec<ThreadStats> = Vec::new();
        let mut t: usize = 0;
        while t < self.thread_stats.len()
            invariant
                t <= self.thread_stats@.len(),
                threshold == self.config.min_sample_count as u64,
                forall|j: int| 0 <= j < self.thread_stats@.len() ==> (#[trigger] self.thread_stats@[j]).wf(),
                out@.len() == t,
                forall|j: int| 0 <= j < t ==> same_thread_fields(#[trigger] out@[j], self.thread_stats@[j])
                    && out@[j].function_stats@ == self.thread_stats@[j].function_stats@.filter(|f: FunctionStats| f.call_count >= threshold)
                    && out@[j].wf(),
            decreases self.thread_stats@.len() - t,
        {
            let ts = &self.thread_stats[t];
            proof { assert(ts.wf()); }
            let fs = retain_called(&ts.function_stats, threshold);
            out.push(ThreadStats {
                thread_id: ts.thread_id,
                process_id: ts.process_id,
                total_samples: ts.total_samples,
                total_execution_time_us: ts.total_execution_time_us,
                function_stats: fs,
            });
            t = t + 1;
        }
        proof {
            lemma_sum_same_fields(out@, self.thread_stats@);
            assert forall|a: int, b: int| 0 <= a < b < out@.len() implies out@[a].thread_id != out@[b].thread_id by {
                assert(same_thread_fields(out@[a], self.thread_stats@[a]));
                assert(same_thread_fields(out@[b], self.thread_stats@[b]));
            }
        }
        self.thread_stats = out;
    }

    /// Forgets everything counted; the configuration stays.
    pub fn reset(&mut self)
        ensures
            final(self).wf(),
            final(self).cfg() == old(self).cfg(),
            final(self).threads().len() == 0,
            final(self).processes().len() == 0,
            final(self).samples() == 0,
            final(self).time_ms() == 0,
    {
        self.thread_stats = Vec::new();
        self.process_stats = Vec::new();
        self.total_samples = 0;
        self.total_time_ms = 0;
    }

    pub fn total_samples(&self) -> (r: u64)
        ensures
            r == self.samples(),
    {
        self.total_samples
    }

    pub fn config(&self) -> (r: &AggregatorConfig)
        ensures
            *r == self.cfg(),
    {
        &self.config
    }

    pub fn config_mut(&mut self) -> (r: &mut AggregatorConfig)
        ensures
            *r == old(self).cfg(),
            final(self).cfg() == *final(r),
            final(self).threads() == old(self).threads(),
            final(self).processes() == old(self).processes(),
            final(self).samples() == old(self).samples(),
            final(self).time_ms() == old(self).time_ms(),
    {
        &mut self.config
    }

    pub fn thread_count(&self) -> (r: usize)
        ensures
            r == self.threads().len(),
    {
        self.thread_stats.len()
    }

    pub fn process_count(&self) -> (r: usize)
        ensures
            r == self.processes().len(),
    {
        self.process_stats.len()
    }

    pub fn total_time_ms(&self) -> (r: u64)
        ensures
            r == self.time_ms(),
    {
        self.total_time_ms
    }

    /// The summary counts.
    pub fn generate_summary(&self) -> (r: AggregatorSummary)
        requires
            function_count_sum(self.threads()) <= usize::MAX,
        ensures
            r.total_samples == self.samples(),
            r.total_threads == self.threads().len(),
            r.total_processes == self.processes().len(),
            r.total_functions == function_count_sum(self.threads()),
            r.total_time_ms == self.time_ms(),
    {
        let mut total: usize = 0;
        let mut t: usize = 0;
        while t < self.thread_stats.len()
            invariant
                t <= self.thread_stats@.len(),
                function_count_sum(self.thread_stats@) <= usize::MAX,
                total == function_count_sum(self.thread_stats@.subrange(0, t as int)),
            decreases self.thread_stats@.len() - t,
        {
            proof {
                let nx = self.thread_stats@.subrange(0, t + 1);
                assert(nx.drop_last() =~= self.thread_stats@.subrange(0, t as int));
                lemma_fcount_prefix(self.thread_stats@, t + 1);
            }
            total = total + self.thread_stats[t].function_stats.len();
            t = t + 1;
        }
        assert(self.thread_stats@.subrange(0, t as int) =~= self.thread_stats@);
        AggregatorSummary {
            total_samples: self.total_samples,
            total_threads: self.thread_stats.len(),
            total_processes: self.process_stats.len(),
            total_functions: total,
            total_time_ms: self.total_time_ms,
        }
    }
}

pub proof fn lemma_fcount_prefix(ts: Seq<ThreadStats>, k: int)
    requires
        0 <= k <= ts.len(),
    ensures
        function_count_sum(ts.subrange(0, k)) <= function_count_sum(ts),
    decreases ts.len() - k,
{
    if k < ts.len() {
        lemma_fcount_prefix(ts, k + 1);
        assert(ts.subrange(0, k + 1).drop_last() =~= ts.subrange(0, k));
    } else {
        assert(ts.subrange(0, k) =~= ts);
    }
}

/// `b` is `a` with `stack` counted, as `process_stack` counts it.
#[verifier::opaque]
pub open spec fn stack_counted(a: StatsAggregator, b: StatsAggregator, stack: CollectedStack) -> bool {
    &&& b.cfg() == a.cfg()
    &&& stack.frames@.len() == 0 ==> b.threads() == a.threads() && b.processes() == a.processes()
        && b.samples() == a.samples() && b.time_ms() == a.time_ms()
    &&& stack.frames@.len() > 0 ==> b.samples() == a.samples() + 1
        && b.time_ms() == a.time_ms() + a.cfg().sample_interval_ms
        && b.processes() == ({
            let pi = process_index(a.processes(), stack.process_id);
            if pi >= 0 {
                a.processes().update(pi, (stack.process_id, (a.processes()[pi].1 + 1) as u64))
            } else {
                a.processes().push((stack.process_id, 1u64))
            }
        })
        && thread_counted(a.threads(), b.threads(), &stack, a.cfg())
}

/// `states` runs from `a` through the first `n` stacks: each state has room
/// for the next stack and the following state has it counted.
pub open spec fn counted_run(a: StatsAggregator, stacks: Seq<CollectedStack>, n: int, states: Seq<StatsAggregator>) -> bool {
    &&& 0 <= n <= stacks.len()
    &&& states.len() == n + 1
    &&& states[0] == a
    &&& forall|k: int| 0 <= k < n ==> (#[trigger] states[k]).room_for(&stacks[k]) && stack_counted(states[k], states[k + 1], stacks[k])
}

/// The threads `after` are `before` with one more sample of `stack`'s thread
/// counted (its entry created, with the stack's process, when it had none)
/// and its function table updated by the stack's names.
pub open spec fn thread_counted(before: Seq<ThreadStats>, after: Seq<ThreadStats>, stack: &CollectedStack, cfg: AggregatorConfig) -> bool {
    let ti = thread_index(before, stack.thread_id);
    let k = if ti >= 0 { ti } else { before.len() as int };
    let names = names_to_process(stack.frames@, cfg.merge_recursive_calls);
    let iu = (cfg.sample_interval_ms as nat * 1000) as u64;
    &&& after.len() == if ti >= 0 { before.len() } else { before.len() + 1 }
    &&& forall|j: int| 0 <= j < before.len() && j != k ==> after[j] == before[j]
    &&& after[k].thread_id == stack.thread_id
    &&& after[k].process_id == if ti >= 0 { before[ti].process_id } else { stack.process_id }
    &&& after[k].total_samples == (if ti >= 0 { before[ti].total_samples as int } else { 0 }) + 1
    &&& after[k].total_execution_time_us == if ti >= 0 { before[ti].total_execution_time_us } else { 0 }
    &&& table_updated(if ti >= 0 { before[ti].function_stats@ } else { Seq::empty() }, after[k].function_stats@,
            names, cfg.exclude_system_functions, stack.frames@, names.len() as int, iu, stack.thread_id)
}

} // verus!

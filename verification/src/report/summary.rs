//! The parts of a report summary that are counted rather than measured:
//! its totals, its hottest functions, and how a hotspot's name is split.
use vstd::prelude::*;
use crate::analysis::exporter::{AnalysisResult, thread_functions};
use crate::rank::{is_top_selection, top_indices};
use crate::text::{chars_of, string_of_chars, copy_string};
use crate::types::{FunctionStats, ThreadStats, time_keys, lemma_last_index_of, simple_name_spec};

verus! {

/// The totals a summary reports of an analysis: its samples, its threads,
/// and its functions over all threads (saturating at `usize::MAX`).
pub fn summary_counts(result: &AnalysisResult) -> (r: (u64, usize, usize))
    ensures
        r.0 == result.total_samples,
        r.1 == result.thread_stats@.len(),
        r.2 == if thread_functions(result.thread_stats@).len() > usize::MAX { usize::MAX as int } else {
            thread_functions(result.thread_stats@).len() as int },
{
    let ts = &result.thread_stats;
    let mut total: usize = 0;
    let mut i: usize = 0;
    while i < ts.len()
        invariant
            i <= ts@.len(),
            total == if thread_functions(ts@.subrange(0, i as int)).len() > usize::MAX { usize::MAX as int } else {
                thread_functions(ts@.subrange(0, i as int)).len() as int },
        decreases ts@.len() - i,
    {
        total = total.saturating_add(ts[i].function_stats.len());
        i = i + 1;
        assert(ts@.subrange(0, i as int).drop_last() =~= ts@.subrange(0, i - 1));
    }
    assert(ts@.subrange(0, i as int) =~= ts@);
    (result.total_samples, ts.len(), total)
}

/// The functions of every thread, thread by thread.
fn all_functions(ts: &Vec<ThreadStats>) -> (r: Vec<&FunctionStats>)
    ensures
        r@.len() == thread_functions(ts@).len(),
        forall|k: int| 0 <= k < r@.len() ==> *r@[k] == thread_functions(ts@)[k],
{
    let mut out: Vec<&FunctionStats> = Vec::new();
    let mut i: usize = 0;
    while i < ts.len()
        invariant
            i <= ts@.len(),
            out@.len() == thread_functions(ts@.subrange(0, i as int)).len(),
            forall|k: int| 0 <= k < out@.len() ==> *out@[k] == thread_functions(ts@.subrange(0, i as int))[k],
        decreases ts@.len() - i,
    {
        let fs = &ts[i].function_stats;
        let ghost before = thread_functions(ts@.subrange(0, i as int));
        let mut j: usize = 0;
        while j < fs.len()
            invariant
                j <= fs@.len(),
                out@.len() == before.len() + j,
                forall|k: int| 0 <= k < before.len() ==> *out@[k] == before[k],
                forall|k: int| 0 <= k < j ==> *out@[before.len() + k] == fs@[k],
            decreases fs@.len() - j,
        {
            out.push(&fs[j]);
            j = j + 1;
        }
        i = i + 1;
        assert(ts@.subrange(0, i as int).drop_last() =~= ts@.subrange(0, i - 1));
        assert(thread_functions(ts@.subrange(0, i as int)) == before + fs@);
    }
    assert(ts@.subrange(0, i as int) =~= ts@);
    out
}

/// The at most `limit` functions, over all threads, with the largest total
/// time, largest first.
pub fn top_functions(result: &AnalysisResult, limit: usize) -> (r: Vec<&FunctionStats>)
    ensures
        exists|idx: Seq<usize>| #[trigger] is_top_selection(time_keys(thread_functions(result.thread_stats@)), limit as nat, idx)
            && r@.len() == idx.len()
            && forall|k: int| 0 <= k < idx.len() ==> *r@[k] == thread_functions(result.thread_stats@)[idx[k] as int],
{
    let ghost all = thread_functions(result.thread_stats@);
    let fs = all_functions(&result.thread_stats);
    let mut keys: Vec<u64> = Vec::new();
    let mut i: usize = 0;
    while i < fs.len()
        invariant
            i <= fs@.len(),
            fs@.len() == all.len(),
            forall|k: int| 0 <= k < fs@.len() ==> *fs@[k] == all[k],
            keys@ == time_keys(all.subrange(0, i as int)),
        decreases fs@.len() - i,
    {
        keys.push(fs[i].total_time_us);
        i = i + 1;
        assert(keys@ =~= time_keys(all.subrange(0, i as int)));
    }
    assert(all.subrange(0, i as int) =~= all);
    let idx = top_indices(&keys, limit);
    let mut out: Vec<&FunctionStats> = Vec::new();
    let mut k: usize = 0;
    while k < idx.len()
        invariant
            k <= idx@.len(),
            is_top_selection(keys@, limit as nat, idx@),
            keys@.len() == fs@.len(),
            fs@.len() == all.len(),
            forall|a: int| 0 <= a < fs@.len() ==> *fs@[a] == all[a],
            out@.len() == k,
            forall|a: int| 0 <= a < k ==> *out@[a] == all[idx@[a] as int],
        decreases idx@.len() - k,
    {
        out.push(fs[idx[k]]);
        k = k + 1;
    }
    out
}

/// The total sampling time of an analysis in microseconds, the base of its
/// hotspots' shares; `None` when it does not fit in 64 bits.
pub fn sampling_time_us(result: &AnalysisResult) -> (r: Option<u64>)
    ensures
        r == if result.total_samples * result.sample_interval_ms * 1000 <= u64::MAX {
            Some((result.total_samples * result.sample_interval_ms * 1000) as u64)
        } else {
            None::<u64>
        },
{
    let interval = result.sample_interval_ms as u64;
    if interval == 0 {
        return Some(0);
    }
    if result.total_samples > u64::MAX / interval {
        proof {
            assert(result.total_samples * interval > u64::MAX) by (nonlinear_arith)
                requires result.total_samples > u64::MAX / interval, interval > 0;
            assert(result.total_samples * interval * 1000 > u64::MAX) by (nonlinear_arith)
                requires result.total_samples * interval > u64::MAX;
        }
        return None;
    }
    assert(result.total_samples * interval <= u64::MAX) by (nonlinear_arith)
        requires result.total_samples <= u64::MAX / interval, interval > 0;
    let ms = result.total_samples * interval;
    if ms > u64::MAX / 1000 {
        return None;
    }
    Some(ms * 1000)
}

/// The name up to its first `!` (all of it when there is none).
pub open spec fn before_first(s: Seq<char>, c: char) -> Seq<char>
    decreases s.len(),
{
    if s.len() == 0 {
        s
    } else if s[0] == c {
        Seq::empty()
    } else {
        seq![s[0]] + before_first(s.drop_first(), c)
    }
}

/// A hotspot's function name without its module (`module!function`).
pub fn simple_name(function_name: &str) -> (r: String)
    ensures
        r@ == simple_name_spec(function_name@),
{
    let v = chars_of(function_name);
    proof { lemma_last_index_of(v@, '!'); }
    assert(v@.subrange(0, v@.len() as int) =~= v@);
    match crate::text::last_index_in(&v, 0, v.len(), '!') {
        Some(k) => string_of_chars(&v, k + 1, v.len()),
        None => string_of_chars(&v, 0, v.len()),
    }
}

/// A hotspot's module: the one recorded, else the part of the function
/// name before its first `!`.
pub fn module_of(module_name: &Option<String>, function_name: &str) -> (r: String)
    ensures
        r@ == match module_name { Some(m) => m@, None => before_first(function_name@, '!') },
{
    match module_name {
        Some(m) => copy_string(m),
        None => {
            let v = chars_of(function_name);
            let mut i: usize = 0;
            assert(v@.subrange(0, v@.len() as int) =~= v@);
            assert(v@.subrange(0, 0) + before_first(v@, '!') =~= before_first(v@, '!'));
            while i < v.len()
                invariant
                    i <= v@.len(),
                    v@ == function_name@,
                    module_name.is_none(),
                    before_first(v@, '!') == v@.subrange(0, i as int) + before_first(v@.subrange(i as int, v@.len() as int), '!'),
                decreases v@.len() - i,
            {
                let ghost rest = v@.subrange(i as int, v@.len() as int);
                if v[i] == '!' {
                    assert(rest[0] == '!');
                    assert(before_first(rest, '!') =~= Seq::<char>::empty());
                    assert(before_first(v@, '!') =~= v@.subrange(0, i as int));
                    return string_of_chars(&v, 0, i);
                }
                assert(rest.drop_first() =~= v@.subrange(i + 1, v@.len() as int));
                assert(v@.subrange(0, i + 1) =~= v@.subrange(0, i as int) + seq![rest[0]]);
                i = i + 1;
            }
            assert(v@.subrange(0, i as int) =~= v@);
            string_of_chars(&v, 0, v.len())
        },
    }
}

} // verus!

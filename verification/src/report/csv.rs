//! The CSV report generator's choices: which functions a thread's table
//! lists and in what order. Formatting the rows and writing the file is
//! left to the caller.
use vstd::prelude::*;
use crate::text::{to_lower, lowercase, str_contains, contains_seq};
use crate::types::{FunctionStats, ThreadId, ThreadStats, time_keys};
use crate::report::ReportConfig;
use crate::analysis::exporter::AnalysisResult;
use crate::rank::{is_top_selection, top_indices};

verus! {

/// The modules whose functions count as system code in a report.
pub open spec fn report_system_modules() -> Seq<Seq<char>> {
    seq!["ntdll.dll"@, "kernel32.dll"@, "kernelbase.dll"@, "user32.dll"@, "gdi32.dll"@, "advapi32.dll"@,
        "shell32.dll"@, "msvcrt.dll"@, "ucrtbase.dll"@, "ws2_32.dll"@]
}

/// A function is system code when its module's lower-cased name contains
/// one of the system module names.
pub open spec fn is_system_function_spec(f: FunctionStats) -> bool {
    match f.module_name {
        Some(m) => exists|i: int| 0 <= i < report_system_modules().len()
            && contains_seq(lowercase(m@), #[trigger] report_system_modules()[i]),
        None => false,
    }
}

/// Generates CSV reports with a given configuration.
#[derive(Debug, Clone)]
pub struct CsvReportGenerator {
    config: ReportConfig,
}

impl CsvReportGenerator {
    pub closed spec fn config_spec(&self) -> ReportConfig {
        self.config
    }

    pub fn new(config: ReportConfig) -> (r: Self)
        ensures
            r.config_spec() == config,
    {
        CsvReportGenerator { config }
    }

    pub fn config(&self) -> (r: &ReportConfig)
        ensures
            *r == self.config_spec(),
    {
        &self.config
    }

    /// Whether `func` belongs to a system module.
    pub fn is_system_function(&self, func: &FunctionStats) -> (r: bool)
        ensures
            r == is_system_function_spec(*func),
    {
        match &func.module_name {
            Some(m) => {
                let lower = to_lower(m.as_str());
                let names: Vec<&'static str> = vec!["ntdll.dll", "kernel32.dll", "kernelbase.dll", "user32.dll",
                    "gdi32.dll", "advapi32.dll", "shell32.dll", "msvcrt.dll", "ucrtbase.dll", "ws2_32.dll"];
                assert(names@.map_values(|s: &str| s@) =~= report_system_modules());
                let mut i: usize = 0;
                while i < names.len()
                    invariant
                        i <= names@.len(),
                        names@.map_values(|s: &str| s@) == report_system_modules(),
                        lower@ == lowercase(m@),
                        func.module_name == Some(*m),
                        forall|k: int| 0 <= k < i ==> !contains_seq(lower@, report_system_modules()[k]),
                    decreases names@.len() - i,
                {
                    if str_contains(lower.as_str(), names[i]) {
                        assert(names@.map_values(|s: &str| s@)[i as int] == names@[i as int]@);
                        assert(contains_seq(lowercase(m@), report_system_modules()[i as int]));
                        return true;
                    }
                    assert(names@.map_values(|s: &str| s@)[i as int] == names@[i as int]@);
                    i = i + 1;
                }
                false
            },
            None => false,
        }
    }

    /// The functions a thread's table lists: system functions only when
    /// the configuration includes them, the longest-running first.
    pub fn report_functions(&self, thread: &ThreadStats) -> (r: Vec<FunctionStats>)
        ensures
            exists|kept: Seq<FunctionStats>, idx: Seq<usize>|
                kept == thread.function_stats@.filter(|f: FunctionStats|
                    self.config_spec().include_system_functions || !is_system_function_spec(f))
                && #[trigger] is_top_selection(time_keys(kept), kept.len(), idx)
                && r@ == idx.map_values(|i: usize| kept[i as int]),
    {
        let mut kept: Vec<FunctionStats> = Vec::new();
        let mut keys: Vec<u64> = Vec::new();
        let mut i: usize = 0;
        let ghost pred = |f: FunctionStats| self.config.include_system_functions || !is_system_function_spec(f);
        while i < thread.function_stats.len()
            invariant
                i <= thread.function_stats@.len(),
                kept@ == thread.function_stats@.subrange(0, i as int).filter(pred),
                keys@ == time_keys(kept@),
                pred == (|f: FunctionStats| self.config.include_system_functions || !is_system_function_spec(f)),
            decreases thread.function_stats@.len() - i,
        {
            let f = &thread.function_stats[i];
            proof {
                let s1 = thread.function_stats@.subrange(0, i + 1);
                assert(s1.drop_last() =~= thread.function_stats@.subrange(0, i as int));
                reveal(Seq::filter);
            }
            if self.config.include_system_functions || !self.is_system_function(f) {
                kept.push(f.copy());
                keys.push(f.total_time_us);
                assert(keys@ =~= time_keys(kept@));
            }
            i = i + 1;
        }
        assert(thread.function_stats@.subrange(0, i as int) =~= thread.function_stats@);
        let idx = top_indices(&keys, keys.len());
        let mut out: Vec<FunctionStats> = Vec::new();
        let mut k: usize = 0;
        while k < idx.len()
            invariant
                k <= idx@.len(),
                is_top_selection(keys@, keys@.len(), idx@),
                keys@.len() == kept@.len(),
                out@ == idx@.subrange(0, k as int).map_values(|i: usize| kept@[i as int]),
            decreases idx@.len() - k,
        {
            out.push(kept[idx[k]].copy());
            k = k + 1;
            assert(out@ =~= idx@.subrange(0, k as int).map_values(|i: usize| kept@[i as int]));
        }
        assert(idx@.subrange(0, k as int) =~= idx@);
        out
    }
}

/// The threads of a result by ascending id.
pub fn sorted_thread_ids(result: &AnalysisResult) -> (r: Vec<ThreadId>)
    ensures
        r@.len() == result.thread_stats@.len(),
        forall|a: int, b: int| 0 <= a < b < r@.len() ==> r@[a] <= r@[b],
        r@.to_multiset() == result.thread_stats@.map_values(|t: ThreadStats| t.thread_id).to_multiset(),
{
    let mut v: Vec<ThreadId> = Vec::new();
    let mut i: usize = 0;
    while i < result.thread_stats.len()
        invariant
            i <= result.thread_stats@.len(),
            v@ == result.thread_stats@.subrange(0, i as int).map_values(|t: ThreadStats| t.thread_id),
        decreases result.thread_stats@.len() - i,
    {
        v.push(result.thread_stats[i].thread_id);
        i = i + 1;
        assert(v@ =~= result.thread_stats@.subrange(0, i as int).map_values(|t: ThreadStats| t.thread_id));
    }
    assert(result.thread_stats@.subrange(0, i as int) =~= result.thread_stats@);
    sort_u32(v)
}

/// Insertion sort of thread ids.
fn sort_u32(v: Vec<u32>) -> (r: Vec<u32>)
    ensures
        r@.len() == v@.len(),
        forall|a: int, b: int| 0 <= a < b < r@.len() ==> r@[a] <= r@[b],
        r@.to_multiset() == v@.to_multiset(),
{
    let mut r = v;
    let ghost orig = r@;
    let mut i: usize = 1;
    if r.len() == 0 {
        return r;
    }
    while i < r.len()
        invariant
            1 <= i <= r@.len(),
            r@.len() == orig.len(),
            r@.to_multiset() == orig.to_multiset(),
            forall|a: int, b: int| 0 <= a < b < i ==> r@[a] <= r@[b],
        decreases r@.len() - i,
    {
        let mut j: usize = i;
        while j > 0 && r[j - 1] > r[j]
            invariant
                0 <= j <= i < r@.len(),
                r@.len() == orig.len(),
                r@.to_multiset() == orig.to_multiset(),
                forall|a: int, b: int| 0 <= a < b <= i && b != j ==> r@[a] <= r@[b],
                forall|a: int| j < a <= i ==> r@[j as int] <= r@[a],
            decreases j,
        {
            let x = r[j - 1];
            let y = r[j];
            let ghost before = r@;
            r.set(j - 1, y);
            r.set(j, x);
            proof {
                assert(r@ =~= before.update(j - 1, y).update(j as int, x));
                lemma_swap_multiset(before, j - 1, j as int);
            }
            j = j - 1;
        }
        i = i + 1;
    }
    r
}

proof fn lemma_swap_multiset(s: Seq<u32>, a: int, b: int)
    requires
        0 <= a < b < s.len(),
    ensures
        s.update(a, s[b]).update(b, s[a]).to_multiset() == s.to_multiset(),
{
    broadcast use vstd::seq_lib::group_to_multiset_ensures;
    let t = s.update(a, s[b]);
    assert(t.to_multiset() == s.to_multiset().remove(s[a]).insert(s[b]));
    assert(t.update(b, s[a]).to_multiset() == t.to_multiset().remove(t[b]).insert(s[a]));
}

} // verus!

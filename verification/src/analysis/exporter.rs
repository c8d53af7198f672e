//! The result of an analysis and the exporters' settings. Writing the
//! files is left to the caller; the text they hold is computed here.
use vstd::prelude::*;
use crate::text::{owned, copy_string, str_eq, to_lower, lowercase};
use crate::types::{FunctionStats, ProcessStats, ThreadId, ThreadStats, fn_index, find_fn, lemma_fn_index, merged, sat_add};
use crate::analysis::aggregator::{thread_index, distinct_threads, find_thread, lemma_thread_index, lemma_thread_index_distinct};
use crate::analysis::flamegraph::FlameGraph;
use crate::analysis::thread_analyzer::CallPath;
use crate::rank::{is_top_selection, top_indices};
use crate::report::formatter::{escape_field, double_quotes};

verus! {

/// Everything an analysis produced.
pub struct AnalysisResult {
    pub process_stats: ProcessStats,
    /// At most one entry per thread.
    pub thread_stats: Vec<ThreadStats>,
    pub flame_graph: Option<FlameGraph>,
    pub top_functions: Vec<FunctionStats>,
    pub hot_paths: Vec<CallPath>,
    pub analysis_start_time: u64,
    pub analysis_end_time: u64,
    pub total_samples: u64,
    pub sample_interval_ms: u32,
}

/// The functions of all threads, thread by thread.
pub open spec fn thread_functions(ts: Seq<ThreadStats>) -> Seq<FunctionStats>
    decreases ts.len(),
{
    if ts.len() == 0 { Seq::empty() } else { thread_functions(ts.drop_last()) + ts.last().function_stats@ }
}

/// A zeroed entry carrying `e`'s name.
pub open spec fn fresh_entry(e: FunctionStats) -> FunctionStats {
    FunctionStats {
        module_name: None,
        thread_id: None,
        call_count: 0,
        total_time_us: 0,
        self_time_us: 0,
        min_time_us: u64::MAX,
        max_time_us: 0,
        average_time_us: 0,
        ..e
    }
}

/// `acc` with `e` merged into the entry of its name (a new entry when
/// there is none).
pub open spec fn aggregate_into(acc: Seq<FunctionStats>, e: FunctionStats) -> Seq<FunctionStats> {
    let i = fn_index(acc, e.function_name@);
    if i >= 0 { acc.update(i, merged(acc[i], e)) } else { acc.push(merged(fresh_entry(e), e)) }
}

/// All of `es` merged by function name, names in order of first
/// appearance.
pub open spec fn aggregate_all(es: Seq<FunctionStats>) -> Seq<FunctionStats>
    decreases es.len(),
{
    if es.len() == 0 { Seq::empty() } else { aggregate_into(aggregate_all(es.drop_last()), es.last()) }
}

pub open spec fn sample_keys(ts: Seq<ThreadStats>) -> Seq<u64> {
    ts.map_values(|t: ThreadStats| t.total_samples)
}

impl AnalysisResult {
    /// One entry per thread, each with one entry per function.
    pub open spec fn wf(&self) -> bool {
        &&& distinct_threads(self.thread_stats@)
        &&& forall|i: int| 0 <= i < self.thread_stats@.len() ==> (#[trigger] self.thread_stats@[i]).wf()
    }

    pub fn new(process_stats: ProcessStats) -> (r: Self)
        ensures
            r.wf(),
            r.process_stats == process_stats,
            r.thread_stats@.len() == 0,
            r.flame_graph is None,
            r.top_functions@.len() == 0,
            r.hot_paths@.len() == 0,
            r.analysis_start_time == 0,
            r.analysis_end_time == 0,
            r.total_samples == 0,
            r.sample_interval_ms == 1,
    {
        AnalysisResult {
            process_stats,
            thread_stats: Vec::new(),
            flame_graph: None,
            top_functions: Vec::new(),
            hot_paths: Vec::new(),
            analysis_start_time: 0,
            analysis_end_time: 0,
            total_samples: 0,
            sample_interval_ms: 1,
        }
    }

    pub fn with_flame_graph(self, flame_graph: FlameGraph) -> (r: Self)
        ensures
            r == (AnalysisResult { flame_graph: Some(flame_graph), ..self }),
    {
        AnalysisResult { flame_graph: Some(flame_graph), ..self }
    }

    pub fn with_timing(self, start: u64, end: u64) -> (r: Self)
        ensures
            r == (AnalysisResult { analysis_start_time: start, analysis_end_time: end, ..self }),
    {
        AnalysisResult { analysis_start_time: start, analysis_end_time: end, ..self }
    }

    pub fn with_sampling_info(self, total_samples: u64, interval_ms: u32) -> (r: Self)
        ensures
            r == (AnalysisResult { total_samples, sample_interval_ms: interval_ms, ..self }),
    {
        AnalysisResult { total_samples, sample_interval_ms: interval_ms, ..self }
    }

    /// Stores a thread's statistics under its id (replacing earlier ones).
    pub fn add_thread_stats(&mut self, thread_stats: ThreadStats)
        requires
            old(self).wf(),
            thread_stats.wf(),
        ensures
            final(self).wf(),
            final(self).thread_stats@ == if thread_index(old(self).thread_stats@, thread_stats.thread_id) >= 0 {
                old(self).thread_stats@.update(thread_index(old(self).thread_stats@, thread_stats.thread_id), thread_stats)
            } else {
                old(self).thread_stats@.push(thread_stats)
            },
            final(self).process_stats == old(self).process_stats,
            final(self).top_functions == old(self).top_functions,
            final(self).hot_paths == old(self).hot_paths,
            final(self).total_samples == old(self).total_samples,
    {
        proof { lemma_thread_index(self.thread_stats@, thread_stats.thread_id); }
        match find_thread(&self.thread_stats, thread_stats.thread_id) {
            Some(i) => {
                self.thread_stats.set(i, thread_stats);
            },
            None => {
                self.thread_stats.push(thread_stats);
            },
        }
    }

    pub fn add_top_function(&mut self, func_stats: FunctionStats)
        ensures
            final(self).top_functions@ == old(self).top_functions@.push(func_stats),
            final(self).thread_stats == old(self).thread_stats,
            final(self).hot_paths == old(self).hot_paths,
            final(self).process_stats == old(self).process_stats,
    {
        self.top_functions.push(func_stats);
    }

    pub fn add_hot_path(&mut self, path: CallPath)
        ensures
            final(self).hot_paths@ == old(self).hot_paths@.push(path),
            final(self).thread_stats == old(self).thread_stats,
            final(self).top_functions == old(self).top_functions,
            final(self).process_stats == old(self).process_stats,
    {
        self.hot_paths.push(path);
    }

    /// End minus start, or 0 when the end is earlier.
    pub fn analysis_duration_us(&self) -> (r: u64)
        ensures
            r == if self.analysis_end_time >= self.analysis_start_time {
                self.analysis_end_time - self.analysis_start_time
            } else {
                0
            },
    {
        self.analysis_end_time.saturating_sub(self.analysis_start_time)
    }

    /// Samples times the interval.
    pub fn total_sampling_time_ms(&self) -> (r: u64)
        requires
            self.total_samples * self.sample_interval_ms <= u64::MAX,
        ensures
            r == self.total_samples * self.sample_interval_ms,
    {
        self.total_samples * (self.sample_interval_ms as u64)
    }

    pub fn get_thread_stats(&self, thread_id: ThreadId) -> (r: Option<&ThreadStats>)
        ensures
            match r {
                Some(t) => thread_index(self.thread_stats@, thread_id) >= 0
                    && *t == self.thread_stats@[thread_index(self.thread_stats@, thread_id)],
                None => thread_index(self.thread_stats@, thread_id) == -1,
            },
    {
        proof { lemma_thread_index(self.thread_stats@, thread_id); }
        match find_thread(&self.thread_stats, thread_id) {
            Some(i) => Some(&self.thread_stats[i]),
            None => None,
        }
    }

    /// Every function of every thread, merged by name.
    pub fn aggregate_function_stats(&self) -> (r: Vec<FunctionStats>)
        ensures
            r@ == aggregate_all(thread_functions(self.thread_stats@)),
    {
        let mut acc: Vec<FunctionStats> = Vec::new();
        let mut i: usize = 0;
        while i < self.thread_stats.len()
            invariant
                i <= self.thread_stats@.len(),
                acc@ == aggregate_all(thread_functions(self.thread_stats@.subrange(0, i as int))),
            decreases self.thread_stats@.len() - i,
        {
            let fs = &self.thread_stats[i].function_stats;
            let ghost before = thread_functions(self.thread_stats@.subrange(0, i as int));
            let mut j: usize = 0;
            assert(before + fs@.subrange(0, 0) =~= before);
            while j < fs.len()
                invariant
                    j <= fs@.len(),
                    acc@ == aggregate_all(before + fs@.subrange(0, j as int)),
                decreases fs@.len() - j,
            {
                let e = &fs[j];
                aggregate_one(&mut acc, e);
                proof {
                    let x = before + fs@.subrange(0, j + 1);
                    assert(x.drop_last() =~= before + fs@.subrange(0, j as int));
                    assert(x.last() == fs@[j as int]);
                }
                j = j + 1;
            }
            proof {
                let s1 = self.thread_stats@.subrange(0, i + 1);
                assert(s1.drop_last() =~= self.thread_stats@.subrange(0, i as int));
                assert(fs@.subrange(0, j as int) =~= fs@);
            }
            i = i + 1;
        }
        assert(self.thread_stats@.subrange(0, i as int) =~= self.thread_stats@);
        acc
    }

    /// The `limit` threads with the most samples, most first.
    pub fn top_threads(&self, limit: usize) -> (r: Vec<&ThreadStats>)
        ensures
            exists|idx: Seq<usize>| #[trigger] is_top_selection(sample_keys(self.thread_stats@), limit as nat, idx)
                && r@.len() == idx.len()
                && forall|k: int| 0 <= k < idx.len() ==> *r@[k] == self.thread_stats@[idx[k] as int],
    {
        let mut keys: Vec<u64> = Vec::new();
        let mut i: usize = 0;
        while i < self.thread_stats.len()
            invariant
                i <= self.thread_stats@.len(),
                keys@ == sample_keys(self.thread_stats@.subrange(0, i as int)),
            decreases self.thread_stats@.len() - i,
        {
            keys.push(self.thread_stats[i].total_samples);
            i = i + 1;
            assert(keys@ =~= sample_keys(self.thread_stats@.subrange(0, i as int)));
        }
        assert(self.thread_stats@.subrange(0, i as int) =~= self.thread_stats@);
        let idx = top_indices(&keys, limit);
        let mut out: Vec<&ThreadStats> = Vec::new();
        let mut k: usize = 0;
        while k < idx.len()
            invariant
                k <= idx@.len(),
                is_top_selection(keys@, limit as nat, idx@),
                keys@ == sample_keys(self.thread_stats@),
                out@.len() == k,
                forall|a: int| 0 <= a < k ==> *out@[a] == self.thread_stats@[idx@[a] as int],
            decreases idx@.len() - k,
        {
            out.push(&self.thread_stats[idx[k]]);
            k = k + 1;
        }
        out
    }
}

/// Merges `e` into the entry of its name in `acc`, or adds a fresh one.
fn aggregate_one(acc: &mut Vec<FunctionStats>, e: &FunctionStats)
    ensures
        final(acc)@ == aggregate_into(old(acc)@, *e),
{
    proof { lemma_fn_index(acc@, e.function_name@); }
    match find_fn(acc, e.function_name.as_str()) {
        Some(i) => {
            let mut f = acc[i].copy();
            f.merge(e);
            acc.set(i, f);
        },
        None => {
            let mut f = FunctionStats {
                function_name: copy_string(&e.function_name),
                module_name: None,
                thread_id: None,
                call_count: 0,
                total_time_us: 0,
                self_time_us: 0,
                min_time_us: u64::MAX,
                max_time_us: 0,
                average_time_us: 0,
            };
            assert(f == fresh_entry(*e));
            f.merge(e);
            acc.push(f);
        },
    }
}

/// Settings of the CSV export.
#[derive(Debug)]
pub struct CsvExporter {
    output_path: Option<String>,
    delimiter: char,
    include_headers: bool,
}

impl CsvExporter {
    pub closed spec fn path_spec(&self) -> Option<Seq<char>> {
        match self.output_path { Some(p) => Some(p@), None => None }
    }

    pub closed spec fn delimiter_spec(&self) -> char {
        self.delimiter
    }

    pub closed spec fn headers_spec(&self) -> bool {
        self.include_headers
    }

    pub fn delimiter(&self) -> (r: char)
        ensures
            r == self.delimiter_spec(),
    {
        self.delimiter
    }

    pub fn include_headers(&self) -> (r: bool)
        ensures
            r == self.headers_spec(),
    {
        self.include_headers
    }

    pub fn new() -> (r: Self)
        ensures
            r.path_spec() is None,
            r.delimiter_spec() == ',',
            r.headers_spec(),
    {
        CsvExporter { output_path: None, delimiter: ',', include_headers: true }
    }

    pub fn with_options(delimiter: char, headers: bool) -> (r: Self)
        ensures
            r.path_spec() is None,
            r.delimiter_spec() == delimiter,
            r.headers_spec() == headers,
    {
        CsvExporter { output_path: None, delimiter, include_headers: headers }
    }

    pub fn with_delimiter(self, delimiter: char) -> (r: Self)
        ensures
            r.path_spec() == self.path_spec(),
            r.delimiter_spec() == delimiter,
            r.headers_spec() == self.headers_spec(),
    {
        CsvExporter { delimiter, ..self }
    }

    pub fn with_headers(self, headers: bool) -> (r: Self)
        ensures
            r.path_spec() == self.path_spec(),
            r.delimiter_spec() == self.delimiter_spec(),
            r.headers_spec() == headers,
    {
        CsvExporter { include_headers: headers, ..self }
    }

    pub fn set_output_path(&mut self, path: &str)
        ensures
            final(self).path_spec() == Some(path@),
            final(self).delimiter_spec() == old(self).delimiter_spec(),
            final(self).headers_spec() == old(self).headers_spec(),
    {
        self.output_path = Some(owned(path));
    }

    pub fn output_path(&self) -> (r: Option<&String>)
        ensures
            match r { Some(p) => self.path_spec() == Some(p@), None => self.path_spec() is None },
    {
        match &self.output_path {
            Some(p) => Some(p),
            None => None,
        }
    }
}

impl Default for CsvExporter {
    fn default() -> (r: Self)
        ensures
            r.path_spec() is None,
            r.delimiter_spec() == ',',
            r.headers_spec(),
    {
        Self::new()
    }
}

/// Settings of the JSON export.
#[derive(Debug)]
pub struct JsonExporter {
    output_path: Option<String>,
    pretty_print: bool,
}

impl JsonExporter {
    pub closed spec fn path_spec(&self) -> Option<Seq<char>> {
        match self.output_path { Some(p) => Some(p@), None => None }
    }

    pub closed spec fn pretty_spec(&self) -> bool {
        self.pretty_print
    }

    pub fn pretty_print(&self) -> (r: bool)
        ensures
            r == self.pretty_spec(),
    {
        self.pretty_print
    }

    pub fn new() -> (r: Self)
        ensures
            r.path_spec() is None,
            r.pretty_spec(),
    {
        JsonExporter { output_path: None, pretty_print: true }
    }

    pub fn with_pretty_print(pretty: bool) -> (r: Self)
        ensures
            r.path_spec() is None,
            r.pretty_spec() == pretty,
    {
        JsonExporter { output_path: None, pretty_print: pretty }
    }

    pub fn with_pretty(self, pretty: bool) -> (r: Self)
        ensures
            r.path_spec() == self.path_spec(),
            r.pretty_spec() == pretty,
    {
        JsonExporter { pretty_print: pretty, ..self }
    }

    pub fn set_output_path(&mut self, path: &str)
        ensures
            final(self).path_spec() == Some(path@),
            final(self).pretty_spec() == old(self).pretty_spec(),
    {
        self.output_path = Some(owned(path));
    }

    pub fn output_path(&self) -> (r: Option<&String>)
        ensures
            match r { Some(p) => self.path_spec() == Some(p@), None => self.path_spec() is None },
    {
        match &self.output_path {
            Some(p) => Some(p),
            None => None,
        }
    }
}

impl Default for JsonExporter {
    fn default() -> (r: Self)
        ensures
            r.path_spec() is None,
            r.pretty_spec(),
    {
        Self::new()
    }
}

/// Settings of the folded flame-graph export.
#[derive(Debug)]
pub struct FlameGraphExporter {
    output_path: Option<String>,
}

impl FlameGraphExporter {
    pub closed spec fn path_spec(&self) -> Option<Seq<char>> {
        match self.output_path { Some(p) => Some(p@), None => None }
    }

    pub fn new() -> (r: Self)
        ensures
            r.path_spec() is None,
    {
        FlameGraphExporter { output_path: None }
    }

    pub fn set_output_path(&mut self, path: &str)
        ensures
            final(self).path_spec() == Some(path@),
    {
        self.output_path = Some(owned(path));
    }

    pub fn output_path(&self) -> (r: Option<&String>)
        ensures
            match r { Some(p) => self.path_spec() == Some(p@), None => self.path_spec() is None },
    {
        match &self.output_path {
            Some(p) => Some(p),
            None => None,
        }
    }
}

impl Default for FlameGraphExporter {
    fn default() -> (r: Self)
        ensures
            r.path_spec() is None,
    {
        Self::new()
    }
}

/// The export formats.
#[derive(Debug, Clone, Copy, PartialEq, Eq, Structural)]
pub enum ExportFormat {
    Csv,
    Json,
    FlameGraph,
}

/// Which formats to export, where and under which base name.
#[derive(Debug)]
pub struct MultiExporter {
    pub csv_exporter: Option<CsvExporter>,
    pub json_exporter: Option<JsonExporter>,
    pub flame_exporter: Option<FlameGraphExporter>,
    pub output_dir: Option<String>,
    pub base_name: String,
}

impl MultiExporter {
    pub fn new() -> (r: Self)
        ensures
            r.csv_exporter is None,
            r.json_exporter is None,
            r.flame_exporter is None,
            r.output_dir is None,
            r.base_name@ == "analysis"@,
    {
        MultiExporter { csv_exporter: None, json_exporter: None, flame_exporter: None, output_dir: None,
            base_name: owned("analysis") }
    }

    pub fn with_csv(self, enabled: bool) -> (r: Self)
        ensures
            enabled ==> (r.csv_exporter matches Some(e) && e.path_spec() is None && e.delimiter_spec() == ',' && e.headers_spec()),
            !enabled ==> r.csv_exporter is None,
            r == (MultiExporter { csv_exporter: r.csv_exporter, ..self }),
    {
        MultiExporter { csv_exporter: if enabled { Some(CsvExporter::new()) } else { None }, ..self }
    }

    pub fn with_json(self, enabled: bool) -> (r: Self)
        ensures
            enabled ==> (r.json_exporter matches Some(e) && e.path_spec() is None && e.pretty_spec()),
            !enabled ==> r.json_exporter is None,
            r == (MultiExporter { json_exporter: r.json_exporter, ..self }),
    {
        MultiExporter { json_exporter: if enabled { Some(JsonExporter::new()) } else { None }, ..self }
    }

    pub fn with_flamegraph(self, enabled: bool) -> (r: Self)
        ensures
            enabled ==> (r.flame_exporter matches Some(e) && e.path_spec() is None),
            !enabled ==> r.flame_exporter is None,
            r == (MultiExporter { flame_exporter: r.flame_exporter, ..self }),
    {
        MultiExporter { flame_exporter: if enabled { Some(FlameGraphExporter::new()) } else { None }, ..self }
    }

    pub fn with_output_dir(self, dir: &str) -> (r: Self)
        ensures
            r.output_dir matches Some(d) && d@ == dir@,
            r == (MultiExporter { output_dir: r.output_dir, ..self }),
    {
        MultiExporter { output_dir: Some(owned(dir)), ..self }
    }

    pub fn with_base_name(self, name: &str) -> (r: Self)
        ensures
            r.base_name@ == name@,
            r == (MultiExporter { base_name: r.base_name, ..self }),
    {
        MultiExporter { base_name: owned(name), ..self }
    }
}

impl Default for MultiExporter {
    fn default() -> (r: Self)
        ensures
            r.csv_exporter is None,
            r.json_exporter is None,
            r.flame_exporter is None,
            r.output_dir is None,
            r.base_name@ == "analysis"@,
    {
        Self::new()
    }
}

/// A field of the CSV export: quoted, with quotes doubled, when it holds
/// the delimiter, a quote or a line feed.
pub fn escape_csv_field(field: &str, delimiter: char) -> (r: String)
    ensures
        r@ == if field@.contains(delimiter) || field@.contains('"') || field@.contains('\n') {
            seq!['"'] + double_quotes(field@) + seq!['"']
        } else {
            field@
        },
{
    escape_field(field, delimiter, false)
}

/// The export format a lower-cased name stands for.
pub open spec fn format_named(s: Seq<char>) -> Option<ExportFormat> {
    if s == "csv"@ {
        Some(ExportFormat::Csv)
    } else if s == "json"@ {
        Some(ExportFormat::Json)
    } else if s == "flamegraph"@ || s == "folded"@ {
        Some(ExportFormat::FlameGraph)
    } else {
        None
    }
}

/// The export format named by `s`, case-insensitively.
pub fn parse_export_format(s: &str) -> (r: Option<ExportFormat>)
    ensures
        r == format_named(lowercase(s@)),
{
    let l = to_lower(s);
    let t = l.as_str();
    if str_eq(t, "csv") {
        Some(ExportFormat::Csv)
    } else if str_eq(t, "json") {
        Some(ExportFormat::Json)
    } else if str_eq(t, "flamegraph") || str_eq(t, "folded") {
        Some(ExportFormat::FlameGraph)
    } else {
        None
    }
}

} // verus!

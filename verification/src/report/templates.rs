//! Report templates: preset configurations for a detailed report, a
//! summary, a thread-focused and a function-focused report.
use vstd::prelude::*;
use crate::text::{ascii_lower_char};
use crate::text::{owned, str_eq, to_lower, lowercase, copy_string, copy_opt_string};
use crate::report::ReportConfig;

pub mod presets;

verus! {

/// The kinds of report.
#[derive(Debug, Clone, Copy, PartialEq, Eq, Structural)]
pub enum ReportTemplate {
    /// Every table: function statistics, thread summary, hot paths and call
    /// stack details.
    Detailed,
    /// Key statistics and the ten hottest functions.
    Summary,
    /// Thread statistics and comparisons between threads.
    ThreadFocused,
    /// Function statistics and call relations.
    FunctionFocused,
}

impl Default for ReportTemplate {
    fn default() -> (r: Self)
        ensures
            r == ReportTemplate::Detailed,
    {
        ReportTemplate::Detailed
    }
}

/// The preset configuration of a template.
pub open spec fn is_preset(t: ReportTemplate, c: ReportConfig) -> bool {
    &&& c.include_bom && c.delimiter == ',' && c.include_headers
    &&& c.base_directory is None && c.template == t
    &&& match t {
        ReportTemplate::Detailed => c.title@ == "ETW Detailed Performance Report"@ && c.max_function_name_length == 128
            && c.max_file_path_length == 256 && c.max_stack_depth == 32 && c.max_hot_paths == 100
            && c.include_system_functions && c.include_thread_summary && c.include_hot_paths
            && c.include_call_stack_details && c.time_format@ == "%Y-%m-%d %H:%M:%S"@ && c.float_precision == 2,
        ReportTemplate::Summary => c.title@ == "ETW Performance Summary"@ && c.max_function_name_length == 64
            && c.max_file_path_length == 128 && c.max_stack_depth == 10 && c.max_hot_paths == 10
            && !c.include_system_functions && c.include_thread_summary && !c.include_hot_paths
            && !c.include_call_stack_details && c.time_format@ == "%Y-%m-%d %H:%M"@ && c.float_precision == 1,
        ReportTemplate::ThreadFocused => c.title@ == "ETW Thread Analysis Report"@ && c.max_function_name_length == 96
            && c.max_file_path_length == 200 && c.max_stack_depth == 20 && c.max_hot_paths == 50
            && !c.include_system_functions && c.include_thread_summary && c.include_hot_paths
            && !c.include_call_stack_details && c.time_format@ == "%Y-%m-%d %H:%M:%S"@ && c.float_precision == 2,
        ReportTemplate::FunctionFocused => c.title@ == "ETW Function Analysis Report"@ && c.max_function_name_length == 160
            && c.max_file_path_length == 300 && c.max_stack_depth == 64 && c.max_hot_paths == 100
            && !c.include_system_functions && !c.include_thread_summary && c.include_hot_paths
            && c.include_call_stack_details && c.time_format@ == "%Y-%m-%d %H:%M:%S"@ && c.float_precision == 3,
    }
}

pub open spec fn template_name(t: ReportTemplate) -> Seq<char> {
    match t {
        ReportTemplate::Detailed => "detailed"@,
        ReportTemplate::Summary => "summary"@,
        ReportTemplate::ThreadFocused => "thread-focused"@,
        ReportTemplate::FunctionFocused => "function-focused"@,
    }
}

pub open spec fn template_display_name(t: ReportTemplate) -> Seq<char> {
    match t {
        ReportTemplate::Detailed => "Detailed Report"@,
        ReportTemplate::Summary => "Summary Report"@,
        ReportTemplate::ThreadFocused => "Thread-Focused Report"@,
        ReportTemplate::FunctionFocused => "Function-Focused Report"@,
    }
}

/// The sections a template's report holds, in order.
pub open spec fn template_sections(t: ReportTemplate) -> Seq<Seq<char>> {
    match t {
        ReportTemplate::Detailed => seq!["Header"@, "Summary"@, "Function Statistics by Thread"@, "Thread Summary"@,
            "Hot Call Paths"@, "Call Stack Details"@, "Footer"@],
        ReportTemplate::Summary => seq!["Header"@, "Summary"@, "Top Hotspots"@, "Thread Summary"@, "Footer"@],
        ReportTemplate::ThreadFocused => seq!["Header"@, "Summary"@, "Thread Summary"@, "Function Statistics by Thread"@,
            "Hot Call Paths"@, "Footer"@],
        ReportTemplate::FunctionFocused => seq!["Header"@, "Summary"@, "Function Statistics by Thread"@, "Hot Call Paths"@,
            "Call Stack Details"@, "Footer"@],
    }
}

/// The template a lower-cased name stands for.
pub open spec fn template_named(s: Seq<char>) -> Option<ReportTemplate> {
    if s == "detailed"@ || s == "full"@ || s == "complete"@ {
        Some(ReportTemplate::Detailed)
    } else if s == "summary"@ || s == "brief"@ || s == "overview"@ {
        Some(ReportTemplate::Summary)
    } else if s == "thread"@ || s == "thread-focused"@ || s == "threadfocus"@ {
        Some(ReportTemplate::ThreadFocused)
    } else if s == "function"@ || s == "function-focused"@ || s == "functionfocus"@ {
        Some(ReportTemplate::FunctionFocused)
    } else {
        None
    }
}

/// A character with `a`-`z` mapped to `A`-`Z`.
pub open spec fn ascii_upper_char(c: char) -> char {
    if 'a' <= c && c <= 'z' { ((c as u32) - 32) as char } else { c }
}

/// Parsing ignores case: an ASCII text names the template that its
/// upper-cased form names, and any two ASCII texts that differ only in the
/// case of their letters name the same template.
pub proof fn law_parse_ignores_case(a: Seq<char>, b: Seq<char>)
    requires
        vstd::utf8::is_ascii_chars(a),
        vstd::utf8::is_ascii_chars(b),
    ensures
        vstd::utf8::is_ascii_chars(a.map_values(|c: char| ascii_upper_char(c))),
        template_named(a.map_values(|c: char| ascii_lower_char(c)))
            == template_named(a.map_values(|c: char| ascii_upper_char(c)).map_values(|c: char| ascii_lower_char(c))),
        a.map_values(|c: char| ascii_upper_char(c)) == b.map_values(|c: char| ascii_upper_char(c))
            ==> template_named(a.map_values(|c: char| ascii_lower_char(c))) == template_named(b.map_values(|c: char| ascii_lower_char(c))),
{
    let u = a.map_values(|c: char| ascii_upper_char(c));
    assert forall|i: int| 0 <= i < u.len() implies '\0' <= #[trigger] u[i] <= '\u{7f}' by {
        assert('\0' <= a[i] <= '\u{7f}');
    }
    assert(u.map_values(|c: char| ascii_lower_char(c)) =~= a.map_values(|c: char| ascii_lower_char(c)));
    if u == b.map_values(|c: char| ascii_upper_char(c)) {
        let v = b.map_values(|c: char| ascii_upper_char(c));
        assert(v.map_values(|c: char| ascii_lower_char(c)) =~= b.map_values(|c: char| ascii_lower_char(c)));
    }
}

/// A template's name is lower-case ASCII, and `template_named` gives the
/// template back from it.
proof fn lemma_name_parses_back(t: ReportTemplate)
    ensures
        vstd::utf8::is_ascii_chars(template_name(t)),
        template_name(t).map_values(|c: char| ascii_lower_char(c)) == template_name(t),
        template_named(template_name(t)) == Some(t),
{
    reveal_strlit("detailed");
    reveal_strlit("summary");
    reveal_strlit("thread-focused");
    reveal_strlit("function-focused");
    reveal_strlit("full");
    reveal_strlit("complete");
    reveal_strlit("brief");
    reveal_strlit("overview");
    reveal_strlit("thread");
    reveal_strlit("threadfocus");
    reveal_strlit("function");
    reveal_strlit("functionfocus");
    let n = template_name(t);
    assert(vstd::utf8::is_ascii_chars(n));
    assert(n.map_values(|c: char| ascii_lower_char(c)) =~= n);
}

pub open spec fn str_views(v: Seq<&str>) -> Seq<Seq<char>> {
    v.map_values(|s: &str| s@)
}

impl ReportTemplate {
    /// The template's preset configuration.
    pub fn config(&self) -> (r: ReportConfig)
        ensures
            is_preset(*self, r),
    {
        let (title, max_name, max_path, max_depth, max_paths, system, threads, paths, details, time, precision): (
            &str, usize, usize, usize, usize, bool, bool, bool, bool, &str, usize) = match self {
            ReportTemplate::Detailed => ("ETW Detailed Performance Report", 128, 256, 32, 100, true, true, true, true,
                "%Y-%m-%d %H:%M:%S", 2),
            ReportTemplate::Summary => ("ETW Performance Summary", 64, 128, 10, 10, false, true, false, false,
                "%Y-%m-%d %H:%M", 1),
            ReportTemplate::ThreadFocused => ("ETW Thread Analysis Report", 96, 200, 20, 50, false, true, true, false,
                "%Y-%m-%d %H:%M:%S", 2),
            ReportTemplate::FunctionFocused => ("ETW Function Analysis Report", 160, 300, 64, 100, false, false, true,
                true, "%Y-%m-%d %H:%M:%S", 3),
        };
        ReportConfig {
            title: owned(title),
            include_bom: true,
            delimiter: ',',
            include_headers: true,
            max_function_name_length: max_name,
            max_file_path_length: max_path,
            max_stack_depth: max_depth,
            max_hot_paths: max_paths,
            include_system_functions: system,
            include_thread_summary: threads,
            include_hot_paths: paths,
            include_call_stack_details: details,
            time_format: owned(time),
            float_precision: precision,
            base_directory: None,
            template: *self,
        }
    }

    pub fn name(&self) -> (r: &'static str)
        ensures
            r@ == template_name(*self),
    {
        match self {
            ReportTemplate::Detailed => "detailed",
            ReportTemplate::Summary => "summary",
            ReportTemplate::ThreadFocused => "thread-focused",
            ReportTemplate::FunctionFocused => "function-focused",
        }
    }

    pub fn display_name(&self) -> (r: &'static str)
        ensures
            r@ == template_display_name(*self),
    {
        match self {
            ReportTemplate::Detailed => "Detailed Report",
            ReportTemplate::Summary => "Summary Report",
            ReportTemplate::ThreadFocused => "Thread-Focused Report",
            ReportTemplate::FunctionFocused => "Function-Focused Report",
        }
    }

    /// The display name as an owned string (what `Display` prints).
    pub fn to_display_string(&self) -> (r: String)
        ensures
            r@ == template_display_name(*self),
    {
        owned(self.display_name())
    }

    pub fn description(&self) -> (r: &'static str)
        ensures
            r@ == match *self {
                ReportTemplate::Detailed => "Complete performance report with all tables and details: function statistics by thread, thread summary, hot call paths, and call stack details."@,
                ReportTemplate::Summary => "Brief report containing only key statistics and top 10 hotspots. Suitable for quick overview."@,
                ReportTemplate::ThreadFocused => "Thread-centric report focusing on thread statistics, CPU usage per thread, and thread-level analysis."@,
                ReportTemplate::FunctionFocused => "Function-centric report emphasizing function statistics, call relationships, and hot paths."@,
            },
    {
        match self {
            ReportTemplate::Detailed => "Complete performance report with all tables and details: function statistics by thread, thread summary, hot call paths, and call stack details.",
            ReportTemplate::Summary => "Brief report containing only key statistics and top 10 hotspots. Suitable for quick overview.",
            ReportTemplate::ThreadFocused => "Thread-centric report focusing on thread statistics, CPU usage per thread, and thread-level analysis.",
            ReportTemplate::FunctionFocused => "Function-centric report emphasizing function statistics, call relationships, and hot paths.",
        }
    }

    /// The sections of the template's report, in order.
    pub fn included_sections(&self) -> (r: Vec<&'static str>)
        ensures
            str_views(r@) == template_sections(*self),
    {
        let r = match self {
            ReportTemplate::Detailed => vec!["Header", "Summary", "Function Statistics by Thread", "Thread Summary",
                "Hot Call Paths", "Call Stack Details", "Footer"],
            ReportTemplate::Summary => vec!["Header", "Summary", "Top Hotspots", "Thread Summary", "Footer"],
            ReportTemplate::ThreadFocused => vec!["Header", "Summary", "Thread Summary", "Function Statistics by Thread",
                "Hot Call Paths", "Footer"],
            ReportTemplate::FunctionFocused => vec!["Header", "Summary", "Function Statistics by Thread", "Hot Call Paths",
                "Call Stack Details", "Footer"],
        };
        assert(str_views(r@) =~= template_sections(*self));
        r
    }

    /// Whether the template's report holds the section named `section`.
    pub fn has_section(&self, section: &str) -> (r: bool)
        ensures
            r == template_sections(*self).contains(section@),
    {
        let sections = self.included_sections();
        let mut i: usize = 0;
        while i < sections.len()
            invariant
                i <= sections@.len(),
                str_views(sections@) == template_sections(*self),
                forall|k: int| 0 <= k < i ==> sections@[k]@ != section@,
            decreases sections@.len() - i,
        {
            if str_eq(sections[i], section) {
                assert(str_views(sections@)[i as int] == section@);
                return true;
            }
            i = i + 1;
        }
        assert forall|k: int| 0 <= k < template_sections(*self).len() implies template_sections(*self)[k] != section@ by {
            assert(str_views(sections@)[k] == sections@[k]@);
        }
        false
    }

    /// The template named by `s`, case-insensitively (with a few aliases).
    pub fn parse(s: &str) -> (r: Option<Self>)
        ensures
            r == template_named(lowercase(s@)),
            vstd::utf8::is_ascii_chars(s@) ==> r == template_named(s@.map_values(|c: char| ascii_lower_char(c))),
            forall|t: ReportTemplate| #[trigger] template_name(t) == s@ ==> r == Some(t),
    {
        let l = to_lower(s);
        let t = l.as_str();
        let r = if str_eq(t, "detailed") || str_eq(t, "full") || str_eq(t, "complete") {
            Some(ReportTemplate::Detailed)
        } else if str_eq(t, "summary") || str_eq(t, "brief") || str_eq(t, "overview") {
            Some(ReportTemplate::Summary)
        } else if str_eq(t, "thread") || str_eq(t, "thread-focused") || str_eq(t, "threadfocus") {
            Some(ReportTemplate::ThreadFocused)
        } else if str_eq(t, "function") || str_eq(t, "function-focused") || str_eq(t, "functionfocus") {
            Some(ReportTemplate::FunctionFocused)
        } else {
            None
        };
        proof {
            assert forall|x: ReportTemplate| #[trigger] template_name(x) == s@ implies r == Some(x) by {
                lemma_name_parses_back(x);
            }
        }
        r
    }

    /// Every template.
    pub fn all() -> (r: Vec<ReportTemplate>)
        ensures
            r@ == seq![ReportTemplate::Detailed, ReportTemplate::Summary, ReportTemplate::ThreadFocused,
                ReportTemplate::FunctionFocused],
    {
        let r = vec![ReportTemplate::Detailed, ReportTemplate::Summary, ReportTemplate::ThreadFocused,
            ReportTemplate::FunctionFocused];
        assert(r@ =~= seq![ReportTemplate::Detailed, ReportTemplate::Summary, ReportTemplate::ThreadFocused,
            ReportTemplate::FunctionFocused]);
        r
    }
}

/// A template with optional overrides of its configuration.
#[derive(Debug, Clone)]
pub struct TemplateConfig {
    pub current_template: ReportTemplate,
    pub custom_overrides: Option<ReportConfig>,
}

/// The configuration `base` with the overrides of `o`: every field of `o`,
/// except an empty title or time format and an absent base directory,
/// which leave the template's.
pub open spec fn overridden(base: ReportConfig, o: ReportConfig) -> ReportConfig {
    ReportConfig {
        title: if o.title@.len() == 0 { base.title } else { o.title },
        include_bom: o.include_bom,
        delimiter: o.delimiter,
        include_headers: o.include_headers,
        max_function_name_length: o.max_function_name_length,
        max_file_path_length: o.max_file_path_length,
        max_stack_depth: o.max_stack_depth,
        max_hot_paths: o.max_hot_paths,
        include_system_functions: o.include_system_functions,
        include_thread_summary: o.include_thread_summary,
        include_hot_paths: o.include_hot_paths,
        include_call_stack_details: o.include_call_stack_details,
        time_format: if o.time_format@.len() == 0 { base.time_format } else { o.time_format },
        float_precision: o.float_precision,
        base_directory: if o.base_directory is Some { o.base_directory } else { base.base_directory },
        template: base.template,
    }
}

impl TemplateConfig {
    pub fn new(template: ReportTemplate) -> (r: Self)
        ensures
            r.current_template == template,
            r.custom_overrides is None,
    {
        TemplateConfig { current_template: template, custom_overrides: None }
    }

    pub fn detailed() -> (r: Self)
        ensures
            r.current_template == ReportTemplate::Detailed,
            r.custom_overrides is None,
    {
        Self::new(ReportTemplate::Detailed)
    }

    pub fn summary() -> (r: Self)
        ensures
            r.current_template == ReportTemplate::Summary,
            r.custom_overrides is None,
    {
        Self::new(ReportTemplate::Summary)
    }

    pub fn thread_focused() -> (r: Self)
        ensures
            r.current_template == ReportTemplate::ThreadFocused,
            r.custom_overrides is None,
    {
        Self::new(ReportTemplate::ThreadFocused)
    }

    pub fn function_focused() -> (r: Self)
        ensures
            r.current_template == ReportTemplate::FunctionFocused,
            r.custom_overrides is None,
    {
        Self::new(ReportTemplate::FunctionFocused)
    }

    pub fn with_overrides(self, config: ReportConfig) -> (r: Self)
        ensures
            r.current_template == self.current_template,
            r.custom_overrides == Some(config),
    {
        TemplateConfig { current_template: self.current_template, custom_overrides: Some(config) }
    }

    /// The template's preset with the overrides applied.
    pub fn final_config(&self) -> (r: ReportConfig)
        ensures
            exists|base: ReportConfig| is_preset(self.current_template, base) && r == match self.custom_overrides {
                Some(o) => overridden(base, o),
                None => base,
            },
    {
        let config = self.current_template.config();
        let ghost base = config;
        match &self.custom_overrides {
            Some(o) => {
                let r = ReportConfig {
                    title: if o.title.as_str().is_empty() { config.title } else { copy_string(&o.title) },
                    include_bom: o.include_bom,
                    delimiter: o.delimiter,
                    include_headers: o.include_headers,
                    max_function_name_length: o.max_function_name_length,
                    max_file_path_length: o.max_file_path_length,
                    max_stack_depth: o.max_stack_depth,
                    max_hot_paths: o.max_hot_paths,
                    include_system_functions: o.include_system_functions,
                    include_thread_summary: o.include_thread_summary,
                    include_hot_paths: o.include_hot_paths,
                    include_call_stack_details: o.include_call_stack_details,
                    time_format: if o.time_format.as_str().is_empty() { config.time_format } else { copy_string(&o.time_format) },
                    float_precision: o.float_precision,
                    base_directory: if o.base_directory.is_some() { copy_opt_string(&o.base_directory) } else { config.base_directory },
                    template: config.template,
                };
                assert(r == overridden(base, *o));
                r
            },
            None => config,
        }
    }

    pub fn switch_template(&mut self, template: ReportTemplate)
        ensures
            final(self).current_template == template,
            final(self).custom_overrides == old(self).custom_overrides,
    {
        self.current_template = template;
    }

    pub fn template(&self) -> (r: ReportTemplate)
        ensures
            r == self.current_template,
    {
        self.current_template
    }

    /// Every template with its display name and description.
    pub fn list_templates() -> (r: Vec<(ReportTemplate, &'static str, &'static str)>)
        ensures
            r@.len() == 4,
            forall|i: int| 0 <= i < 4 ==> {
                let t = seq![ReportTemplate::Detailed, ReportTemplate::Summary, ReportTemplate::ThreadFocused,
                    ReportTemplate::FunctionFocused][i];
                #[trigger] r@[i].0 == t && r@[i].1@ == template_display_name(t)
            },
    {
        let all = ReportTemplate::all();
        let mut r: Vec<(ReportTemplate, &'static str, &'static str)> = Vec::new();
        let mut i: usize = 0;
        while i < all.len()
            invariant
                i <= all@.len(),
                all@ == seq![ReportTemplate::Detailed, ReportTemplate::Summary, ReportTemplate::ThreadFocused,
                    ReportTemplate::FunctionFocused],
                r@.len() == i,
                forall|k: int| #![trigger r@[k]] 0 <= k < i ==> r@[k].0 == all@[k] && r@[k].1@ == template_display_name(all@[k]),
            decreases all@.len() - i,
        {
            let t = all[i];
            let ghost before = r@;
            r.push((t, t.display_name(), t.description()));
            assert(forall|k: int| 0 <= k < i ==> r@[k] == before[k]);
            i = i + 1;
        }
        r
    }
}

impl Default for TemplateConfig {
    fn default() -> (r: Self)
        ensures
            r.current_template == ReportTemplate::Detailed,
            r.custom_overrides is None,
    {
        TemplateConfig { current_template: ReportTemplate::Detailed, custom_overrides: None }
    }
}

} // verus!

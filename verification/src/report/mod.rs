//! Report configuration, sections and templates.
use vstd::prelude::*;
use crate::text::{owned, push_str};

pub mod templates;
pub mod formatter;
pub mod csv;
pub mod summary;

pub use templates::{ReportTemplate, TemplateConfig};

verus! {

/// How a report is generated and formatted.
#[derive(Debug, Clone)]
pub struct ReportConfig {
    pub title: String,
    /// Start the file with a UTF-8 byte-order mark (for spreadsheet tools).
    pub include_bom: bool,
    pub delimiter: char,
    pub include_headers: bool,
    pub max_function_name_length: usize,
    pub max_file_path_length: usize,
    pub max_stack_depth: usize,
    pub max_hot_paths: usize,
    pub include_system_functions: bool,
    pub include_thread_summary: bool,
    pub include_hot_paths: bool,
    pub include_call_stack_details: bool,
    /// A strftime-style format for timestamps.
    pub time_format: String,
    pub float_precision: usize,
    /// The directory paths are shown relative to.
    pub base_directory: Option<String>,
    pub template: ReportTemplate,
}

/// The default configuration.
pub open spec fn is_default_report_config(c: ReportConfig) -> bool {
    &&& c.title@ == "ETW Performance Profiler Report"@
    &&& c.include_bom && c.delimiter == ',' && c.include_headers
    &&& c.max_function_name_length == 128 && c.max_file_path_length == 256
    &&& c.max_stack_depth == 32 && c.max_hot_paths == 100
    &&& !c.include_system_functions && c.include_thread_summary && c.include_hot_paths
    &&& !c.include_call_stack_details
    &&& c.time_format@ == "%Y-%m-%d %H:%M:%S"@ && c.float_precision == 2
    &&& c.base_directory is None && c.template == ReportTemplate::Detailed
}

/// `c` with the section switches and hot-path count its template presets.
pub open spec fn template_settings(c: ReportConfig) -> ReportConfig {
    match c.template {
        ReportTemplate::Detailed => ReportConfig { include_thread_summary: true, include_hot_paths: true,
            include_call_stack_details: true, max_hot_paths: 100, ..c },
        ReportTemplate::Summary => ReportConfig { include_thread_summary: true, include_hot_paths: false,
            include_call_stack_details: false, max_hot_paths: 10, ..c },
        ReportTemplate::ThreadFocused => ReportConfig { include_thread_summary: true, include_hot_paths: true,
            include_call_stack_details: false, max_hot_paths: 50, ..c },
        ReportTemplate::FunctionFocused => ReportConfig { include_thread_summary: false, include_hot_paths: true,
            include_call_stack_details: true, max_hot_paths: 100, ..c },
    }
}

impl Default for ReportConfig {
    fn default() -> (r: Self)
        ensures
            is_default_report_config(r),
    {
        ReportConfig {
            title: owned("ETW Performance Profiler Report"),
            include_bom: true,
            delimiter: ',',
            include_headers: true,
            max_function_name_length: 128,
            max_file_path_length: 256,
            max_stack_depth: 32,
            max_hot_paths: 100,
            include_system_functions: false,
            include_thread_summary: true,
            include_hot_paths: true,
            include_call_stack_details: false,
            time_format: owned("%Y-%m-%d %H:%M:%S"),
            float_precision: 2,
            base_directory: None,
            template: ReportTemplate::Detailed,
        }
    }
}

impl ReportConfig {
    pub fn new() -> (r: Self)
        ensures
            is_default_report_config(r),
    {
        Self::default()
    }

    pub fn with_title(self, title: &str) -> (r: Self)
        ensures
            r.title@ == title@,
            r == (ReportConfig { title: r.title, ..self }),
    {
        ReportConfig { title: owned(title), ..self }
    }

    pub fn with_bom(self, enabled: bool) -> (r: Self)
        ensures
            r == (ReportConfig { include_bom: enabled, ..self }),
    {
        ReportConfig { include_bom: enabled, ..self }
    }

    pub fn with_delimiter(self, delimiter: char) -> (r: Self)
        ensures
            r == (ReportConfig { delimiter, ..self }),
    {
        ReportConfig { delimiter, ..self }
    }

    pub fn with_headers(self, enabled: bool) -> (r: Self)
        ensures
            r == (ReportConfig { include_headers: enabled, ..self }),
    {
        ReportConfig { include_headers: enabled, ..self }
    }

    pub fn with_max_function_name_length(self, length: usize) -> (r: Self)
        ensures
            r == (ReportConfig { max_function_name_length: length, ..self }),
    {
        ReportConfig { max_function_name_length: length, ..self }
    }

    pub fn with_max_file_path_length(self, length: usize) -> (r: Self)
        ensures
            r == (ReportConfig { max_file_path_length: length, ..self }),
    {
        ReportConfig { max_file_path_length: length, ..self }
    }

    pub fn with_max_stack_depth(self, depth: usize) -> (r: Self)
        ensures
            r == (ReportConfig { max_stack_depth: depth, ..self }),
    {
        ReportConfig { max_stack_depth: depth, ..self }
    }

    pub fn with_max_hot_paths(self, count: usize) -> (r: Self)
        ensures
            r == (ReportConfig { max_hot_paths: count, ..self }),
    {
        ReportConfig { max_hot_paths: count, ..self }
    }

    pub fn with_system_functions(self, enabled: bool) -> (r: Self)
        ensures
            r == (ReportConfig { include_system_functions: enabled, ..self }),
    {
        ReportConfig { include_system_functions: enabled, ..self }
    }

    pub fn with_thread_summary(self, enabled: bool) -> (r: Self)
        ensures
            r == (ReportConfig { include_thread_summary: enabled, ..self }),
    {
        ReportConfig { include_thread_summary: enabled, ..self }
    }

    pub fn with_hot_paths(self, enabled: bool) -> (r: Self)
        ensures
            r == (ReportConfig { include_hot_paths: enabled, ..self }),
    {
        ReportConfig { include_hot_paths: enabled, ..self }
    }

    pub fn with_call_stack_details(self, enabled: bool) -> (r: Self)
        ensures
            r == (ReportConfig { include_call_stack_details: enabled, ..self }),
    {
        ReportConfig { include_call_stack_details: enabled, ..self }
    }

    pub fn with_time_format(self, format: &str) -> (r: Self)
        ensures
            r.time_format@ == format@,
            r == (ReportConfig { time_format: r.time_format, ..self }),
    {
        ReportConfig { time_format: owned(format), ..self }
    }

    pub fn with_float_precision(self, precision: usize) -> (r: Self)
        ensures
            r == (ReportConfig { float_precision: precision, ..self }),
    {
        ReportConfig { float_precision: precision, ..self }
    }

    pub fn with_base_directory(self, dir: &str) -> (r: Self)
        ensures
            r.base_directory matches Some(d) && d@ == dir@,
            r == (ReportConfig { base_directory: r.base_directory, ..self }),
    {
        ReportConfig { base_directory: Some(owned(dir)), ..self }
    }

    /// Switches to `template` and takes its section switches and hot-path
    /// count.
    pub fn with_template(self, template: ReportTemplate) -> (r: Self)
        ensures
            r == template_settings(ReportConfig { template, ..self }),
    {
        let mut c = ReportConfig { template, ..self };
        c.apply_template_settings();
        c
    }

    fn apply_template_settings(&mut self)
        ensures
            *final(self) == template_settings(*old(self)),
    {
        match self.template {
            ReportTemplate::Detailed => {
                self.include_thread_summary = true;
                self.include_hot_paths = true;
                self.include_call_stack_details = true;
                self.max_hot_paths = 100;
            },
            ReportTemplate::Summary => {
                self.include_thread_summary = true;
                self.include_hot_paths = false;
                self.include_call_stack_details = false;
                self.max_hot_paths = 10;
            },
            ReportTemplate::ThreadFocused => {
                self.include_thread_summary = true;
                self.include_hot_paths = true;
                self.include_call_stack_details = false;
                self.max_hot_paths = 50;
            },
            ReportTemplate::FunctionFocused => {
                self.include_thread_summary = false;
                self.include_hot_paths = true;
                self.include_call_stack_details = true;
                self.max_hot_paths = 100;
            },
        }
    }

    /// The default configuration switched to `template`.
    pub fn from_template(template: ReportTemplate) -> (r: Self)
        ensures
            exists|d: ReportConfig| is_default_report_config(d) && r == template_settings(ReportConfig { template, ..d }),
    {
        let d = Self::default();
        let ghost g = d;
        let r = d.with_template(template);
        assert(is_default_report_config(g));
        r
    }
}

/// The sections of a report.
#[derive(Debug, Clone, Copy, PartialEq, Eq, Structural)]
pub enum ReportSection {
    Header,
    Summary,
    FunctionStatsByThread,
    ThreadSummary,
    HotPaths,
    CallStackDetails,
    Footer,
}

pub open spec fn section_title(s: ReportSection) -> Seq<char> {
    match s {
        ReportSection::Header => "Report Header"@,
        ReportSection::Summary => "Summary"@,
        ReportSection::FunctionStatsByThread => "Function Statistics by Thread"@,
        ReportSection::ThreadSummary => "Thread Summary"@,
        ReportSection::HotPaths => "Hot Call Paths"@,
        ReportSection::CallStackDetails => "Call Stack Details"@,
        ReportSection::Footer => "Report Footer"@,
    }
}

impl ReportSection {
    pub fn title(&self) -> (r: &'static str)
        ensures
            r@ == section_title(*self),
    {
        match self {
            ReportSection::Header => "Report Header",
            ReportSection::Summary => "Summary",
            ReportSection::FunctionStatsByThread => "Function Statistics by Thread",
            ReportSection::ThreadSummary => "Thread Summary",
            ReportSection::HotPaths => "Hot Call Paths",
            ReportSection::CallStackDetails => "Call Stack Details",
            ReportSection::Footer => "Report Footer",
        }
    }

    /// The comment line that opens the section in a CSV report: `## ` and
    /// its title.
    pub fn comment_marker(&self) -> (r: String)
        ensures
            r@ == "## "@ + section_title(*self),
    {
        let mut s = owned("## ");
        push_str(&mut s, self.title());
        s
    }
}

} // verus!

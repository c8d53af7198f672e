use etw_profiler::report::summary::{module_of, sampling_time_us, simple_name, summary_counts, top_functions};
use etw_profiler::report::csv::{sorted_thread_ids, CsvReportGenerator};
use etw_profiler::report::formatter::ReportFormatter;
use etw_profiler::report::templates::presets;
use etw_profiler::report::templates::{ReportTemplate, TemplateConfig};
use etw_profiler::report::{ReportConfig, ReportSection};
use etw_profiler::analysis::exporter::AnalysisResult;
use etw_profiler::types::{FunctionStats, ProcessStats, ThreadStats};

#[test]
fn test_report_config_default() {
    let config = ReportConfig::default();
    assert_eq!(config.title, "ETW Performance Profiler Report");
    assert!(config.include_bom);
    assert_eq!(config.delimiter, ',');
    assert!(config.include_headers);
    assert_eq!(config.max_function_name_length, 128);
}

#[test]
fn test_report_config_builder() {
    let config = ReportConfig::new().with_title("Custom Report").with_bom(false).with_delimiter(';').with_max_function_name_length(64);
    assert_eq!(config.title, "Custom Report");
    assert!(!config.include_bom);
    assert_eq!(config.delimiter, ';');
    assert_eq!(config.max_function_name_length, 64);
}

#[test]
fn mod_test_report_template_config() {
    let config = ReportConfig::from_template(ReportTemplate::Summary);
    assert!(config.include_thread_summary);
    assert!(!config.include_hot_paths);
    assert!(!config.include_call_stack_details);
    let config = ReportConfig::from_template(ReportTemplate::Detailed);
    assert!(config.include_thread_summary);
    assert!(config.include_hot_paths);
    assert!(config.include_call_stack_details);
}

#[test]
fn test_report_section_title() {
    assert_eq!(ReportSection::Header.title(), "Report Header");
    assert_eq!(ReportSection::Summary.title(), "Summary");
    assert_eq!(ReportSection::FunctionStatsByThread.title(), "Function Statistics by Thread");
}

#[test]
fn templates_test_report_template_config() {
    let detailed = ReportTemplate::Detailed.config();
    assert!(detailed.include_call_stack_details);
    assert!(detailed.include_hot_paths);
    assert_eq!(detailed.max_hot_paths, 100);
    let summary = ReportTemplate::Summary.config();
    assert!(!summary.include_call_stack_details);
    assert!(!summary.include_hot_paths);
    assert_eq!(summary.max_hot_paths, 10);
}

#[test]
fn test_report_template_parse() {
    assert_eq!(ReportTemplate::parse("detailed"), Some(ReportTemplate::Detailed));
    assert_eq!(ReportTemplate::parse("SUMMARY"), Some(ReportTemplate::Summary));
    assert_eq!(ReportTemplate::parse("thread-focused"), Some(ReportTemplate::ThreadFocused));
    assert_eq!(ReportTemplate::parse("function"), Some(ReportTemplate::FunctionFocused));
    assert_eq!(ReportTemplate::parse("unknown"), None);
}

#[test]
fn test_report_template_name() {
    assert_eq!(ReportTemplate::Detailed.name(), "detailed");
    assert_eq!(ReportTemplate::Summary.name(), "summary");
}

#[test]
fn test_report_template_sections() {
    let detailed_sections = ReportTemplate::Detailed.included_sections();
    assert!(detailed_sections.contains(&"Call Stack Details"));
    let summary_sections = ReportTemplate::Summary.included_sections();
    assert!(!summary_sections.contains(&"Call Stack Details"));
    assert!(summary_sections.contains(&"Top Hotspots"));
}

#[test]
fn test_report_template_has_section() {
    assert!(ReportTemplate::Detailed.has_section("Call Stack Details"));
    assert!(!ReportTemplate::Summary.has_section("Call Stack Details"));
}

#[test]
fn test_template_config() {
    let config = TemplateConfig::detailed();
    assert_eq!(config.template(), ReportTemplate::Detailed);
    let final_config = config.final_config();
    assert!(final_config.include_call_stack_details);
}

#[test]
fn test_template_config_with_overrides() {
    let custom = ReportConfig::default().with_title("Custom Title").with_max_hot_paths(50);
    let config = TemplateConfig::summary().with_overrides(custom);
    let final_config = config.final_config();
    assert_eq!(final_config.title, "Custom Title");
    assert_eq!(final_config.max_hot_paths, 50);
}

#[test]
fn test_template_presets() {
    let detailed = presets::detailed();
    assert!(detailed.include_call_stack_details);
    let summary = presets::summary();
    assert!(!summary.include_call_stack_details);
}

#[test]
fn test_template_display() {
    assert_eq!(ReportTemplate::Detailed.to_display_string(), "Detailed Report");
}

#[test]
fn test_all_templates() {
    let all = ReportTemplate::all();
    assert_eq!(all.len(), 4);
    assert!(all.contains(&ReportTemplate::Detailed));
    assert!(all.contains(&ReportTemplate::Summary));
    assert!(all.contains(&ReportTemplate::ThreadFocused));
    assert!(all.contains(&ReportTemplate::FunctionFocused));
}

#[test]
fn test_list_templates() {
    let templates = TemplateConfig::list_templates();
    assert_eq!(templates.len(), 4);
    let names: Vec<&str> = templates.iter().map(|(_, name, _)| *name).collect();
    assert!(names.contains(&"Detailed Report"));
    assert!(names.contains(&"Summary Report"));
}

#[test]
fn test_format_function_name_short() {
    let result = ReportFormatter::format_function_name("main", 32);
    assert_eq!(result, "main");
}

#[test]
fn test_format_function_name_long() {
    let result = ReportFormatter::format_function_name("very_long_function_name_that_exceeds_limit", 20);
    assert!(result.len() <= 20);
    assert!(result.starts_with("..."));
}

#[test]
fn test_format_function_name_with_module() {
    let result = ReportFormatter::format_function_name("my_dll.dll!MyClass::VeryLongMethodName", 25);
    assert!(result.len() <= 25);
    assert!(result.contains("VeryLongMethodName") || result.contains("MyClass"));
}

#[test]
fn test_format_file_path_relative() {
    let path = "C:\\project\\src\\main.rs";
    let base = "C:\\project";
    let result = ReportFormatter::format_file_path(path, Some(base));
    assert_eq!(result, "src\\main.rs");
}

#[test]
fn test_format_file_path_absolute() {
    let path = "C:\\project\\src\\main.rs";
    let result = ReportFormatter::format_file_path(path, None);
    assert_eq!(result, "C:\\project\\src\\main.rs");
}

#[test]
fn test_format_call_stack() {
    let stack = vec!["main".to_string(), "process_request".to_string(), "handle_connection".to_string()];
    let result = ReportFormatter::format_call_stack(&stack, 10);
    assert_eq!(result, "main;process_request;handle_connection");
}

#[test]
fn test_format_call_stack_with_limit() {
    let stack = vec!["f1".to_string(), "f2".to_string(), "f3".to_string(), "f4".to_string()];
    let result = ReportFormatter::format_call_stack(&stack, 2);
    assert_eq!(result, "f1;f2");
}

#[test]
fn test_escape_csv_field() {
    assert_eq!(ReportFormatter::escape_csv_field("simple", ','), "simple");
    assert_eq!(ReportFormatter::escape_csv_field("with,comma", ','), "\"with,comma\"");
    assert_eq!(ReportFormatter::escape_csv_field("with\"quote", ','), "\"with\"\"quote\"");
    assert_eq!(ReportFormatter::escape_csv_field("with\nnewline", ','), "\"with\nnewline\"");
}

#[test]
fn test_format_number() {
    assert_eq!(ReportFormatter::format_number(1000), "1,000");
    assert_eq!(ReportFormatter::format_number(1000000), "1,000,000");
    assert_eq!(ReportFormatter::format_number(999), "999");
}

#[test]
fn test_format_module_name() {
    assert_eq!(ReportFormatter::format_module_name("C:\\Windows\\System32\\kernel32.dll"), "kernel32.dll");
    assert_eq!(ReportFormatter::format_module_name("kernel32.dll"), "kernel32.dll");
}

#[test]
fn test_csv_report_generator_new() {
    let config = ReportConfig::default();
    let generator = CsvReportGenerator::new(config);
    assert_eq!(generator.config().title, "ETW Performance Profiler Report");
}

#[test]
fn test_is_system_function() {
    let config = ReportConfig::default();
    let generator = CsvReportGenerator::new(config);
    let mut func = FunctionStats::new("ntdll.dll!RtlInitializeExceptionChain");
    func.module_name = Some("ntdll.dll".to_string());
    assert!(generator.is_system_function(&func));
    let mut func2 = FunctionStats::new("myapp.exe!main");
    func2.module_name = Some("myapp.exe".to_string());
    assert!(!generator.is_system_function(&func2));
}

#[test]
fn function_name_keeps_module_tail_when_room() {
    let r = ReportFormatter::format_function_name("abcdefghij!fn", 12);
    assert_eq!(r, "...efghij!fn");
    let r = ReportFormatter::format_function_name("noseparator_here", 8);
    assert_eq!(r, "..._here");
}

#[test]
fn long_path_without_base_keeps_file_name() {
    let long = format!("C:\\{}\\file.txt", "d".repeat(300));
    assert_eq!(ReportFormatter::format_file_path(&long, None), ".../file.txt");
    assert_eq!(ReportFormatter::format_file_path("D:\\other\\x.rs", Some("C:\\project")), "D:\\other\\x.rs");
}

#[test]
fn report_functions_sorted_and_filtered() {
    let generator = CsvReportGenerator::new(ReportConfig::default());
    let mut t = ThreadStats::new(1, 1);
    let mut a = FunctionStats::new("a");
    a.total_time_us = 10;
    let mut b = FunctionStats::new("b");
    b.total_time_us = 30;
    let mut s = FunctionStats::new("ntdll.dll!x");
    s.total_time_us = 50;
    s.module_name = Some("NTDLL.DLL".to_string());
    t.add_function_stats(a);
    t.add_function_stats(b);
    t.add_function_stats(s);
    let r = generator.report_functions(&t);
    let names: Vec<&str> = r.iter().map(|f| f.function_name.as_str()).collect();
    assert_eq!(names, vec!["b", "a"]);
    let mut result = AnalysisResult::new(ProcessStats::new(1));
    result.add_thread_stats(ThreadStats::new(9, 1));
    result.add_thread_stats(ThreadStats::new(3, 1));
    assert_eq!(sorted_thread_ids(&result), vec![3, 9]);
}

#[test]
fn comment_marker_prefixes_title() {
    assert_eq!(ReportSection::HotPaths.comment_marker(), "## Hot Call Paths");
}

fn summary_test_result() -> AnalysisResult {
    let mut result = AnalysisResult::new(ProcessStats::new(1234));
    let mut thread_stats = ThreadStats::new(1, 1234);
    thread_stats.total_samples = 100;
    let mut func1 = FunctionStats::new("test.dll!hot_function");
    func1.total_time_us = 50000;
    func1.self_time_us = 20000;
    func1.call_count = 50;
    thread_stats.add_function_stats(func1);
    let mut func2 = FunctionStats::new("test.dll!cold_function");
    func2.total_time_us = 10000;
    func2.self_time_us = 5000;
    func2.call_count = 10;
    thread_stats.add_function_stats(func2);
    result.add_thread_stats(thread_stats);
    result.total_samples = 100;
    result.analysis_start_time = 0;
    result.analysis_end_time = 1_000_000;
    result
}

#[test]
fn summary_counts_and_hottest_functions() {
    let result = summary_test_result();
    assert_eq!(summary_counts(&result), (100, 1, 2));
    let top = top_functions(&result, 10);
    assert_eq!(top.len(), 2);
    assert_eq!(top[0].function_name, "test.dll!hot_function");
    assert_eq!(top[1].function_name, "test.dll!cold_function");
    assert_eq!(top_functions(&result, 1).len(), 1);
    assert_eq!(sampling_time_us(&result), Some(100_000));
}

#[test]
fn hotspot_names_split_at_bang() {
    assert_eq!(simple_name("module!function_name"), "function_name");
    assert_eq!(simple_name("function_name"), "function_name");
    assert_eq!(simple_name("a!b!c"), "c");
    assert_eq!(module_of(&None, "test.dll!f"), "test.dll");
    assert_eq!(module_of(&None, "f"), "f");
    assert_eq!(module_of(&Some("m.dll".to_string()), "x!f"), "m.dll");
}

#[test]
fn template_names_parse_back() {
    for t in ReportTemplate::all() {
        assert_eq!(ReportTemplate::parse(t.name()), Some(t));
    }
}

#[test]
fn grouped_numbers_keep_their_digits() {
    for n in [0u64, 7, 999, 1000, 1234567, u64::MAX] {
        assert_eq!(ReportFormatter::format_number(n).replace(',', ""), n.to_string());
    }
}

use etw_profiler::analysis::aggregator::{AggregatorConfig, StatsAggregator};
use etw_profiler::analysis::exporter::{
    escape_csv_field, parse_export_format, AnalysisResult, CsvExporter, ExportFormat, JsonExporter, MultiExporter,
};
use etw_profiler::analysis::flamegraph::{build_flame_path, merge_flame_graphs, FlameGraph, FlameGraphBuilder, FlameNode};
use etw_profiler::analysis::function_stats::{calculate_duration_us, FunctionStatsAggregator, FunctionStatsCalculator, SampleRecord};
use etw_profiler::analysis::thread_analyzer::{CallNode, CallPath, ThreadAnalyzer, ThreadAnalyzerConfig};
use etw_profiler::analysis::{merge_function_stats, AnalysisConfig, AnalysisStats};
use etw_profiler::profiler::{collection_should_stop, is_target_sample, new_samples, progress_of, result_from};
use etw_profiler::config::TargetProcess;
use etw_profiler::session::ProfilerSession;
use etw_profiler::stackwalker::collector::{CollectedStack, FrameType, ResolvedFrame};
use etw_profiler::types::{FunctionStats, ModuleInfo, ProcessId, ProcessStats, StackFrame, SymbolInfo, ThreadId, ThreadStats};

fn aggregator_test_stack(thread_id: ThreadId, process_id: ProcessId) -> CollectedStack {
    CollectedStack::new(
        process_id,
        thread_id,
        1000,
        vec![
            ResolvedFrame::with_type(0x00401000, FrameType::User).with_module(ModuleInfo::new(0x00400000, 0x10000, "test.exe")),
            ResolvedFrame::with_type(0x00402000, FrameType::User).with_module(ModuleInfo::new(0x00400000, 0x10000, "test.exe")),
        ],
    )
}

fn flame_test_stack(frames: Vec<&str>) -> CollectedStack {
    let resolved: Vec<ResolvedFrame> = frames
        .into_iter()
        .map(|module| ResolvedFrame::with_type(0x00401000, FrameType::User).with_module(ModuleInfo::new(0x00400000, 0x10000, module)))
        .collect();
    CollectedStack::new(1000, 1, 1000, resolved)
}

fn child<'a>(node: &'a FlameNode, name: &str) -> Option<&'a FlameNode> {
    node.find_child(&name.to_string()).map(|i| &node.children[i])
}

fn strings(v: &[&str]) -> Vec<String> {
    v.iter().map(|s| s.to_string()).collect()
}

#[test]
fn test_aggregator_new() {
    let config = AggregatorConfig::default();
    let aggregator = StatsAggregator::new(config);
    assert_eq!(aggregator.total_samples(), 0);
    assert_eq!(aggregator.thread_count(), 0);
}

#[test]
fn test_process_stack() {
    let config = AggregatorConfig::default();
    let mut aggregator = StatsAggregator::new(config);
    let stack = aggregator_test_stack(1, 1000);
    aggregator.process_stack(&stack).unwrap();
    assert_eq!(aggregator.total_samples(), 1);
    assert_eq!(aggregator.thread_count(), 1);
    let thread_stats = aggregator.get_thread_stats(1).unwrap();
    assert_eq!(thread_stats.total_samples, 1);
    assert_eq!(thread_stats.function_stats.len(), 2);
}

#[test]
fn test_get_top_functions() {
    let config = AggregatorConfig::default();
    let mut aggregator = StatsAggregator::new(config);
    for _ in 0..10 {
        let stack = aggregator_test_stack(1, 1000);
        aggregator.process_stack(&stack).unwrap();
    }
    let top_functions = aggregator.get_top_functions(1, 2);
    assert_eq!(top_functions.len(), 2);
}

#[test]
fn test_reset() {
    let config = AggregatorConfig::default();
    let mut aggregator = StatsAggregator::new(config);
    let stack = aggregator_test_stack(1, 1000);
    aggregator.process_stack(&stack).unwrap();
    assert_eq!(aggregator.total_samples(), 1);
    aggregator.reset();
    assert_eq!(aggregator.total_samples(), 0);
    assert_eq!(aggregator.thread_count(), 0);
}

#[test]
fn test_config_builder() {
    let config = AggregatorConfig::new()
        .with_merge_recursive_calls(false)
        .with_exclude_system_functions(true)
        .with_min_sample_count(5)
        .with_sample_interval_ms(10);
    assert!(!config.merge_recursive_calls);
    assert!(config.exclude_system_functions);
    assert_eq!(config.min_sample_count, 5);
    assert_eq!(config.sample_interval_ms, 10);
}

#[test]
fn test_analysis_result_new() {
    let process_stats = ProcessStats::new(1234);
    let result = AnalysisResult::new(process_stats);
    assert_eq!(result.process_stats.process_id, 1234);
    assert!(result.thread_stats.is_empty());
    assert!(result.top_functions.is_empty());
}

#[test]
fn test_analysis_result_timing() {
    let process_stats = ProcessStats::new(1234);
    let result = AnalysisResult::new(process_stats).with_timing(1000, 5000).with_sampling_info(100, 10);
    assert_eq!(result.analysis_duration_us(), 4000);
    assert_eq!(result.total_sampling_time_ms(), 1000);
}

#[test]
fn test_csv_exporter_new() {
    let exporter = CsvExporter::new();
    assert!(exporter.output_path().is_none());
}

#[test]
fn test_csv_escape_field() {
    assert_eq!(escape_csv_field("simple", ','), "simple");
    assert_eq!(escape_csv_field("with,comma", ','), "\"with,comma\"");
    assert_eq!(escape_csv_field("with\"quote", ','), "\"with\"\"quote\"");
}

#[test]
fn test_json_exporter_new() {
    let exporter = JsonExporter::new();
    assert!(exporter.output_path().is_none());
}

#[test]
fn test_parse_export_format() {
    assert_eq!(parse_export_format("csv"), Some(ExportFormat::Csv));
    assert_eq!(parse_export_format("JSON"), Some(ExportFormat::Json));
    assert_eq!(parse_export_format("FlameGraph"), Some(ExportFormat::FlameGraph));
    assert_eq!(parse_export_format("unknown"), None);
}

#[test]
fn test_multi_exporter_new() {
    let exporter = MultiExporter::new().with_csv(true).with_json(true).with_flamegraph(true).with_base_name("test");
    assert!(exporter.csv_exporter.is_some());
    assert!(exporter.json_exporter.is_some());
    assert!(exporter.flame_exporter.is_some());
    assert_eq!(exporter.base_name, "test");
}

#[test]
fn test_analysis_result_aggregate() {
    let process_stats = ProcessStats::new(1234);
    let mut result = AnalysisResult::new(process_stats);
    let mut thread_stats = ThreadStats::new(1, 1234);
    thread_stats.add_function_stats(FunctionStats::new("func_a"));
    result.add_thread_stats(thread_stats);
    let aggregated = result.aggregate_function_stats();
    assert!(aggregated.iter().any(|f| f.function_name == "func_a"));
}

#[test]
fn test_flame_node_insert() {
    let mut root = FlameNode::new("root");
    root.insert(&strings(&["a", "b", "c"]), 10);
    assert_eq!(root.value, 10);
    assert!(child(&root, "a").is_some());
    let node_a = child(&root, "a").unwrap();
    assert_eq!(node_a.value, 10);
    assert!(child(node_a, "b").is_some());
}

#[test]
fn test_flame_node_merge() {
    let mut node1 = FlameNode::new("root");
    node1.insert(&strings(&["a", "b"]), 10);
    let mut node2 = FlameNode::new("root");
    node2.insert(&strings(&["a", "c"]), 5);
    node1.merge(&node2);
    assert_eq!(node1.value, 15);
    assert!(child(&node1, "a").is_some());
    let node_a = child(&node1, "a").unwrap();
    assert_eq!(node_a.value, 15);
    assert!(child(node_a, "b").is_some());
    assert!(child(node_a, "c").is_some());
}

#[test]
fn test_flame_graph_builder() {
    let mut builder = FlameGraphBuilder::new();
    let stack1 = flame_test_stack(vec!["app.exe", "lib.dll", "kernel32.dll"]);
    let stack2 = flame_test_stack(vec!["app.exe", "lib.dll", "ntdll.dll"]);
    builder.add_stack(&stack1);
    builder.add_stack(&stack2);
    let flame_graph = builder.build();
    assert_eq!(flame_graph.total_samples, 2);
    assert!(flame_graph.root.value >= 2);
}

#[test]
fn test_export_folded() {
    let mut builder = FlameGraphBuilder::new();
    let stack = flame_test_stack(vec!["app.exe", "lib.dll", "kernel32.dll"]);
    builder.add_stack(&stack);
    let folded = builder.export_folded();
    assert!(!folded.is_empty());
}

#[test]
fn test_flame_node_filter() {
    let mut root = FlameNode::new("root");
    root.insert(&strings(&["a"]), 100);
    root.insert(&strings(&["b"]), 5);
    root.insert(&strings(&["c"]), 3);
    let filtered = root.filter_min_samples(10);
    assert!(child(&filtered, "a").is_some());
    assert!(child(&filtered, "b").is_none());
    assert!(child(&filtered, "c").is_none());
}

#[test]
fn test_from_folded() {
    let folded_data = "a;b;c 10\na;b;d 5\na;e 3";
    let flame_graph = FlameGraph::from_folded(folded_data).unwrap();
    assert_eq!(flame_graph.total_samples, 18);
    assert!(child(&flame_graph.root, "a").is_some());
    let node_a = child(&flame_graph.root, "a").unwrap();
    assert_eq!(node_a.value, 18);
}

#[test]
fn test_flame_node_count() {
    let mut root = FlameNode::new("root");
    root.insert(&strings(&["a", "b", "c"]), 10);
    root.insert(&strings(&["a", "d"]), 5);
    assert_eq!(root.count_nodes(), 5);
}

#[test]
fn test_flame_node_depth() {
    let mut root = FlameNode::new("root");
    root.insert(&strings(&["a", "b", "c"]), 10);
    root.insert(&strings(&["a", "d"]), 5);
    assert_eq!(root.depth(), 4);
}

#[test]
fn test_get_hottest_paths() {
    let mut builder = FlameGraphBuilder::new();
    for _ in 0..10 {
        let stack = flame_test_stack(vec!["app.exe", "hot.dll"]);
        builder.add_stack(&stack);
    }
    for _ in 0..5 {
        let stack = flame_test_stack(vec!["app.exe", "cold.dll"]);
        builder.add_stack(&stack);
    }
    let flame_graph = builder.build();
    let hottest = flame_graph.get_hottest_paths(2);
    assert!(!hottest.is_empty());
    assert_eq!(hottest[0].1, 10);
}

#[test]
fn test_build_flame_path() {
    let frames = vec![
        StackFrame::with_symbol(0x001, "app.exe", "main"),
        StackFrame::with_symbol(0x002, "app.exe", "run"),
        StackFrame::with_symbol(0x003, "lib.dll", "process"),
    ];
    let path = build_flame_path(&frames, false);
    assert_eq!(path.len(), 3);
    assert_eq!(path[0], "app.exe!main");
    let reversed = build_flame_path(&frames, true);
    assert_eq!(reversed[0], "lib.dll!process");
}

#[test]
fn test_merge_flame_graphs() {
    let mut builder1 = FlameGraphBuilder::new();
    let stack1 = flame_test_stack(vec!["app.exe", "func_a.dll"]);
    builder1.add_stack(&stack1);
    let mut builder2 = FlameGraphBuilder::new();
    let stack2 = flame_test_stack(vec!["app.exe", "func_b.dll"]);
    builder2.add_stack(&stack2);
    let merged = merge_flame_graphs(&[builder1.build(), builder2.build()]);
    assert_eq!(merged.total_samples, 2);
}

#[test]
fn test_flame_graph_builder_reset() {
    let mut builder = FlameGraphBuilder::new();
    let stack = flame_test_stack(vec!["app.exe"]);
    builder.add_stack(&stack);
    assert_eq!(builder.total_samples(), 1);
    builder.reset();
    assert_eq!(builder.total_samples(), 0);
    assert_eq!(builder.root().value, 0);
}

#[test]
fn test_sample_record() {
    let record = SampleRecord::new("test_function", 5, true)
        .with_timestamp(1000)
        .with_duration(2000)
        .with_caller("caller_function");
    assert_eq!(record.function_name, "test_function");
    assert_eq!(record.stack_depth, 5);
    assert!(record.is_leaf);
    assert_eq!(record.timestamp, 1000);
    assert_eq!(record.duration_us, 2000);
    assert_eq!(record.caller, Some("caller_function".to_string()));
}

#[test]
fn test_function_stats_calculator() {
    let mut calc = FunctionStatsCalculator::new("test_function").with_module("test.exe").with_thread_id(1).with_sample_interval(1);
    for i in 0..10 {
        calc.record_sample("test_function", i % 3 + 5, i == 0);
    }
    assert_eq!(calc.total_samples(), 10);
    assert_eq!(calc.self_samples(), 1);
    assert!(calc.total_time_us() > 0);
    assert!(calc.self_time_us() > 0);
    let avg_depth = calc.total_depth() as f64 / calc.total_samples() as f64;
    assert!(avg_depth > 0.0);
    let stats = calc.build_stats();
    assert_eq!(stats.function_name, "test_function");
    assert_eq!(stats.module_name, Some("test.exe".to_string()));
    assert_eq!(stats.call_count, 10);
}

#[test]
fn test_depth_distribution() {
    let mut calc = FunctionStatsCalculator::new("test_function");
    calc.record_sample("test_function", 3, false);
    calc.record_sample("test_function", 3, false);
    calc.record_sample("test_function", 5, false);
    calc.record_sample("test_function", 5, false);
    calc.record_sample("test_function", 5, false);
    let most_common = calc.most_common_depth();
    assert_eq!(most_common, Some(5));
    let avg_depth = calc.total_depth() as f64 / calc.total_samples() as f64;
    assert_eq!(avg_depth, 4.2);
}

#[test]
fn test_caller_distribution() {
    let mut calc = FunctionStatsCalculator::new("test_function");
    let record1 = SampleRecord::new("test_function", 5, false).with_caller("caller_a");
    let record2 = SampleRecord::new("test_function", 5, false).with_caller("caller_a");
    let record3 = SampleRecord::new("test_function", 5, false).with_caller("caller_b");
    calc.record(&record1);
    calc.record(&record2);
    calc.record(&record3);
    let most_common = calc.most_common_caller();
    assert_eq!(most_common, Some("caller_a"));
    assert_eq!(calc.caller_count(), 2);
}

#[test]
fn test_function_stats_aggregator() {
    let mut aggregator = FunctionStatsAggregator::new().with_sample_interval(1).with_detailed_stats(true);
    aggregator.record_sample("func_a", 1, true);
    aggregator.record_sample("func_a", 1, false);
    aggregator.record_sample("func_b", 2, false);
    aggregator.record_sample("func_c", 3, false);
    assert_eq!(aggregator.function_count(), 3);
    assert_eq!(aggregator.total_samples(), 4);
    let top_by_calls = aggregator.get_top_by_call_count(2);
    assert_eq!(top_by_calls.len(), 2);
    assert_eq!(top_by_calls[0].function_name(), "func_a");
}

#[test]
fn test_calculator_reset() {
    let mut calc = FunctionStatsCalculator::new("test_function");
    calc.record_sample("test_function", 5, true);
    assert_eq!(calc.total_samples(), 1);
    calc.reset();
    assert_eq!(calc.total_samples(), 0);
    assert_eq!(calc.self_samples(), 0);
    assert_eq!(calc.total_time_us(), 0);
}

#[test]
fn test_calculate_duration() {
    assert_eq!(calculate_duration_us(1000, 2000), 1000);
    assert_eq!(calculate_duration_us(2000, 1000), 0);
}

#[test]
fn test_calculate_percentages() {
    let mut calc = FunctionStatsCalculator::new("test_function");
    for _ in 0..10 {
        calc.record_sample("test_function", 5, false);
    }
    calc.calculate_percentages(30);
    assert_eq!(calc.total_samples(), 10);
}

#[test]
fn test_duration_calculation() {
    let mut calc = FunctionStatsCalculator::new("test_function").with_sample_interval(2);
    calc.record_sample("test_function", 5, false);
    calc.record_sample("test_function", 5, false);
    assert_eq!(calc.total_time_us(), 4000);
}

#[test]
fn test_analysis_config_default() {
    let config = AnalysisConfig::default();
    assert!(config.enable_call_graph);
    assert!(config.enable_flame_graph);
    assert_eq!(config.hot_path_depth, 10);
    assert_eq!(config.min_sample_threshold, 1);
    assert_eq!(config.sample_interval_ms, 1);
}

#[test]
fn test_call_path() {
    let mut path = CallPath::new(1, strings(&["a", "b", "c"]));
    assert_eq!(path.depth, 3);
    assert_eq!(path.path_string(), "a -> b -> c");
    path.record(1000);
    path.record(2000);
    assert_eq!(path.count, 2);
    assert_eq!(path.total_time_us, 3000);
    assert_eq!(path.total_time_us as f64 / path.count as f64, 1500.0);
}

#[test]
fn merge_function_stats_adds_counts_into_first() {
    let mut a = FunctionStats::new("f");
    a.call_count = 2;
    a.total_time_us = 100;
    a.min_time_us = 10;
    a.max_time_us = 50;
    let mut b = FunctionStats::new("f");
    b.call_count = 3;
    b.total_time_us = 200;
    b.min_time_us = 5;
    b.max_time_us = 40;
    let m = merge_function_stats(&[a, b]).unwrap();
    assert_eq!(m.call_count, 5);
    assert_eq!(m.total_time_us, 300);
    assert_eq!(m.min_time_us, 5);
    assert_eq!(m.max_time_us, 50);
    assert_eq!(m.average_time_us, 60);
    assert!(merge_function_stats(&[]).is_none());
}

#[test]
fn analysis_stats_and_thread_config_defaults() {
    let s = AnalysisStats::default();
    assert_eq!(s.total_samples, 0);
    assert_eq!(s.failed_stacks, 0);
    let c = ThreadAnalyzerConfig::default();
    assert_eq!(c.max_history_size, 10000);
    assert!(c.track_call_sources);
    assert_eq!(c.hot_path_threshold, 1);
}

#[test]
fn aggregate_merges_same_function_across_threads() {
    let mut result = AnalysisResult::new(ProcessStats::new(1));
    let mut t1 = ThreadStats::new(1, 1);
    let mut f = FunctionStats::new("f");
    f.total_time_us = 10;
    f.call_count = 1;
    t1.add_function_stats(f);
    let mut t2 = ThreadStats::new(2, 1);
    let mut g = FunctionStats::new("f");
    g.total_time_us = 30;
    g.call_count = 2;
    t2.add_function_stats(g);
    result.add_thread_stats(t1);
    result.add_thread_stats(t2);
    let agg = result.aggregate_function_stats();
    assert_eq!(agg.len(), 1);
    assert_eq!(agg[0].total_time_us, 40);
    assert_eq!(agg[0].call_count, 3);
    let top = result.top_threads(1);
    assert_eq!(top.len(), 1);
}

fn thread_test_stack(thread_id: ThreadId, process_id: ProcessId, functions: Vec<(&str, &str)>) -> CollectedStack {
    let frames: Vec<ResolvedFrame> = functions
        .into_iter()
        .map(|(module, _func)| {
            ResolvedFrame::with_type(0x00401000, FrameType::User).with_module(ModuleInfo::new(0x00400000, 0x10000, module))
        })
        .collect();
    CollectedStack::new(process_id, thread_id, 1000, frames)
}

/// Frames named after their functions (`module!function`).
fn named_test_stack(thread_id: ThreadId, process_id: ProcessId, functions: Vec<(&str, &str)>) -> CollectedStack {
    let frames: Vec<ResolvedFrame> = functions
        .into_iter()
        .map(|(module, func)| {
            ResolvedFrame::with_type(0x00401000, FrameType::User)
                .with_module(ModuleInfo::new(0x00400000, 0x10000, module))
                .with_symbol(SymbolInfo::new(0x00401000, func))
        })
        .collect();
    CollectedStack::new(process_id, thread_id, 1000, frames)
}

#[test]
fn test_thread_analyzer_new() {
    let analyzer = ThreadAnalyzer::new(1, 1000);
    assert_eq!(analyzer.thread_id(), 1);
    assert_eq!(analyzer.process_id(), 1000);
    assert_eq!(analyzer.total_samples(), 0);
}

#[test]
fn test_record_stack() {
    let mut analyzer = ThreadAnalyzer::new(1, 1000);
    let stack = named_test_stack(
        1,
        1000,
        vec![("test.exe", "leaf_function"), ("test.exe", "middle_function"), ("test.exe", "root_function")],
    );
    analyzer.record_stack(&stack).unwrap();
    assert_eq!(analyzer.total_samples(), 1);
    assert_eq!(analyzer.function_stats().len(), 3);
    assert_eq!(analyzer.call_graph().nodes.len(), 3);
}

#[test]
fn test_hot_paths() {
    let mut analyzer = ThreadAnalyzer::new(1, 1000);
    for _ in 0..10 {
        let stack = thread_test_stack(
            1,
            1000,
            vec![("test.exe", "leaf_function"), ("test.exe", "middle_function"), ("test.exe", "root_function")],
        );
        analyzer.record_stack(&stack).unwrap();
    }
    let hot_paths = analyzer.get_hot_paths(10);
    assert!(!hot_paths.is_empty());
    assert_eq!(hot_paths[0].count, 10);
}

#[test]
fn test_stats_summary() {
    let mut analyzer = ThreadAnalyzer::new(1, 1000);
    let stack = named_test_stack(1, 1000, vec![("test.exe", "function_a"), ("test.exe", "function_b")]);
    analyzer.record_stack(&stack).unwrap();
    let summary = analyzer.get_stats_summary();
    assert_eq!(summary.thread_id, 1);
    assert_eq!(summary.process_id, 1000);
    assert_eq!(summary.total_samples, 1);
    assert_eq!(summary.unique_functions, 2);
}

#[test]
fn test_thread_id_mismatch() {
    let mut analyzer = ThreadAnalyzer::new(1, 1000);
    let stack = thread_test_stack(2, 1000, vec![("test.exe", "function_a")]);
    let result = analyzer.record_stack(&stack);
    assert!(result.is_err());
}

#[test]
fn test_call_node() {
    let mut node = CallNode::new("test_function").with_module("test.exe");
    node.record_call(5, true);
    assert_eq!(node.call_count, 1);
    assert_eq!(node.leaf_count, 1);
    assert_eq!(node.total_depth as f64 / node.call_count as f64, 5.0);
    node.record_call(3, false);
    assert_eq!(node.call_count, 2);
    assert_eq!(node.leaf_count, 1);
    assert_eq!(node.total_depth as f64 / node.call_count as f64, 4.0);
}

#[test]
fn thread_mismatch_message_names_both_threads() {
    let mut analyzer = ThreadAnalyzer::new(1, 1000);
    let stack = thread_test_stack(2, 1000, vec![("test.exe", "function_a")]);
    let err = analyzer.record_stack(&stack).unwrap_err();
    assert_eq!(err.to_display_string(), "Thread ID mismatch: expected 1, got 2");
    assert_eq!(analyzer.total_samples(), 0);
}

#[test]
fn callers_and_callees_are_ranked_by_count() {
    let mut analyzer = ThreadAnalyzer::new(1, 1000);
    for _ in 0..3 {
        analyzer.record_stack(&named_test_stack(1, 1000, vec![("m", "a"), ("m", "root")])).unwrap();
    }
    analyzer.record_stack(&named_test_stack(1, 1000, vec![("m", "b"), ("m", "root")])).unwrap();
    let callees = analyzer.get_callees("m!root");
    assert_eq!(callees, vec![("m!a".to_string(), 3), ("m!b".to_string(), 1)]);
    let callers = analyzer.get_callers("m!b");
    assert_eq!(callers, vec![("m!root".to_string(), 1)]);
    assert!(analyzer.get_callees("m!a").is_empty());
}

#[test]
fn exclusive_time_subtracts_callee_time() {
    let mut analyzer = ThreadAnalyzer::new(1, 1000);
    analyzer.record_stack(&named_test_stack(1, 1000, vec![("m", "leaf"), ("m", "root")])).unwrap();
    analyzer.record_stack(&named_test_stack(1, 1000, vec![("m", "root")])).unwrap();
    // root: 2 samples (2000 us), called once as a leaf; leaf: 1 sample, 1
    // call. The callee count of root -> leaf is 1, and the first function
    // called once is leaf (1000 us).
    analyzer.calculate_exclusive_time();
    let root = analyzer.get_function_stats("m!root").unwrap();
    assert_eq!(root.total_time_us, 2000);
    assert_eq!(root.self_time_us, 1000);
    assert_eq!(root.average_time_us, 2000);
    let leaf = analyzer.get_function_stats("m!leaf").unwrap();
    assert_eq!(leaf.self_time_us, 1000);
    assert_eq!(leaf.average_time_us, 1000);
}

#[test]
fn hot_paths_group_by_prefix_and_honour_threshold() {
    let config = ThreadAnalyzerConfig { max_history_size: 100, track_call_sources: true, hot_path_threshold: 2 };
    let mut analyzer = ThreadAnalyzer::with_config(1, 1000, config);
    analyzer.record_stack(&named_test_stack(1, 1000, vec![("m", "a"), ("m", "x")])).unwrap();
    analyzer.record_stack(&named_test_stack(1, 1000, vec![("m", "a"), ("m", "y")])).unwrap();
    analyzer.record_stack(&named_test_stack(1, 1000, vec![("m", "b"), ("m", "z")])).unwrap();
    let paths = analyzer.get_hot_paths(1);
    assert_eq!(paths.len(), 1);
    assert_eq!(paths[0].functions, strings(&["m!a"]));
    assert_eq!(paths[0].count, 2);
    assert_eq!(paths[0].total_time_us, 2000);
    assert_eq!(paths[0].depth, 1);
    assert_eq!(paths[0].id, 0);
    let full = analyzer.get_hot_paths(5);
    assert!(full.is_empty());
}

#[test]
fn stats_summary_reports_depths_and_hottest() {
    let mut analyzer = ThreadAnalyzer::new(1, 1000);
    analyzer.record_stack(&named_test_stack(1, 1000, vec![("m", "a"), ("m", "b"), ("m", "c")])).unwrap();
    analyzer.record_stack(&named_test_stack(1, 1000, vec![("m", "c")])).unwrap();
    let summary = analyzer.get_stats_summary();
    assert_eq!(summary.total_call_depth, 4);
    assert_eq!(summary.stack_count, 2);
    assert_eq!(summary.max_call_depth, 3);
    assert_eq!(summary.hottest_function, Some("m!c".to_string()));
    assert_eq!(summary.total_time_us, 2000);
    let empty = ThreadAnalyzer::new(3, 4).get_stats_summary();
    assert_eq!(empty.hottest_function, None);
    assert_eq!(empty.max_call_depth, 0);
}

#[test]
fn profiler_keeps_only_target_samples() {
    assert!(is_target_sample(&None, 5));
    assert!(is_target_sample(&Some(TargetProcess::Pid(5)), 5));
    assert!(!is_target_sample(&Some(TargetProcess::Pid(5)), 6));
    assert!(is_target_sample(&Some(TargetProcess::Path("app.exe".to_string())), 6));
}

#[test]
fn profiler_collection_stops_on_duration_or_request() {
    assert!(!collection_should_stop(None, 1_000_000, false));
    assert!(collection_should_stop(None, 0, true));
    assert!(!collection_should_stop(Some(10), 9, false));
    assert!(collection_should_stop(Some(10), 10, false));
    assert_eq!(new_samples(7, 3), (4, 7));
    assert_eq!(new_samples(3, 3), (0, 3));
}

#[test]
fn profiler_progress_and_result() {
    let mut session = ProfilerSession::new();
    session.mark_running(Some(42));
    session.increment_samples(3);
    let progress = progress_of(&session.stats());
    assert_eq!(progress.samples_collected, 3);
    assert_eq!(progress.status, "Running (PID: 42)");
    let mut aggregator = StatsAggregator::new(AggregatorConfig::default());
    aggregator.process_stack(&aggregator_test_stack(1, 1000)).unwrap();
    let result = result_from(&aggregator, Some(42), 100, 50);
    assert_eq!(result.process_stats.process_id, 42);
    assert_eq!(result.total_samples, 1);
    assert_eq!(result.thread_stats.len(), 1);
    assert_eq!(result.analysis_start_time, 100);
    assert_eq!(result.analysis_end_time, 150);
    assert_eq!(result_from(&aggregator, None, u64::MAX, 5).analysis_end_time, u64::MAX);
}

#[test]
fn call_counts_add_up_to_thread_samples() {
    let config = AggregatorConfig::default();
    let iu = config.sample_interval_ms as u64 * 1000;
    let mut aggregator = StatsAggregator::new(config);
    let stacks = vec![
        named_test_stack(1, 1000, vec![("a.exe", "leaf"), ("a.exe", "mid"), ("a.exe", "root")]),
        named_test_stack(1, 1000, vec![("a.exe", "mid"), ("a.exe", "root")]),
        named_test_stack(2, 1000, vec![("a.exe", "leaf"), ("a.exe", "root")]),
        named_test_stack(1, 1000, vec![("a.exe", "leaf"), ("a.exe", "root")]),
    ];
    aggregator.process_stacks(&stacks).unwrap();
    let mut total = 0;
    for ts in aggregator.get_all_thread_stats().iter() {
        let calls: u64 = ts.function_stats.iter().map(|f| f.call_count).sum();
        assert_eq!(calls, ts.total_samples);
        for f in ts.function_stats.iter() {
            assert_eq!(f.self_time_us, f.call_count * iu);
            assert!(f.self_time_us <= f.total_time_us);
        }
        total += ts.total_samples;
    }
    assert_eq!(total, aggregator.total_samples());
    assert_eq!(total, 4);
}

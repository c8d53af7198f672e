use etw_profiler::stackwalker::collector::{collect_from_sample, collect_with_context, resolved_frames, CollectedStack, FrameType, ResolvedFrame};
use etw_profiler::stackwalker::filter::{
    apply_filter, CompositeFilter, DepthFilter, FilterChainBuilder, ProcessFilter, StackFilter, SystemModuleFilter,
};
use etw_profiler::stackwalker::manager::StackManagerConfig;
use etw_profiler::stackwalker::resolver::{
    create_module_offset_frame, create_unknown_frame, format_frame, merge_resolved, FrameFormatOptions, ResolveCache,
    ResolveStats,
};
use etw_profiler::stackwalker::unwinder::{parse_pdata_section, EtwStackUnwinder, ProcessMemory, UnwindContext, UnwindOp, UnwindOptions};
use etw_profiler::stackwalker::{classify_address, is_kernel_address, is_system_module, is_user_address, AddressType, StackWalkContext};
use etw_profiler::etw::SampledProfileEvent;
use etw_profiler::types::{CallStack, ModuleInfo, StackFrame, SymbolInfo};

fn filter_test_stack() -> CollectedStack {
    let frames = vec![
        ResolvedFrame {
            address: 0x00401000,
            symbol: Some(SymbolInfo {
                address: 0x00401000,
                name: "main".to_string(),
                module: Some("test.exe".to_string()),
                source_file: None,
                line_number: None,
            }),
            module: Some(ModuleInfo::new(0x00400000, 0x10000, "test.exe")),
            frame_type: FrameType::User,
        },
        ResolvedFrame {
            address: 0x7FF812345678,
            symbol: Some(SymbolInfo {
                address: 0x7FF812345678,
                name: "CreateFileW".to_string(),
                module: Some("kernel32.dll".to_string()),
                source_file: None,
                line_number: None,
            }),
            module: Some(ModuleInfo::new(0x7FF812300000, 0x100000, "kernel32.dll")),
            frame_type: FrameType::User,
        },
    ];
    CollectedStack::new(1234, 5678, 1000, frames)
}

#[test]
fn test_collected_stack_creation() {
    let frames = vec![ResolvedFrame::with_type(0x00401000, FrameType::User), ResolvedFrame::with_type(0x00402000, FrameType::User)];
    let stack = CollectedStack::new(1234, 5678, 1000, frames);
    assert_eq!(stack.process_id, 1234);
    assert_eq!(stack.thread_id, 5678);
    assert_eq!(stack.timestamp, 1000);
    assert_eq!(stack.total_depth(), 2);
    assert_eq!(stack.user_stack_depth, 2);
    assert!(!stack.is_kernel_stack);
}

#[test]
fn test_resolved_frame_display() {
    let frame = ResolvedFrame::new(0x00401000);
    assert_eq!(frame.display_name(), "0x0000000000401000");
    let frame = ResolvedFrame::new(0x00401000).with_module(ModuleInfo::new(0x00400000, 0x10000, "test.dll"));
    assert!(frame.display_name().contains("test.dll"));
}

#[test]
fn test_frame_type() {
    assert!(FrameType::User.is_user());
    assert!(!FrameType::User.is_kernel());
    assert!(FrameType::Kernel.is_kernel());
    assert_eq!(FrameType::User.display_name(), "USER");
    assert_eq!(FrameType::Kernel.display_name(), "KERNEL");
}

#[test]
fn test_system_module_filter() {
    let filter = SystemModuleFilter::new();
    let stack = filter_test_stack();
    assert!(filter.should_include(&stack));
    assert!(filter.should_include_frame(&stack.frames[0]));
    assert!(!filter.should_include_frame(&stack.frames[1]));
}

#[test]
fn test_depth_filter() {
    let filter = DepthFilter::new(10);
    let stack = filter_test_stack();
    assert!(filter.should_include(&stack));
    let deep_filter = DepthFilter::new(1).filter_mode();
    assert!(!deep_filter.should_include(&stack));
}

#[test]
fn test_process_filter() {
    let filter = ProcessFilter::whitelist(vec![1234]);
    let stack = filter_test_stack();
    assert!(filter.should_include(&stack));
    let filter2 = ProcessFilter::blacklist(vec![1234]);
    assert!(!filter2.should_include(&stack));
}

#[test]
fn test_composite_filter() {
    let filter1: Box<dyn StackFilter> = Box::new(SystemModuleFilter::new());
    let filter2: Box<dyn StackFilter> = Box::new(DepthFilter::new(10));
    let composite = CompositeFilter::new(vec![filter1, filter2]);
    let stack = filter_test_stack();
    assert!(composite.should_include(&stack));
}

#[test]
fn test_filter_chain_builder() {
    let filter = FilterChainBuilder::new().exclude_system_modules().max_depth(64).build();
    let stack = filter_test_stack();
    assert!(filter.should_include(&stack));
}

#[test]
fn test_apply_filter() {
    let filter = SystemModuleFilter::new();
    let stack = filter_test_stack();
    let result = apply_filter(&stack, &filter);
    assert!(result.is_some());
    let filtered = result.unwrap();
    assert_eq!(filtered.frames.len(), 1);
}

#[test]
fn test_stack_manager_config_default() {
    let config = StackManagerConfig::default();
    assert_eq!(config.max_stack_depth, 64);
    assert!(config.enable_kernel_stack);
    assert!(!config.skip_system_modules);
}

#[test]
fn test_stack_manager_config_builder() {
    let config = StackManagerConfig::new().with_max_depth(128).with_kernel_stack(false).with_skip_system_modules(true);
    assert_eq!(config.max_stack_depth, 128);
    assert!(!config.enable_kernel_stack);
    assert!(config.skip_system_modules);
}

#[test]
fn test_address_classification() {
    assert!(is_kernel_address(0xFFFF000000000000));
    assert!(is_kernel_address(0xFFFFF80000000000));
    assert!(is_user_address(0x00007FF123456789));
    assert!(is_user_address(0x0000000000401000));
    assert_eq!(classify_address(0xFFFF000000000000), AddressType::Kernel);
    assert_eq!(classify_address(0x00007FF123456789), AddressType::User);
}

#[test]
fn test_system_module_detection() {
    assert!(is_system_module("ntdll.dll"));
    assert!(is_system_module("NTDLL.DLL"));
    assert!(is_system_module("C:\\Windows\\System32\\kernel32.dll"));
    assert!(!is_system_module("myapp.exe"));
    assert!(!is_system_module("user.dll"));
}

#[test]
fn test_stack_walk_context() {
    let ctx = StackWalkContext::new(1234, 5678, "test operation");
    assert_eq!(ctx.process_id, 1234);
    assert_eq!(ctx.thread_id, 5678);
    assert_eq!(ctx.operation, "test operation");
}

#[test]
fn test_create_unknown_frame() {
    let frame = create_unknown_frame(0x00401000);
    assert_eq!(frame.address, 0x00401000);
    assert_eq!(frame.function_name, Some("???".to_string()));
}

#[test]
fn test_create_module_offset_frame() {
    let frame = create_module_offset_frame(0x00401050, "test.dll", 0x00400000);
    assert_eq!(frame.address, 0x00401050);
    assert_eq!(frame.module_name, Some("test.dll".to_string()));
    assert_eq!(frame.offset, Some(0x1050));
}

#[test]
fn test_format_frame() {
    let frame = StackFrame::with_symbol(0x00401000, "test.dll", "TestFunction");
    let formatted = format_frame(&frame, FrameFormatOptions::default());
    assert!(formatted.contains("test.dll!TestFunction"));
    assert!(formatted.contains("0x00401000"));
}

#[test]
fn test_resolve_stats_default() {
    let stats = ResolveStats::default();
    assert_eq!(stats.total_requests, 0);
    assert_eq!(stats.cache_hits, 0);
    assert_eq!(stats.resolved, 0);
}

#[test]
fn test_etw_stack_unwinder_creation() {
    let unwinder = EtwStackUnwinder::new();
    assert_eq!(unwinder.get_max_depth(), 64);
    assert!(unwinder.is_kernel_stack_enabled());
}

#[test]
fn test_etw_stack_unwinder_config() {
    let unwinder = EtwStackUnwinder::with_config(128, false);
    assert_eq!(unwinder.get_max_depth(), 128);
    assert!(!unwinder.is_kernel_stack_enabled());
}

#[test]
fn test_unwind_options_default() {
    let opts = UnwindOptions::default();
    assert_eq!(opts.max_depth, 64);
    assert!(opts.include_kernel);
    assert!(!opts.use_frame_pointers);
    assert!(!opts.stop_at_system_modules);
}

#[test]
fn unwind_event_counts_frames() {
    let mut u = EtwStackUnwinder::new();
    let e = SampledProfileEvent::new(1, 2, 3, 0xFFFF_8000_0000_0000).kernel_mode();
    let a = u.unwind_from_event_impl(&e).unwrap();
    assert_eq!(a, vec![0xFFFF_8000_0000_0000]);
    let c = u.counts();
    assert_eq!(c.success_count, 1);
    assert_eq!(c.total_frames, 1);
    assert_eq!(c.kernel_frames, 1);
    u.set_enable_kernel_stack(false);
    u.unwind_from_event_impl(&e).unwrap();
    assert_eq!(u.counts().total_frames, 1);
    u.set_max_depth(0);
    u.set_enable_kernel_stack(true);
    assert!(u.unwind_from_event_impl(&SampledProfileEvent::new(1, 2, 3, 0x1000)).unwrap().is_empty());
    assert_eq!(UnwindOp::PushMachframe.code(), 8);
    assert!(parse_pdata_section(0x400000).unwrap().is_empty());
}

#[test]
fn format_frame_shows_offset_and_source() {
    let mut frame = create_module_offset_frame(0x1010, "m.dll", 0x1000);
    frame.function_name = None;
    frame.file_name = Some("a.c".to_string());
    frame.line_number = Some(7);
    let opts = FrameFormatOptions { show_module: true, show_source: true, show_address: false, show_offset: true };
    assert_eq!(format_frame(&frame, opts), "m.dll+0x10 [a.c:7]");
}

#[test]
fn truncation_recomputes_kernel_flag() {
    let frames = vec![
        ResolvedFrame::with_type(0xFFFF_F800_0000_1000, FrameType::Kernel),
        ResolvedFrame::with_type(0x0040_1000, FrameType::User),
    ];
    let mut stack = CollectedStack::new(1, 2, 3, frames);
    assert!(!stack.is_kernel_stack);
    DepthFilter::new(1).truncate(&mut stack);
    assert_eq!(stack.frames.len(), 1);
    assert_eq!(stack.kernel_stack_depth, 1);
    assert_eq!(stack.user_stack_depth, 0);
    assert!(stack.is_kernel_stack);
}

#[test]
fn chain_builder_appends_each_filter() {
    let filter = FilterChainBuilder::new()
        .exclude_system_modules()
        .max_depth(4)
        .include_processes(vec![1234])
        .exclude_processes(vec![99])
        .build();
    assert_eq!(
        filter.description(),
        "Combines filters [SystemModuleFilter, DepthFilter, ProcessWhitelistFilter, ProcessBlacklistFilter] with AND"
    );
    let stack = filter_test_stack();
    assert!(filter.should_include(&stack));
    let other = FilterChainBuilder::new().include_processes(vec![1]).build();
    assert!(!other.should_include(&stack));
}

fn walk_memory() -> ProcessMemory {
    ProcessMemory::from_words(vec![
        (0x1008, 0x0040_1234),
        (0x1000, 0x1100),
        (0x1108, 0x0040_2000),
        (0x1100, 0),
    ])
}

#[test]
fn context_unwind_follows_frame_pointers() {
    let mut u = EtwStackUnwinder::new();
    let ctx = UnwindContext { rip: 0x0040_0000, rsp: 0x0F00, rbp: 0x1000 };
    let a = u.unwind_from_context_impl(&ctx, 7, &walk_memory()).unwrap();
    assert_eq!(a, vec![0x0040_0000, 0x0040_1234, 0x0040_2000]);
    assert_eq!(u.counts().success_count, 1);
    assert_eq!(u.counts().total_frames, 3);

    let mut short = EtwStackUnwinder::with_config(2, true);
    assert_eq!(short.unwind_from_context_impl(&ctx, 7, &walk_memory()).unwrap(), vec![0x0040_0000, 0x0040_1234]);

    let far = UnwindContext { rip: 0x0040_0000, rsp: 0x0F00, rbp: 0x0F00 + 0x10001 };
    assert_eq!(u.unwind_from_context_impl(&far, 7, &walk_memory()).unwrap(), vec![0x0040_0000]);

    let mut no_kernel = EtwStackUnwinder::with_config(64, false);
    let kctx = UnwindContext { rip: 0xFFFF_F800_0000_1000, rsp: 0x0F00, rbp: 0x1000 };
    assert_eq!(no_kernel.unwind_from_context_impl(&kctx, 7, &walk_memory()).unwrap(), vec![0xFFFF_F800_0000_1000]);
    assert_eq!(no_kernel.counts().total_frames, 0);

    let empty = UnwindContext { rip: 0, rsp: 0x0F00, rbp: 0x1000 };
    assert!(u.unwind_from_context_impl(&empty, 7, &ProcessMemory::empty()).unwrap().is_empty());
}

#[test]
fn collected_stacks_from_resolved_frames() {
    let mut stack = CallStack::new();
    stack.push(StackFrame::with_symbol(0x10, "app.exe", "main"));
    stack.push(StackFrame::new(0x20));
    let frames = resolved_frames(&[0xFFFF_F800_0000_0001], &stack);
    assert_eq!(frames.len(), 2);
    assert_eq!(frames[0].address, 0xFFFF_F800_0000_0001);
    assert_eq!(frames[0].frame_type, FrameType::Kernel);
    assert_eq!(frames[0].symbol.as_ref().unwrap().name, "main");
    assert_eq!(frames[0].module.as_ref().unwrap().name, "app.exe");
    assert_eq!(frames[1].address, 0x20);
    assert_eq!(frames[1].frame_type, FrameType::User);
    assert!(frames[1].symbol.is_none());

    let sample = SampledProfileEvent::new(5, 1, 2, 0x10);
    let err = collect_from_sample(&sample, &[], &stack).unwrap_err();
    assert_eq!(err.to_display_string(), "Stack unwinding returned no addresses");
    let err = collect_with_context(1, 2, 5, &[], &stack).unwrap_err();
    assert_eq!(err.to_display_string(), "Stack unwinding from context returned no addresses");
    let c = collect_from_sample(&sample, &[0x10, 0x20], &stack).unwrap();
    assert_eq!(c.process_id, 1);
    assert_eq!(c.frames.len(), 2);
    assert_eq!(c.user_stack_depth, 2);
}

#[test]
fn resolve_cache_plans_absorbs_and_merges() {
    let mut cache = ResolveCache::new(2);
    let (hits, misses) = cache.plan(&[0x1, 0x2, 0x1], 9);
    assert!(hits.iter().all(|h| h.is_none()));
    assert_eq!(misses, vec![0x1, 0x2, 0x1]);
    let frames = vec![create_unknown_frame(0x1), create_unknown_frame(0x2)];
    cache.absorb(9, &[0x1, 0x2], &frames);
    let (hits, misses) = cache.plan(&[0x2, 0x3, 0x1], 9);
    assert_eq!(hits[0].as_ref().unwrap().address, 0x2);
    assert!(hits[1].is_none());
    assert_eq!(hits[2].as_ref().unwrap().address, 0x1);
    assert_eq!(misses, vec![0x3]);
    assert!(cache.cached(8, 0x1).is_none());
    let new_frames = vec![create_unknown_frame(0x3)];
    let merged = merge_resolved(&hits, &new_frames);
    let addrs: Vec<u64> = merged.iter().map(|f| f.address).collect();
    assert_eq!(addrs, vec![0x2, 0x3, 0x1]);
    // the table holds the limit, so it is emptied before the new frame goes in
    cache.absorb(9, &misses, &new_frames);
    assert!(cache.cached(9, 0x1).is_none());
    assert_eq!(cache.cached(9, 0x3).unwrap().address, 0x3);
}

use etw_profiler::etw::controller::{ControllerConfig, EtwController, SessionInfo};
use etw_profiler::etw::processor::{
    convert_timestamp, decode_kernel_event, is_kernel_provider, ContextTracker, EventProcessor, ModuleInfo, ProcessContext,
    ProcessedEvent, ThreadContext,
};
use etw_profiler::etw::provider::{kernel_provider_guid, sampled_profile_guid, Guid, KernelProviderFlags, ProviderConfig};
use etw_profiler::etw::session::{trace_properties_block, trace_properties_layout, wide_nul, PROPERTIES_BASE_SIZE, EtwSession, SessionConfig, SessionMode, StartOutcome, StopPlan};
use etw_profiler::etw::{is_valid_session_name, safe_utf16_to_string, SampledProfileEvent};
use etw_profiler::config::ProfilerConfig;

fn flags(bits: u32) -> KernelProviderFlags {
    KernelProviderFlags::from_raw(bits)
}

#[test]
fn test_session_name_validation() {
    assert!(is_valid_session_name("MySession"));
    assert!(is_valid_session_name("Session_123"));
    assert!(!is_valid_session_name(""));
    assert!(!is_valid_session_name("Session\0Null"));
    assert!(!is_valid_session_name("Session\\Backslash"));
    assert!(!is_valid_session_name("Session/Slash"));
}

#[test]
fn test_sampled_profile_event() {
    let event = SampledProfileEvent::new(1000, 1234, 5678, 0x00401000).kernel_mode().with_processor_core(2).with_priority(8);
    assert_eq!(event.timestamp, 1000);
    assert_eq!(event.process_id, 1234);
    assert_eq!(event.thread_id, 5678);
    assert_eq!(event.instruction_pointer, 0x00401000);
    assert!(!event.user_mode);
    assert_eq!(event.processor_core, Some(2));
    assert_eq!(event.priority, Some(8));
    let sample = event.to_sample_event();
    assert_eq!(sample.timestamp, 1000);
    assert_eq!(sample.process_id, 1234);
}

#[test]
fn test_safe_utf16_conversion() {
    let utf16: Vec<u16> = vec![0x0048, 0x0065, 0x006C, 0x006C, 0x006F, 0x0000];
    assert_eq!(safe_utf16_to_string(&utf16), "Hello");
    let utf16_no_null: Vec<u16> = vec![0x0057, 0x006F, 0x0072, 0x006C, 0x0064];
    assert_eq!(safe_utf16_to_string(&utf16_no_null), "World");
}

#[test]
fn test_context_tracker() {
    let mut tracker = ContextTracker::new();
    let process = ProcessContext::new(1234, "test.exe", 1000);
    tracker.add_process(process);
    assert_eq!(tracker.process_count(), 1);
    let thread = ThreadContext::new(5678, 1234, 1000);
    tracker.add_thread(thread);
    assert_eq!(tracker.thread_count(), 1);
    let module = ModuleInfo::new(0x00400000, 0x10000, "test.exe");
    tracker.add_module(1234, module);
    assert_eq!(tracker.module_count(Some(1234)), 1);
    assert!(tracker.get_module_for_address(1234, 0x00401000).is_some());
    assert!(tracker.get_module_for_address(1234, 0x00500000).is_none());
    tracker.remove_process(1234, 2000);
    assert!(!tracker.get_process(1234).unwrap().is_alive);
}

#[test]
fn test_event_processor() {
    let processor = EventProcessor::new();
    assert_eq!(processor.sample_count(), 0);
    assert_eq!(processor.raw_event_count(), 0);
}

#[test]
fn test_module_contains_address() {
    let module = ModuleInfo::new(0x00400000, 0x10000, "test.exe");
    assert!(module.contains_address(0x00400000));
    assert!(module.contains_address(0x0040FFFF));
    assert!(!module.contains_address(0x003FFFFF));
    assert!(!module.contains_address(0x00500000));
}

#[test]
fn test_timestamp_conversion() {
    // 100 ns units since 1601 for 2024-01-12 00:00:00 UTC; the conversion
    // subtracts the 1601-1970 offset and divides by ten.
    let windows_timestamp: u64 = 133_494_912_000_000_000;
    assert_eq!(convert_timestamp(windows_timestamp), 1_705_017_600_000_000);
}

#[test]
fn timestamp_conversion_to_unix_micros() {
    let windows_timestamp: u64 = 133_485_408_000_000_000;
    assert_eq!(convert_timestamp(windows_timestamp), 1_704_067_200_000_000);
    assert_eq!(convert_timestamp(1234), 1234);
}

#[test]
fn test_processed_event_variants() {
    let sample = SampledProfileEvent::new(1000, 1234, 5678, 0x00401000);
    let event = ProcessedEvent::Sample(sample.clone());
    match event {
        ProcessedEvent::Sample(e) => {
            assert_eq!(e.timestamp, 1000);
            assert_eq!(e.process_id, 1234);
        }
        _ => panic!("Expected Sample event"),
    }
}

#[test]
fn test_kernel_provider_flags() {
    let f = flags(KernelProviderFlags::PROFILE) | flags(KernelProviderFlags::PROC_THREAD);
    assert!(f.contains(flags(KernelProviderFlags::PROFILE)));
    assert!(f.contains(flags(KernelProviderFlags::PROC_THREAD)));
    assert!(!f.contains(flags(KernelProviderFlags::DISK_IO)));
    let raw = f.to_raw();
    let parsed = KernelProviderFlags::from_raw(raw);
    assert_eq!(f.bits(), parsed.bits());
}

#[test]
fn test_kernel_provider_flags_profiling() {
    let f = KernelProviderFlags::profiling();
    assert!(f.contains(flags(KernelProviderFlags::PROFILE)));
    assert!(f.contains(flags(KernelProviderFlags::PROC_THREAD)));
    assert!(f.contains(flags(KernelProviderFlags::IMAGE_LOAD)));
}

#[test]
fn test_kernel_provider_flags_io_analysis() {
    let f = KernelProviderFlags::io_analysis();
    assert!(f.contains(flags(KernelProviderFlags::DISK_IO)));
    assert!(f.contains(flags(KernelProviderFlags::FILE_IO)));
    assert!(f.contains(flags(KernelProviderFlags::NETWORK_TCPIP)));
}

#[test]
fn test_kernel_provider_description() {
    let f = flags(KernelProviderFlags::PROFILE) | flags(KernelProviderFlags::PROC_THREAD);
    let desc = f.description();
    assert!(desc.contains(&"Sampling Profile"));
    assert!(desc.contains(&"Process/Thread"));
}

#[test]
fn test_provider_config() {
    let config = ProviderConfig::kernel(flags(KernelProviderFlags::PROFILE)).with_level(5).with_timeout(1000);
    assert_eq!(config.guid, kernel_provider_guid());
    assert!(config.enable_flags & KernelProviderFlags::PROFILE != 0);
    assert_eq!(config.level, 5);
    assert_eq!(config.timeout_ms, 1000);
    assert!(config.validate().is_ok());
}

#[test]
fn test_provider_config_validation() {
    let zero_guid = Guid::from_values(0, 0, 0, [0; 8]);
    let config = ProviderConfig::new(zero_guid);
    assert!(config.validate().is_err());
}

#[test]
fn test_kernel_provider_display() {
    let f = flags(KernelProviderFlags::PROFILE);
    let display = f.to_display_string();
    assert!(display.contains("Sampling Profile"));
    let empty = KernelProviderFlags::empty();
    assert_eq!(empty.to_display_string(), "None");
}

#[test]
fn test_session_mode() {
    assert!(SessionMode::RealTime.is_realtime());
    assert!(!SessionMode::RealTime.is_file());
    assert!(!SessionMode::File.is_realtime());
    assert!(SessionMode::File.is_file());
    assert!(SessionMode::Hybrid.is_realtime());
    assert!(SessionMode::Hybrid.is_file());
}

#[test]
fn test_session_config_builder() {
    let config = SessionConfig::default()
        .with_file_path("test.etl")
        .with_buffer_size(128)
        .with_buffers(4, 16)
        .with_process_filter(&[1234, 5678]);
    assert!(config.log_file_path.is_some());
    assert_eq!(config.buffer_size_kb, 128);
    assert_eq!(config.min_buffers, 4);
    assert_eq!(config.max_buffers, 16);
    assert_eq!(config.process_filter, vec![1234, 5678]);
}

#[test]
fn test_controller_config() {
    let config = ProfilerConfig::default();
    let ctrl_config = ControllerConfig::from_profiler_config(&config);
    assert_eq!(ctrl_config.base_session_name, "EtwProfilerSession");
    assert!(ctrl_config.auto_enable_kernel_provider);
    assert_eq!(ctrl_config.max_concurrent_sessions, 4);
}

#[test]
fn test_controller_config_builder() {
    let config = ControllerConfig::default()
        .with_max_sessions(8)
        .with_auto_enable_kernel(false)
        .with_kernel_flags(flags(KernelProviderFlags::PROFILE));
    assert_eq!(config.max_concurrent_sessions, 8);
    assert!(!config.auto_enable_kernel_provider);
    assert!(config.default_kernel_flags.contains(flags(KernelProviderFlags::PROFILE)));
}

#[test]
fn test_session_info() {
    let info = SessionInfo {
        name: String::from("TestSession"),
        id: 1,
        mode: SessionMode::RealTime,
        is_running: true,
        provider_count: 2,
        process_filter: vec![1234],
    };
    assert_eq!(info.name, "TestSession");
    assert!(info.is_running);
    assert_eq!(info.provider_count, 2);
}

fn le32(v: u32) -> [u8; 4] {
    v.to_le_bytes()
}

#[test]
fn decode_sample_reads_instruction_pointer() {
    let mut data = Vec::new();
    data.extend_from_slice(&0x0000_7FF0_1234_5678u64.to_le_bytes());
    let e = decode_kernel_event(46, &data, 5, 1, 2).unwrap();
    match e {
        ProcessedEvent::Sample(s) => {
            assert_eq!(s.instruction_pointer, 0x0000_7FF0_1234_5678);
            assert!(s.user_mode);
            assert_eq!(s.process_id, 1);
            assert_eq!(s.thread_id, 2);
        }
        _ => panic!("expected a sample"),
    }
    assert!(decode_kernel_event(46, &[1, 2, 3], 5, 1, 2).is_none());
    assert!(decode_kernel_event(99, &data, 5, 1, 2).is_none());
}

#[test]
fn decode_image_load_reads_path_and_name() {
    let mut data = Vec::new();
    data.extend_from_slice(&0x40_0000u64.to_le_bytes());
    data.extend_from_slice(&0x1000u64.to_le_bytes());
    data.extend_from_slice(&le32(77));
    data.extend_from_slice(&[0, 0, 0, 0]);
    for u in "C:\\dir\\app.dll".encode_utf16() {
        data.extend_from_slice(&u.to_le_bytes());
    }
    data.extend_from_slice(&[0, 0]);
    match decode_kernel_event(10, &data, 9, 0, 0).unwrap() {
        ProcessedEvent::ImageLoad(pid, m) => {
            assert_eq!(pid, 77);
            assert_eq!(m.base_address, 0x40_0000);
            assert_eq!(m.size, 0x1000);
            assert_eq!(m.path, Some("C:\\dir\\app.dll".to_string()));
            assert_eq!(m.name, "app.dll");
        }
        _ => panic!("expected an image load"),
    }
}

#[test]
fn processor_tracks_process_start_and_counts() {
    let mut p = EventProcessor::new();
    let mut data = Vec::new();
    data.extend_from_slice(&le32(42));
    data.extend_from_slice(&le32(1));
    let g = kernel_provider_guid();
    let e = p.process_event(&g, 1, &data, 0, 0, 0).unwrap();
    assert!(matches!(e, ProcessedEvent::ProcessStart(_)));
    assert_eq!(p.raw_event_count(), 1);
    assert_eq!(p.sample_count(), 0);
    assert!(p.context_tracker().get_process(42).is_some());
    let other = Guid::from_values(1, 2, 3, [0; 8]);
    assert!(matches!(p.process_event(&other, 1, &data, 0, 0, 0), Some(ProcessedEvent::Raw)));
    assert!(is_kernel_provider(&sampled_profile_guid()));
    assert!(!is_kernel_provider(&other));
    p.reset_counters();
    assert_eq!(p.raw_event_count(), 0);
}

#[test]
fn layout_places_names_after_fixed_part() {
    let c = SessionConfig::default().with_file_path("x.etl");
    let l = trace_properties_layout(&c, 120, 10, 6);
    assert_eq!(l.total_size, 120 + 20 + 12);
    assert_eq!(l.logger_name_offset, 120);
    assert_eq!(l.log_file_name_offset, 140);
    assert_eq!(l.log_file_mode, 0x0000_0001 | 0x0200_0000);
}

#[test]
fn test_invalid_session_name() {
    let config = ProfilerConfig::default();
    let mut session_config = SessionConfig::from_profiler_config(&config);
    session_config.name = String::from("Test\0Null");
    let result = EtwSession::with_config(session_config);
    assert!(result.is_err());
}

#[test]
fn test_controller_creation() {
    let config = ProfilerConfig::default();
    let controller = EtwController::new(&config);
    assert!(controller.is_ok());
    let ctrl = controller.unwrap();
    assert!(!ctrl.is_running());
    assert!(!ctrl.is_shutdown());
    assert_eq!(ctrl.active_session_count(), 0);
}

#[test]
fn file_session_needs_a_path() {
    let mut config = SessionConfig::default();
    config.mode = SessionMode::File;
    let err = EtwSession::with_config(config).err().unwrap();
    assert_eq!(err.to_display_string(), "ETW error: File mode requires log file path");
}

#[test]
fn session_start_outcomes_follow_the_system_code() {
    let mut session = EtwSession::with_config(SessionConfig::default()).unwrap();
    assert!(session.begin_start().is_ok());
    assert_eq!(session.finish_start(183, 0, Vec::new()).unwrap(), StartOutcome::Restart);
    assert!(!session.is_running());
    let err = session.finish_start(5, 0, Vec::new()).err().unwrap();
    assert_eq!(
        err.to_display_string(),
        "ETW error: Access denied. ETW profiling requires administrator privileges. Please run as administrator."
    );
    let err = session.finish_start(1450, 0, Vec::new()).err().unwrap();
    assert_eq!(err.to_display_string(), "ETW error: Failed to start ETW session: WIN32_ERROR(1450)");
    assert_eq!(session.check_can_enable().err().unwrap().to_display_string(),
        "ETW error: Session must be started before enabling providers");
    assert_eq!(session.finish_start(0, 42, vec![1, 2]).unwrap(), StartOutcome::Started);
    assert!(session.is_running());
    assert_eq!(session.session_handle(), 42);
    assert!(session.begin_start().is_err());
    assert!(session.check_can_enable().is_ok());
    assert!(session.finish_enable_kernel(0).is_ok());
    assert_eq!(session.enabled_providers().len(), 1);
    assert_eq!(session.enabled_providers()[0], kernel_provider_guid());
    assert_eq!(session.finish_enable_kernel(5).err().unwrap().to_display_string(),
        "ETW error: Failed to enable kernel provider: WIN32_ERROR(5)");
    assert_eq!(session.stop_plan(), StopPlan::ControlAndForget);
    session.finish_stop();
    assert!(!session.is_running());
    assert!(session.enabled_providers().is_empty());
    assert_eq!(session.stop_plan(), StopPlan::Nothing);
}

#[test]
fn session_names_are_wide_with_a_terminator() {
    assert_eq!(wide_nul("Ab"), vec![0x41, 0x62, 0]);
    assert_eq!(wide_nul("\u{1F600}"), vec![0xD83D, 0xDE00, 0]);
    let s = EtwSession::with_config(SessionConfig::default()).unwrap();
    let expected: Vec<u16> = "EtwProfilerSession".encode_utf16().chain(Some(0)).collect();
    assert_eq!(s.name_wide(), &expected);
}

#[test]
fn controller_limits_and_keeps_sessions() {
    let config = ControllerConfig::default().with_max_sessions(1);
    let mut ctrl = EtwController::with_config(config).unwrap();
    let (key, session) = ctrl.prepare_realtime_session("A").unwrap();
    assert_eq!(key, "EtwController_A");
    assert_eq!(session.config().buffer_size_kb, 64);
    ctrl.register_session(key, session);
    assert_eq!(ctrl.active_session_count(), 1);
    let err = ctrl.prepare_file_session("B", "out.etl").err().unwrap();
    assert_eq!(err.to_display_string(), "ETW error: Maximum number of sessions (1) reached");
    let (hkey, hybrid) = ctrl.prepare_hybrid_session("H", "h.etl").unwrap();
    assert_eq!(hybrid.config().mode, SessionMode::Hybrid);
    assert_eq!(hybrid.config().log_file_path, Some("h.etl".to_string()));
    ctrl.register_session(hkey, hybrid);
    assert!(ctrl.set_global_process_filter(&[7, 8]).is_ok());
    let infos = ctrl.list_sessions();
    assert_eq!(infos.len(), 2);
    assert_eq!(infos[0].name, "EtwController_A");
    assert_eq!(infos[1].process_filter, vec![7, 8]);
    assert!(ctrl.get_session("EtwController_H").is_some());
    let (name, _) = ctrl.take_session("A").unwrap();
    assert_eq!(name, "EtwController_A");
    assert!(ctrl.take_session("A").is_none());
    let rest = ctrl.take_all_sessions();
    assert_eq!(rest.len(), 1);
    ctrl.mark_shutdown();
    assert!(ctrl.is_shutdown());
    assert_eq!(ctrl.prepare_realtime_session("C").err().unwrap().to_display_string(),
        "ETW error: Controller is shutdown");
}

#[test]
fn layout_mode_bits_by_session_kind() {
    let mut c = SessionConfig::default();
    c.enable_stack_trace = false;
    c.mode = SessionMode::RealTime;
    assert_eq!(trace_properties_layout(&c, 120, 2, 0).log_file_mode, 0x0000_0100);
    c.mode = SessionMode::File;
    assert_eq!(trace_properties_layout(&c, 120, 2, 0).log_file_mode, 0x0000_0001);
    c.mode = SessionMode::Hybrid;
    assert_eq!(trace_properties_layout(&c, 120, 2, 0).log_file_mode, 0x0000_0101);
    c.enable_stack_trace = true;
    assert_eq!(trace_properties_layout(&c, 120, 2, 0).log_file_mode, 0x0200_0101);
}

fn le32_at(b: &[u8], off: usize) -> u32 {
    u32::from_le_bytes([b[off], b[off + 1], b[off + 2], b[off + 3]])
}

#[test]
fn properties_block_bytes() {
    let c = SessionConfig::default().with_file_path("a.etl");
    let name = wide_nul("S");
    let file = wide_nul("a.etl");
    let guid: Vec<u8> = (1..=16).collect();
    let b = trace_properties_block(&c, &guid, &name, &file);
    assert_eq!(PROPERTIES_BASE_SIZE, 120);
    assert_eq!(b.len(), 120 + 2 * 2 + 2 * 6);
    assert_eq!(le32_at(&b, 0), b.len() as u32);
    assert!(b[4..24].iter().all(|x| *x == 0));
    assert_eq!(&b[24..40], &guid[..]);
    assert_eq!(le32_at(&b, 40), 1);
    assert_eq!(le32_at(&b, 44), 0x0002_0000);
    assert_eq!(le32_at(&b, 48), 64);
    assert_eq!(le32_at(&b, 52), 2);
    assert_eq!(le32_at(&b, 56), 8);
    assert_eq!(le32_at(&b, 64), 0x0200_0001);
    assert_eq!(le32_at(&b, 68), 1);
    assert!(b[72..112].iter().all(|x| *x == 0));
    assert_eq!(le32_at(&b, 112), 124);
    assert_eq!(le32_at(&b, 116), 120);
    assert_eq!(&b[120..124], &[b'S', 0, 0, 0]);
    assert_eq!(&b[124..136], &[b'a', 0, b'.', 0, b'e', 0, b't', 0, b'l', 0, 0, 0]);
}

#[test]
fn utf16_decoding_replaces_lone_surrogates() {
    assert_eq!(safe_utf16_to_string(&[0x41, 0xD800, 0x42, 0, 0x43]), "A\u{FFFD}B");
    assert_eq!(safe_utf16_to_string(&[0xD83D, 0xDE00]), "\u{1F600}");
    assert_eq!(safe_utf16_to_string(&[0xDC00]), "\u{FFFD}");
}

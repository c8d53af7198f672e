use etw_profiler::cli::commands::{Cli, Commands};
use etw_profiler::cli::output::wrap;
use etw_profiler::cli::progress::{format_duration, ProfilerProgress};
use etw_profiler::config::{resolve_config, CliArgs, LogLevel, ProfilerConfig, TargetProcess};
use etw_profiler::error::{ConfigError, EtwError, ProcessError, ProfilerError, SymbolError};
use etw_profiler::session::{format_elapsed, ProfilerSession, SessionState};
use etw_profiler::types::{CallStack, SampleEvent, StackFrame, ThreadStats};
use std::time::Duration;

#[test]
fn test_etw_error_new() {
    let err = EtwError::new("test error");
    assert_eq!(err.message, "test error");
    assert_eq!(err.code, None);
}

#[test]
fn test_etw_error_with_code() {
    let err = EtwError::with_code("test error", 123);
    assert_eq!(err.message, "test error");
    assert_eq!(err.code, Some(123));
}

#[test]
fn test_symbol_error_new() {
    let err = SymbolError::new("symbol not found");
    assert_eq!(err.message, "symbol not found");
    assert_eq!(err.address, None);
}

#[test]
fn test_symbol_error_with_address() {
    let err = SymbolError::with_address("symbol not found", 0x12345678);
    assert_eq!(err.address, Some(0x12345678));
}

#[test]
fn test_config_error_new() {
    let err = ConfigError::new("invalid config");
    assert_eq!(err.message, "invalid config");
}

#[test]
fn test_process_error_with_pid() {
    let err = ProcessError::with_pid("access denied", 1234);
    assert_eq!(err.pid, Some(1234));
}

#[test]
fn test_profiler_error_display() {
    let etw_err = EtwError::new("test");
    let profiler_err = ProfilerError::from(etw_err);
    let display = profiler_err.to_display_string();
    assert!(display.contains("ETW error"));
    assert!(display.contains("test"));
}

#[test]
fn test_default_config() {
    let config = ProfilerConfig::default();
    assert_eq!(config.session_name, "EtwProfilerSession");
    assert_eq!(config.sample_interval_ms, 1);
    assert!(config.enable_stack_walk);
    assert_eq!(config.max_stack_depth, 32);
}

#[test]
fn test_config_builder_pattern() {
    let config = ProfilerConfig::new().with_pid(1234).with_output_path("output.csv").with_sample_interval(10).with_stack_walk(false);
    assert_eq!(config.target_process, Some(TargetProcess::Pid(1234)));
    assert_eq!(config.output_path, "output.csv");
    assert_eq!(config.sample_interval_ms, 10);
    assert!(!config.enable_stack_walk);
}

#[test]
fn test_config_validation() {
    let config = ProfilerConfig { sample_interval_ms: 0, ..Default::default() };
    assert!(config.validate().is_err());
    let config = ProfilerConfig { max_stack_depth: 0, ..Default::default() };
    assert!(config.validate().is_err());
    let config = ProfilerConfig { max_stack_depth: 2048, ..Default::default() };
    assert!(config.validate().is_err());
}

#[test]
fn test_target_process_display() {
    let pid_target = TargetProcess::Pid(1234);
    assert_eq!(pid_target.to_display_string(), "PID:1234");
    let path_target = TargetProcess::Path("test.exe".to_string());
    assert_eq!(path_target.to_display_string(), "test.exe");
}

fn sample_args() -> CliArgs {
    CliArgs {
        pid: Some(1234),
        target_path: None,
        config: None,
        output: Some("test.csv".to_string()),
        interval: 5,
        no_stack_walk: true,
        max_depth: 64,
        symbol_path: vec!["symbols".to_string()],
        duration: 60,
        include_system: true,
        generate_config: None,
        log_level: LogLevel::Info,
    }
}

#[test]
fn test_cli_args_to_config() {
    let args = sample_args();
    let config: ProfilerConfig = ProfilerConfig::from_cli_args(&args);
    assert_eq!(config.target_process, Some(TargetProcess::Pid(1234)));
    assert_eq!(config.output_path, "test.csv");
    assert_eq!(config.sample_interval_ms, 5);
    assert!(!config.enable_stack_walk);
    assert_eq!(config.max_stack_depth, 64);
    assert_eq!(config.duration_secs, 60);
    assert!(config.include_system_calls);
}

#[test]
fn config_file_values_yield_to_given_arguments() {
    let file = ProfilerConfig::new().with_sample_interval(7).add_symbol_path("base");
    let mut args = sample_args();
    args.interval = 1;
    args.max_depth = 32;
    let c = resolve_config(&args, Some(file)).unwrap();
    assert_eq!(c.sample_interval_ms, 7);
    assert_eq!(c.max_stack_depth, 32);
    assert_eq!(c.symbol_paths, vec!["base".to_string(), "symbols".to_string()]);
    assert!(!c.enable_stack_walk);
    let mut bad = sample_args();
    bad.max_depth = 0;
    assert!(resolve_config(&bad, None).is_err());
    assert_eq!(LogLevel::Warn.to_display_string(), "warn");
}

#[test]
fn test_module_exports() {
    let _: ProfilerError = EtwError::new("test").into();
    let _: ProfilerError = SymbolError::new("test").into();
    let _: ProfilerError = ConfigError::new("test").into();
    let _: ProfilerError = ProcessError::new("test").into();
}

#[test]
fn test_config_integration() {
    let config = ProfilerConfig::new().with_pid(1234).with_output_path("test.csv").with_sample_interval(10);
    assert_eq!(config.sample_interval_ms, 10);
    assert_eq!(config.output_path, "test.csv");
}

#[test]
fn test_types_integration() {
    let event = SampleEvent::new(1000, 1234, 5678, 0x00400000);
    assert_eq!(event.process_id, 1234);
    let frame = StackFrame::new(0x00400000);
    assert_eq!(frame.address, 0x00400000);
    let mut stack = CallStack::new();
    stack.push(frame);
    assert_eq!(stack.len(), 1);
    let thread_stats = ThreadStats::new(5678, 1234);
    assert_eq!(thread_stats.thread_id, 5678);
}

#[test]
fn test_progress_default() {
    let progress = ProfilerProgress::default();
    assert_eq!(progress.samples_collected, 0);
    assert_eq!(progress.stacks_resolved, 0);
    assert_eq!(progress.threads_tracked, 0);
}

#[test]
fn test_progress_builder() {
    let progress = ProfilerProgress::new().with_samples(100).with_resolved(95).with_threads(5).with_status("Testing");
    assert_eq!(progress.samples_collected, 100);
    assert_eq!(progress.stacks_resolved, 95);
    assert_eq!(progress.threads_tracked, 5);
    assert_eq!(progress.status, "Testing");
}

#[test]
fn progress_test_format_duration() {
    assert_eq!(format_duration(Duration::from_secs(30).as_secs()), "30s");
    assert_eq!(format_duration(Duration::from_secs(90).as_secs()), "1m 30s");
    assert_eq!(format_duration(Duration::from_secs(3665).as_secs()), "1h 1m 5s");
}

#[test]
fn test_profiler_progress_default() {
    let progress = etw_profiler::profiler::ProfilerProgress::default();
    assert_eq!(progress.samples_collected, 0);
    assert_eq!(progress.stacks_resolved, 0);
    assert_eq!(progress.threads_tracked, 0);
}

#[test]
fn test_session_state_display() {
    assert_eq!(SessionState::Initializing.to_display_string(), "Initializing");
    assert_eq!(SessionState::Running { process_id: None }.to_display_string(), "Running");
    assert_eq!(SessionState::Running { process_id: Some(1234) }.to_display_string(), "Running (PID: 1234)");
    assert_eq!(SessionState::Completed.to_display_string(), "Completed");
}

#[test]
fn elapsed_shows_hours() {
    assert_eq!(format_elapsed(7322), "2h 2m 2s");
}

#[test]
fn wrap_packs_words_and_cuts_long_ones() {
    assert_eq!(wrap("aa bb cc", 5), vec!["aa bb".to_string(), "cc".to_string()]);
    assert_eq!(wrap("abcdefgh x", 3), vec!["abc".to_string(), "def".to_string(), "gh".to_string(), "x".to_string()]);
    assert!(wrap("   ", 4).is_empty());
}

#[test]
fn subcommand_settings_override_globals() {
    let cli = Cli {
        command: Some(Commands::Attach { pid: 5, output: Some("a.csv".to_string()), interval: None, duration: Some(9) }),
        pid: None,
        target_path: None,
        output: "profile_output.csv".to_string(),
        interval: 3,
        no_stack_walk: false,
        max_depth: 32,
        symbol_path: vec![],
        duration: None,
        include_system: false,
        config: None,
        generate_config: None,
        log_level: "info".to_string(),
        no_progress: true,
    };
    assert_eq!(cli.get_output_path(), "a.csv");
    assert_eq!(cli.get_interval(), 3);
    assert_eq!(cli.get_duration(), Some(9));
    assert!(cli.is_non_interactive());
}

#[test]
fn test_session_creation() {
    let session = ProfilerSession::new();
    assert_eq!(session.state(), SessionState::Initializing);
    assert!(!session.is_running());
    assert!(!session.is_completed());
}

#[test]
fn test_session_state_transitions() {
    let mut session = ProfilerSession::new();
    session.mark_running(Some(1234));
    assert!(session.is_running());
    assert_eq!(session.target_process_id(), Some(1234));
    session.mark_paused();
    assert!(!session.is_running());
    session.mark_completed();
    assert!(session.is_completed());
}

#[test]
fn test_session_counters() {
    let mut session = ProfilerSession::new();
    session.increment_samples(10);
    assert_eq!(session.sample_count(), 10);
    session.increment_resolved(5);
    assert_eq!(session.resolved_count(), 5);
    session.set_thread_count(3);
    assert_eq!(session.thread_count(), 3);
}

#[test]
fn test_session_cancel() {
    let mut session = ProfilerSession::new();
    assert!(!session.is_cancelled());
    session.cancel();
    assert!(session.is_cancelled());
}

#[test]
fn test_session_stats() {
    let mut session = ProfilerSession::new();
    session.increment_samples(100);
    session.set_thread_count(5);
    let stats = session.stats();
    assert_eq!(stats.sample_count, 100);
    assert_eq!(stats.thread_count, 5);
    assert_eq!(stats.session_id, session.session_id());
}

#[test]
fn session_ids_are_version_four() {
    let session = ProfilerSession::new();
    assert_eq!((session.session_id() >> 76) & 0xf, 4);
    assert_ne!(ProfilerSession::new().session_id(), session.session_id());
}

#[test]
fn session_cancel_stops_and_failure_keeps_message() {
    let mut session = ProfilerSession::new();
    session.cancel();
    assert_eq!(session.state(), SessionState::Stopping);
    session.mark_failed(ProfilerError::Generic("boom".to_string()));
    assert!(session.is_failed());
    assert_eq!(session.get_error(), Some("boom".to_string()));
}

#[test]
fn completion_step_decides_the_wait() {
    let mut session = ProfilerSession::new();
    assert!(session.completion_step(false).is_none());
    match session.completion_step(true) {
        Some(Err(e)) => assert_eq!(e.to_display_string(), "Wait timeout"),
        _ => panic!("expected a timeout"),
    }
    session.cancel();
    assert!(matches!(session.completion_step(false), Some(Ok(()))));
    session.set_state(SessionState::Failed);
    match session.completion_step(false) {
        Some(Err(e)) => assert_eq!(e.to_display_string(), "Unknown error"),
        _ => panic!("expected a failure"),
    }
    session.mark_completed();
    assert!(matches!(session.completion_step(true), Some(Ok(()))));
}

#[test]
fn session_counters_wrap_around() {
    let mut session = ProfilerSession::new();
    session.increment_samples(u64::MAX);
    session.increment_samples(2);
    assert_eq!(session.sample_count(), 1);
}

#[test]
fn session_stats_format_elapsed() {
    let mut session = ProfilerSession::new();
    session.mark_running(None);
    let mut stats = session.stats();
    stats.elapsed_us = 3_725_000_000;
    assert_eq!(stats.format_elapsed(), "1h 2m 5s");
}

//! Trace sessions: their settings, the layout of the properties block a
//! session is started with, and what a session keeps and decides around
//! the system calls that start, stop and feed it.
use vstd::prelude::*;
use crate::text::{owned, copy_string, push_str, write_dec, dec_seq};
use crate::types::ProcessId;
use crate::config::ProfilerConfig;
use crate::error::{EtwError, ProfilerError, Result};
use crate::etw::{is_valid_session_name, valid_session_name};
use crate::etw::provider::{Guid, ProviderConfig, kernel_provider_guid};
use crate::etw::processor::has_parts;

verus! {

/// How a session delivers its events.
#[derive(Debug, Clone, Copy, PartialEq, Eq, Structural)]
pub enum SessionMode {
    /// To a callback, as they happen.
    RealTime,
    /// To a log file.
    File,
    /// Both.
    Hybrid,
}

impl SessionMode {
    pub fn is_realtime(&self) -> (r: bool)
        ensures
            r == (*self == SessionMode::RealTime || *self == SessionMode::Hybrid),
    {
        match self {
            SessionMode::RealTime | SessionMode::Hybrid => true,
            _ => false,
        }
    }

    pub fn is_file(&self) -> (r: bool)
        ensures
            r == (*self == SessionMode::File || *self == SessionMode::Hybrid),
    {
        match self {
            SessionMode::File | SessionMode::Hybrid => true,
            _ => false,
        }
    }
}

impl Default for SessionMode {
    fn default() -> (r: Self)
        ensures
            r == SessionMode::RealTime,
    {
        SessionMode::RealTime
    }
}

/// The settings of one trace session.
#[derive(Debug, Clone)]
pub struct SessionConfig {
    pub name: String,
    pub mode: SessionMode,
    /// The log file, in file and hybrid mode.
    pub log_file_path: Option<String>,
    pub buffer_size_kb: u32,
    pub min_buffers: u32,
    pub max_buffers: u32,
    pub flush_interval_secs: u32,
    pub process_filter: Vec<ProcessId>,
    pub enable_stack_trace: bool,
}

impl SessionConfig {
    /// A real-time session named after the profiler's session, with stack
    /// traces as the profiler walks stacks.
    pub fn from_profiler_config(config: &ProfilerConfig) -> (r: Self)
        ensures
            r.name@ == config.session_name@,
            r.mode == SessionMode::RealTime,
            r.log_file_path is None,
            r.buffer_size_kb == 64,
            r.min_buffers == 2,
            r.max_buffers == 8,
            r.flush_interval_secs == 1,
            r.process_filter@.len() == 0,
            r.enable_stack_trace == config.enable_stack_walk,
    {
        SessionConfig {
            name: copy_string(&config.session_name),
            mode: SessionMode::RealTime,
            log_file_path: None,
            buffer_size_kb: 64,
            min_buffers: 2,
            max_buffers: 8,
            flush_interval_secs: 1,
            process_filter: Vec::new(),
            enable_stack_trace: config.enable_stack_walk,
        }
    }

    pub fn with_file_path(self, path: &str) -> (r: Self)
        ensures
            r.log_file_path matches Some(p) && p@ == path@,
            r == (SessionConfig { log_file_path: r.log_file_path, mode: SessionMode::File, ..self }),
    {
        SessionConfig { log_file_path: Some(owned(path)), mode: SessionMode::File, ..self }
    }

    pub fn with_hybrid_path(self, path: &str) -> (r: Self)
        ensures
            r.log_file_path matches Some(p) && p@ == path@,
            r == (SessionConfig { log_file_path: r.log_file_path, mode: SessionMode::Hybrid, ..self }),
    {
        SessionConfig { log_file_path: Some(owned(path)), mode: SessionMode::Hybrid, ..self }
    }

    pub fn with_buffer_size(self, size_kb: u32) -> (r: Self)
        ensures
            r == (SessionConfig { buffer_size_kb: size_kb, ..self }),
    {
        SessionConfig { buffer_size_kb: size_kb, ..self }
    }

    /// Sets the buffer counts; the maximum is raised to the minimum when
    /// below it.
    pub fn with_buffers(self, min: u32, max: u32) -> (r: Self)
        ensures
            r == (SessionConfig { min_buffers: min, max_buffers: if max >= min { max } else { min }, ..self }),
    {
        SessionConfig { min_buffers: min, max_buffers: if max >= min { max } else { min }, ..self }
    }

    pub fn with_flush_interval(self, secs: u32) -> (r: Self)
        ensures
            r == (SessionConfig { flush_interval_secs: secs, ..self }),
    {
        SessionConfig { flush_interval_secs: secs, ..self }
    }

    pub fn with_process_filter(self, pids: &[ProcessId]) -> (r: Self)
        ensures
            r.process_filter@ == pids@,
            r == (SessionConfig { process_filter: r.process_filter, ..self }),
    {
        let mut v: Vec<ProcessId> = Vec::new();
        let mut i: usize = 0;
        while i < pids.len()
            invariant
                i <= pids@.len(),
                v@ == pids@.subrange(0, i as int),
            decreases pids@.len() - i,
        {
            v.push(pids[i]);
            i = i + 1;
            assert(v@ =~= pids@.subrange(0, i as int));
        }
        assert(v@ =~= pids@);
        SessionConfig { process_filter: v, ..self }
    }
}

impl Default for SessionConfig {
    fn default() -> (r: Self)
        ensures
            r.name@ == "EtwProfilerSession"@,
            r.mode == SessionMode::RealTime,
            r.log_file_path is None,
            r.buffer_size_kb == 64,
            r.min_buffers == 2,
            r.max_buffers == 8,
            r.flush_interval_secs == 1,
            r.process_filter@.len() == 0,
            r.enable_stack_trace,
    {
        SessionConfig {
            name: owned("EtwProfilerSession"),
            mode: SessionMode::RealTime,
            log_file_path: None,
            buffer_size_kb: 64,
            min_buffers: 2,
            max_buffers: 8,
            flush_interval_secs: 1,
            process_filter: Vec::new(),
            enable_stack_trace: true,
        }
    }
}

/// Deliver events to a consumer as they happen.
pub const EVENT_TRACE_REAL_TIME_MODE: u32 = 0x0000_0100;
/// Write events to a sequential log file.
pub const EVENT_TRACE_FILE_MODE_SEQUENTIAL: u32 = 0x0000_0001;
/// Run as a system logger (needed for kernel stacks).
pub const EVENT_TRACE_SYSTEM_LOGGER_MODE: u32 = 0x0200_0000;
/// The block describes a traced provider.
pub const WNODE_FLAG_TRACED_GUID: u32 = 0x0002_0000;

/// The header fields of a session's properties block and where the names
/// it carries go: after the fixed part come the session name and then the
/// log-file name, each in UTF-16 code units.
#[derive(Debug, Clone, Copy, PartialEq, Eq, Structural)]
pub struct TracePropertiesLayout {
    pub total_size: usize,
    pub wnode_flags: u32,
    pub client_context: u32,
    pub buffer_size: u32,
    pub minimum_buffers: u32,
    pub maximum_buffers: u32,
    pub flush_timer: u32,
    pub log_file_mode: u32,
    pub logger_name_offset: u32,
    /// 0 when there is no log file.
    pub log_file_name_offset: u32,
}

/// The logging-mode bits of a session: the real-time bit when it delivers
/// events as they happen, the sequential-file bit when it writes a log file
/// (both for a hybrid session), and the system-logger bit when stack traces
/// are on.
pub open spec fn mode_bits(mode: SessionMode, stack_trace: bool) -> u32 {
    let rt: u32 = if mode == SessionMode::RealTime || mode == SessionMode::Hybrid { EVENT_TRACE_REAL_TIME_MODE } else { 0 };
    let file: u32 = if mode == SessionMode::File || mode == SessionMode::Hybrid { EVENT_TRACE_FILE_MODE_SEQUENTIAL } else { 0 };
    let sys: u32 = if stack_trace { EVENT_TRACE_SYSTEM_LOGGER_MODE } else { 0 };
    rt | file | sys
}

/// The layout for a session with fixed part `base` bytes long, a name of
/// `name_units` code units (its terminator included) and a log-file name of
/// `file_units` (terminator included; 0 without a file).
pub open spec fn layout_spec(c: SessionConfig, base: nat, name_units: nat, file_units: nat) -> TracePropertiesLayout {
    TracePropertiesLayout {
        total_size: (base + 2 * name_units + 2 * file_units) as usize,
        wnode_flags: WNODE_FLAG_TRACED_GUID,
        client_context: 1,
        buffer_size: c.buffer_size_kb,
        minimum_buffers: c.min_buffers,
        maximum_buffers: c.max_buffers,
        flush_timer: c.flush_interval_secs,
        log_file_mode: mode_bits(c.mode, c.enable_stack_trace),
        logger_name_offset: base as u32,
        log_file_name_offset: if file_units > 0 { (base + 2 * name_units) as u32 } else { 0 },
    }
}

/// The properties-block layout for `config`.
pub fn trace_properties_layout(config: &SessionConfig, base_size: usize, name_units: usize, file_units: usize) -> (r: TracePropertiesLayout)
    requires
        base_size + 2 * name_units + 2 * file_units <= u32::MAX,
    ensures
        r == layout_spec(*config, base_size as nat, name_units as nat, file_units as nat),
{
    let total_size = base_size + 2 * name_units + 2 * file_units;
    let rt: u32 = if config.mode.is_realtime() { EVENT_TRACE_REAL_TIME_MODE } else { 0 };
    let file: u32 = if config.mode.is_file() { EVENT_TRACE_FILE_MODE_SEQUENTIAL } else { 0 };
    let sys: u32 = if config.enable_stack_trace { EVENT_TRACE_SYSTEM_LOGGER_MODE } else { 0 };
    TracePropertiesLayout {
        total_size,
        wnode_flags: WNODE_FLAG_TRACED_GUID,
        client_context: 1,
        buffer_size: config.buffer_size_kb,
        minimum_buffers: config.min_buffers,
        maximum_buffers: config.max_buffers,
        flush_timer: config.flush_interval_secs,
        log_file_mode: rt | file | sys,
        logger_name_offset: base_size as u32,
        log_file_name_offset: if file_units > 0 { (base_size + 2 * name_units) as u32 } else { 0 },
    }
}

/// The size of the fixed part of a properties block.
pub const PROPERTIES_BASE_SIZE: usize = 120;

/// A 32-bit value's bytes, least significant first.
pub open spec fn le32(v: u32) -> Seq<u8> {
    seq![(v % 256) as u8, ((v / 256) % 256) as u8, ((v / 65536) % 256) as u8, (v / 16777216) as u8]
}

/// `n` zero bytes.
pub open spec fn zero_bytes(n: nat) -> Seq<u8> {
    Seq::new(n, |i: int| 0u8)
}

/// UTF-16 code units as bytes, each least significant first.
pub open spec fn units_le(u: Seq<u16>) -> Seq<u8>
    decreases u.len(),
{
    if u.len() == 0 {
        Seq::empty()
    } else {
        units_le(u.drop_last()) + seq![(u.last() % 256) as u8, (u.last() / 256) as u8]
    }
}

/// The fixed part of a properties block: the node header (its size, the
/// session GUID, clock type and flags) and then the buffer sizes and counts,
/// logging mode, flush timer and the offsets of the two names, each field at
/// its place and every other byte 0.
pub open spec fn header_bytes(l: TracePropertiesLayout, guid: Seq<u8>) -> Seq<u8> {
    le32(l.total_size as u32) + zero_bytes(20) + guid + le32(l.client_context) + le32(l.wnode_flags)
        + le32(l.buffer_size) + le32(l.minimum_buffers) + le32(l.maximum_buffers) + zero_bytes(4)
        + le32(l.log_file_mode) + le32(l.flush_timer) + zero_bytes(40)
        + le32(l.log_file_name_offset) + le32(l.logger_name_offset)
}

fn push_le32(buf: &mut Vec<u8>, v: u32)
    ensures
        final(buf)@ == old(buf)@ + le32(v),
{
    buf.push((v % 256) as u8);
    buf.push(((v / 256) % 256) as u8);
    buf.push(((v / 65536) % 256) as u8);
    buf.push((v / 16777216) as u8);
    assert(buf@ =~= old(buf)@ + le32(v));
}

fn push_zeros(buf: &mut Vec<u8>, n: usize)
    ensures
        final(buf)@ == old(buf)@ + zero_bytes(n as nat),
{
    let mut i: usize = 0;
    while i < n
        invariant
            i <= n,
            buf@ == old(buf)@ + zero_bytes(i as nat),
        decreases n - i,
    {
        buf.push(0u8);
        i = i + 1;
        assert(buf@ =~= old(buf)@ + zero_bytes(i as nat));
    }
    assert(buf@ =~= old(buf)@ + zero_bytes(n as nat));
}

fn push_bytes(buf: &mut Vec<u8>, b: &[u8])
    ensures
        final(buf)@ == old(buf)@ + b@,
{
    let mut i: usize = 0;
    while i < b.len()
        invariant
            i <= b@.len(),
            buf@ == old(buf)@ + b@.subrange(0, i as int),
        decreases b@.len() - i,
    {
        buf.push(b[i]);
        i = i + 1;
        assert(buf@ =~= old(buf)@ + b@.subrange(0, i as int));
    }
    assert(b@.subrange(0, b@.len() as int) =~= b@);
}

fn push_units(buf: &mut Vec<u8>, u: &[u16])
    ensures
        final(buf)@ == old(buf)@ + units_le(u@),
{
    let mut i: usize = 0;
    while i < u.len()
        invariant
            i <= u@.len(),
            buf@ == old(buf)@ + units_le(u@.subrange(0, i as int)),
        decreases u@.len() - i,
    {
        let c = u[i];
        buf.push((c % 256) as u8);
        buf.push((c / 256) as u8);
        proof {
            let t = u@.subrange(0, i + 1);
            assert(t.drop_last() =~= u@.subrange(0, i as int));
            assert(t.last() == c);
        }
        i = i + 1;
        assert(buf@ =~= old(buf)@ + units_le(u@.subrange(0, i as int)));
    }
    assert(u@.subrange(0, u@.len() as int) =~= u@);
}

/// The properties block a session starts with: the fixed part as
/// `header_bytes` lays it out for `config`, then the session name and then
/// the log-file name (each in UTF-16, as given, terminator included).
pub fn trace_properties_block(config: &SessionConfig, wnode_guid: &[u8], name_wide: &[u16], file_wide: &[u16]) -> (r: Vec<u8>)
    requires
        wnode_guid@.len() == 16,
        PROPERTIES_BASE_SIZE + 2 * name_wide@.len() + 2 * file_wide@.len() <= u32::MAX,
    ensures
        r@ == header_bytes(layout_spec(*config, PROPERTIES_BASE_SIZE as nat, name_wide@.len(), file_wide@.len()), wnode_guid@)
            + units_le(name_wide@) + units_le(file_wide@),
        r@.len() == layout_spec(*config, PROPERTIES_BASE_SIZE as nat, name_wide@.len(), file_wide@.len()).total_size,
{
    let l = trace_properties_layout(config, PROPERTIES_BASE_SIZE, name_wide.len(), file_wide.len());
    let mut buf: Vec<u8> = Vec::new();
    push_le32(&mut buf, l.total_size as u32);
    assert(buf@ =~= le32(l.total_size as u32));
    push_zeros(&mut buf, 20);
    push_bytes(&mut buf, wnode_guid);
    push_le32(&mut buf, l.client_context);
    push_le32(&mut buf, l.wnode_flags);
    push_le32(&mut buf, l.buffer_size);
    push_le32(&mut buf, l.minimum_buffers);
    push_le32(&mut buf, l.maximum_buffers);
    push_zeros(&mut buf, 4);
    push_le32(&mut buf, l.log_file_mode);
    push_le32(&mut buf, l.flush_timer);
    push_zeros(&mut buf, 40);
    push_le32(&mut buf, l.log_file_name_offset);
    push_le32(&mut buf, l.logger_name_offset);
    assert(buf@.len() == PROPERTIES_BASE_SIZE);
    push_units(&mut buf, name_wide);
    push_units(&mut buf, file_wide);
    proof {
        lemma_units_len(name_wide@);
        lemma_units_len(file_wide@);
    }
    buf
}

proof fn lemma_units_len(u: Seq<u16>)
    ensures
        units_le(u).len() == 2 * u.len(),
    decreases u.len(),
{
    if u.len() > 0 {
        lemma_units_len(u.drop_last());
    }
}

/// The mode bits of each kind of session, spelled out.
pub proof fn law_mode_bits()
    ensures
        mode_bits(SessionMode::RealTime, false) == EVENT_TRACE_REAL_TIME_MODE,
        mode_bits(SessionMode::File, false) == EVENT_TRACE_FILE_MODE_SEQUENTIAL,
        mode_bits(SessionMode::Hybrid, false) == EVENT_TRACE_REAL_TIME_MODE | EVENT_TRACE_FILE_MODE_SEQUENTIAL,
        mode_bits(SessionMode::Hybrid, false) == 0x101,
        mode_bits(SessionMode::RealTime, true) == 0x0200_0100,
        mode_bits(SessionMode::File, true) == 0x0200_0001,
        mode_bits(SessionMode::Hybrid, true) == 0x0200_0101,
{
    assert(0x100u32 | 0u32 | 0u32 == 0x100u32) by (bit_vector);
    assert(0u32 | 1u32 | 0u32 == 1u32) by (bit_vector);
    assert(0x100u32 | 1u32 | 0u32 == 0x101u32) by (bit_vector);
    assert(0x100u32 | 1u32 == 0x101u32) by (bit_vector);
    assert(0x100u32 | 0u32 | 0x0200_0000u32 == 0x0200_0100u32) by (bit_vector);
    assert(0u32 | 1u32 | 0x0200_0000u32 == 0x0200_0001u32) by (bit_vector);
    assert(0x100u32 | 1u32 | 0x0200_0000u32 == 0x0200_0101u32) by (bit_vector);
}

/// The UTF-16 code units of a text.
pub open spec fn utf16_of(s: Seq<char>) -> Seq<u16>
    decreases s.len(),
{
    if s.len() == 0 {
        Seq::empty()
    } else {
        let c = s.last() as u32;
        let tail: Seq<u16> = if c < 0x10000 {
            seq![c as u16]
        } else {
            seq![(0xD800 + (c - 0x10000) / 0x400) as u16, (0xDC00 + (c - 0x10000) % 0x400) as u16]
        };
        utf16_of(s.drop_last()) + tail
    }
}

/// A text in UTF-16 with a terminating zero, as the system takes names.
pub fn wide_nul(s: &str) -> (r: Vec<u16>)
    ensures
        r@ == utf16_of(s@).push(0u16),
{
    let v = crate::text::chars_of(s);
    let mut out: Vec<u16> = Vec::new();
    let mut i: usize = 0;
    while i < v.len()
        invariant
            i <= v@.len(),
            v@ == s@,
            out@ == utf16_of(v@.subrange(0, i as int)),
        decreases v@.len() - i,
    {
        let c = v[i] as u32;
        if c < 0x10000 {
            out.push(c as u16);
        } else {
            let u = c - 0x10000;
            out.push((0xD800 + u / 0x400) as u16);
            out.push((0xDC00 + u % 0x400) as u16);
        }
        i = i + 1;
        assert(v@.subrange(0, i as int).drop_last() =~= v@.subrange(0, i - 1));
        assert(out@ =~= utf16_of(v@.subrange(0, i as int)));
    }
    assert(v@.subrange(0, i as int) =~= v@);
    out.push(0u16);
    out
}

/// What a start returned by the system leads to.
#[derive(Debug, Clone, Copy, PartialEq, Eq, Structural)]
pub enum StartOutcome {
    /// The session runs.
    Started,
    /// A session of that name exists: stop it and start again.
    Restart,
}

/// What stopping a session takes.
#[derive(Debug, Clone, Copy, PartialEq, Eq, Structural)]
pub enum StopPlan {
    /// It is not running: nothing.
    Nothing,
    /// It runs without a handle: only forgetting it.
    Forget,
    /// Asking the system to stop the session by its handle, then
    /// forgetting it.
    ControlAndForget,
}

/// The system's success code.
pub const ERROR_SUCCESS: u32 = 0;
/// The system's code for a session name in use.
pub const ERROR_ALREADY_EXISTS: u32 = 183;

/// The message of a failed start with system code `code`.
pub open spec fn start_error_text(code: u32) -> Seq<char> {
    if code == 5 {
        "Access denied. ETW profiling requires administrator privileges. Please run as administrator."@
    } else if code == 87 {
        "Invalid parameter. Check ETW session configuration."@
    } else if code == 122 {
        "Insufficient buffer size for ETW properties."@
    } else if code == 183 {
        "ETW session already exists with different configuration."@
    } else {
        "Failed to start ETW session: WIN32_ERROR("@ + dec_seq(code as nat) + ")"@
    }
}

/// The error of a failed start with system code `code`.
pub fn start_error(code: u32) -> (r: EtwError)
    ensures
        r.message@ == start_error_text(code),
        r.code == Some(code),
{
    if code == 5 {
        EtwError::with_code("Access denied. ETW profiling requires administrator privileges. Please run as administrator.", code)
    } else if code == 87 {
        EtwError::with_code("Invalid parameter. Check ETW session configuration.", code)
    } else if code == 122 {
        EtwError::with_code("Insufficient buffer size for ETW properties.", code)
    } else if code == 183 {
        EtwError::with_code("ETW session already exists with different configuration.", code)
    } else {
        let mut m = owned("Failed to start ETW session: WIN32_ERROR(");
        write_dec(&mut m, code as u64);
        push_str(&mut m, ")");
        EtwError { message: m, code: Some(code) }
    }
}

/// One trace session: its settings, its name as the system takes it,
/// whether it runs, its handle and the providers enabled in it. The system
/// calls are made by the caller, which hands their results back.
pub struct EtwSession {
    config: SessionConfig,
    name_wide: Vec<u16>,
    running: bool,
    enabled_providers: Vec<Guid>,
    session_handle: u64,
    registration_handle: u64,
    properties_buffer: Option<Vec<u8>>,
}

impl EtwSession {
    pub closed spec fn cfg(&self) -> SessionConfig {
        self.config
    }

    pub closed spec fn wide(&self) -> Seq<u16> {
        self.name_wide@
    }

    pub closed spec fn runs(&self) -> bool {
        self.running
    }

    pub closed spec fn providers(&self) -> Seq<Guid> {
        self.enabled_providers@
    }

    pub closed spec fn handle(&self) -> u64 {
        self.session_handle
    }

    /// A session for the profiler's settings.
    pub fn new(config: &ProfilerConfig) -> (r: Result<Self>)
        ensures
            !valid_session_name(config.session_name@) ==> (r matches Err(ProfilerError::EtwError(e))
                && e.message@ == "Invalid session name: "@ + config.session_name@ && e.code is None),
            valid_session_name(config.session_name@) ==> (r matches Ok(s)
                && s.cfg().name@ == config.session_name@
                && s.cfg().mode == SessionMode::RealTime
                && s.cfg().log_file_path is None
                && s.cfg().buffer_size_kb == 64
                && s.cfg().min_buffers == 2
                && s.cfg().max_buffers == 8
                && s.cfg().flush_interval_secs == 1
                && s.cfg().process_filter@.len() == 0
                && s.cfg().enable_stack_trace == config.enable_stack_walk
                && s.wide() == utf16_of(config.session_name@).push(0u16)
                && !s.runs() && s.providers().len() == 0 && s.handle() == 0),
    {
        Self::with_config(SessionConfig::from_profiler_config(config))
    }

    /// A stopped session with these settings; refused when the name is
    /// not a valid session name, or when it logs to a file without a path.
    pub fn with_config(config: SessionConfig) -> (r: Result<Self>)
        ensures
            !valid_session_name(config.name@) ==> (r matches Err(ProfilerError::EtwError(e))
                && e.message@ == "Invalid session name: "@ + config.name@ && e.code is None),
            valid_session_name(config.name@) && (config.mode == SessionMode::File || config.mode == SessionMode::Hybrid) && config.log_file_path is None
                ==> (r matches Err(ProfilerError::EtwError(e)) && e.message@ == "File mode requires log file path"@
                    && e.code is None),
            valid_session_name(config.name@) && !((config.mode == SessionMode::File || config.mode == SessionMode::Hybrid) && config.log_file_path is None)
                ==> (r matches Ok(s) && s.cfg() == config && s.wide() == utf16_of(config.name@).push(0u16)
                    && !s.runs() && s.providers().len() == 0 && s.handle() == 0),
    {
        if !is_valid_session_name(config.name.as_str()) {
            let mut m = owned("Invalid session name: ");
            push_str(&mut m, config.name.as_str());
            return Err(ProfilerError::EtwError(EtwError { message: m, code: None }));
        }
        if config.mode.is_file() && config.log_file_path.is_none() {
            return Err(ProfilerError::EtwError(EtwError::new("File mode requires log file path")));
        }
        let name_wide = wide_nul(config.name.as_str());
        Ok(EtwSession {
            config,
            name_wide,
            running: false,
            enabled_providers: Vec::new(),
            session_handle: 0,
            registration_handle: 0,
            properties_buffer: None,
        })
    }

    /// Refuses to start a session that runs.
    pub fn begin_start(&self) -> (r: Result<()>)
        ensures
            self.runs() ==> (r matches Err(ProfilerError::EtwError(e)) && e.message@ == "Session is already running"@
                && e.code is None),
            !self.runs() ==> r is Ok,
    {
        if self.running {
            return Err(ProfilerError::EtwError(EtwError::new("Session is already running")));
        }
        Ok(())
    }

    /// Takes the system's answer to a start: on success the session runs
    /// with the handle and keeps its properties block; a name in use asks
    /// for a restart; any other code is the start's error.
    pub fn finish_start(&mut self, code: u32, handle: u64, properties: Vec<u8>) -> (r: Result<StartOutcome>)
        ensures
            code == ERROR_SUCCESS ==> r == Ok::<StartOutcome, ProfilerError>(StartOutcome::Started)
                && final(self).runs() && final(self).handle() == handle
                && final(self).cfg() == old(self).cfg() && final(self).wide() == old(self).wide()
                && final(self).providers() == old(self).providers(),
            code == ERROR_ALREADY_EXISTS ==> r == Ok::<StartOutcome, ProfilerError>(StartOutcome::Restart)
                && *final(self) == *old(self),
            code != ERROR_SUCCESS && code != ERROR_ALREADY_EXISTS ==> (r matches Err(ProfilerError::EtwError(e))
                && e.message@ == start_error_text(code) && e.code == Some(code)) && *final(self) == *old(self),
    {
        if code == ERROR_SUCCESS {
            self.session_handle = handle;
            self.properties_buffer = Some(properties);
            self.running = true;
            Ok(StartOutcome::Started)
        } else if code == ERROR_ALREADY_EXISTS {
            Ok(StartOutcome::Restart)
        } else {
            Err(ProfilerError::EtwError(start_error(code)))
        }
    }

    /// What stopping takes now.
    pub fn stop_plan(&self) -> (r: StopPlan)
        ensures
            r == if !self.runs() { StopPlan::Nothing } else if self.handle() == 0 { StopPlan::Forget } else {
                StopPlan::ControlAndForget },
    {
        if !self.running {
            StopPlan::Nothing
        } else if self.session_handle == 0 {
            StopPlan::Forget
        } else {
            StopPlan::ControlAndForget
        }
    }

    /// Forgets the running session: no providers, no handle, stopped.
    pub fn finish_stop(&mut self)
        ensures
            !final(self).runs(),
            final(self).providers().len() == 0,
            final(self).handle() == 0,
            final(self).cfg() == old(self).cfg(),
            final(self).wide() == old(self).wide(),
    {
        self.enabled_providers = Vec::new();
        self.session_handle = 0;
        self.registration_handle = 0;
        self.properties_buffer = None;
        self.running = false;
    }

    /// Refuses to enable providers before the session runs with a handle.
    pub fn check_can_enable(&self) -> (r: Result<()>)
        ensures
            !self.runs() ==> (r matches Err(ProfilerError::EtwError(e))
                && e.message@ == "Session must be started before enabling providers"@ && e.code is None),
            self.runs() && self.handle() == 0 ==> (r matches Err(ProfilerError::EtwError(e))
                && e.message@ == "Invalid session handle"@ && e.code is None),
            self.runs() && self.handle() != 0 ==> r is Ok,
    {
        if !self.running {
            return Err(ProfilerError::EtwError(EtwError::new("Session must be started before enabling providers")));
        }
        if self.session_handle == 0 {
            return Err(ProfilerError::EtwError(EtwError::new("Invalid session handle")));
        }
        Ok(())
    }

    /// Refuses a provider that cannot be enabled here: as
    /// `check_can_enable`, then the provider's own validation.
    pub fn check_provider(&self, provider_config: &ProviderConfig) -> (r: Result<()>)
        ensures
            !self.runs() || self.handle() == 0 ==> r is Err,
            self.runs() && self.handle() != 0 ==> (r is Ok <==> !provider_config.guid.is_zero()),
    {
        self.check_can_enable()?;
        provider_config.validate()
    }

    /// Takes the system's answer to enabling the kernel provider: recorded
    /// on success, an error naming the code otherwise.
    pub fn finish_enable_kernel(&mut self, code: u32) -> (r: Result<()>)
        ensures
            code == ERROR_SUCCESS ==> r is Ok && final(self).providers().drop_last() == old(self).providers()
                && final(self).providers().len() == old(self).providers().len() + 1
                && has_parts(final(self).providers().last(), 0x9E814AAD, 0x3204, 0x11D2,
                    seq![0x9Au8, 0x82, 0x00, 0x60, 0x08, 0xA8, 0x69, 0x39])
                && final(self).runs() == old(self).runs() && final(self).handle() == old(self).handle()
                && final(self).cfg() == old(self).cfg(),
            code != ERROR_SUCCESS ==> (r matches Err(ProfilerError::EtwError(e))
                && e.message@ == "Failed to enable kernel provider: WIN32_ERROR("@ + dec_seq(code as nat) + ")"@
                && e.code == Some(code)) && *final(self) == *old(self),
    {
        if code != ERROR_SUCCESS {
            let mut m = owned("Failed to enable kernel provider: WIN32_ERROR(");
            write_dec(&mut m, code as u64);
            push_str(&mut m, ")");
            return Err(ProfilerError::EtwError(EtwError { message: m, code: Some(code) }));
        }
        let g = kernel_provider_guid();
        let ghost before = self.enabled_providers@;
        self.enabled_providers.push(g);
        assert(self.enabled_providers@.drop_last() =~= before);
        Ok(())
    }

    /// Takes the system's answer to enabling a provider: recorded on
    /// success, an error naming the code otherwise.
    pub fn finish_enable_provider(&mut self, code: u32, guid: Guid) -> (r: Result<()>)
        ensures
            code == ERROR_SUCCESS ==> r is Ok && final(self).providers() == old(self).providers().push(guid)
                && final(self).runs() == old(self).runs() && final(self).handle() == old(self).handle()
                && final(self).cfg() == old(self).cfg(),
            code != ERROR_SUCCESS ==> (r matches Err(ProfilerError::EtwError(e))
                && e.message@ == "Failed to enable provider: WIN32_ERROR("@ + dec_seq(code as nat) + ")"@
                && e.code == Some(code)) && *final(self) == *old(self),
    {
        if code != ERROR_SUCCESS {
            let mut m = owned("Failed to enable provider: WIN32_ERROR(");
            write_dec(&mut m, code as u64);
            push_str(&mut m, ")");
            return Err(ProfilerError::EtwError(EtwError { message: m, code: Some(code) }));
        }
        self.enabled_providers.push(guid);
        Ok(())
    }

    /// Sets the processes the session is meant for.
    pub fn set_process_filter(&mut self, pids: &[ProcessId]) -> (r: Result<()>)
        ensures
            r is Ok,
            final(self).cfg().process_filter@ == pids@,
            final(self).cfg().name == old(self).cfg().name,
            final(self).cfg().mode == old(self).cfg().mode,
            final(self).runs() == old(self).runs(),
            final(self).handle() == old(self).handle(),
            final(self).providers() == old(self).providers(),
    {
        let mut v: Vec<ProcessId> = Vec::new();
        let mut i: usize = 0;
        while i < pids.len()
            invariant
                i <= pids@.len(),
                v@ == pids@.subrange(0, i as int),
            decreases pids@.len() - i,
        {
            v.push(pids[i]);
            i = i + 1;
            assert(v@ =~= pids@.subrange(0, i as int));
        }
        assert(v@ =~= pids@);
        self.config.process_filter = v;
        Ok(())
    }

    pub fn is_running(&self) -> (r: bool)
        ensures
            r == self.runs(),
    {
        self.running
    }

    pub fn name(&self) -> (r: &str)
        ensures
            r@ == self.cfg().name@,
    {
        self.config.name.as_str()
    }

    /// The name in UTF-16 with its terminating zero.
    pub fn name_wide(&self) -> (r: &Vec<u16>)
        ensures
            r@ == self.wide(),
    {
        &self.name_wide
    }

    pub fn config(&self) -> (r: &SessionConfig)
        ensures
            *r == self.cfg(),
    {
        &self.config
    }

    pub fn enabled_providers(&self) -> (r: &Vec<Guid>)
        ensures
            r@ == self.providers(),
    {
        &self.enabled_providers
    }

    pub fn session_handle(&self) -> (r: u64)
        ensures
            r == self.handle(),
    {
        self.session_handle
    }
}

} // verus!

//! Profiler configuration: the target, sampling and output settings, their
//! validation, and how command-line arguments set or override them.
use vstd::prelude::*;
use vstd::std_specs::convert::FromSpecImpl;
use crate::text::{owned, copy_string, push_str, u64_to_string, dec_seq};
use crate::error::{ConfigError, ProfilerError, Result};

verus! {

/// The process to profile: by id or by path or name.
#[derive(Debug, Clone, PartialEq, Eq)]
pub enum TargetProcess {
    Pid(u32),
    Path(String),
}

impl TargetProcess {
    pub fn pid(pid: u32) -> (r: Self)
        ensures
            r == TargetProcess::Pid(pid),
    {
        TargetProcess::Pid(pid)
    }

    pub fn path(path: &str) -> (r: Self)
        ensures
            r matches TargetProcess::Path(p) && p@ == path@,
    {
        TargetProcess::Path(owned(path))
    }

    pub fn as_pid(&self) -> (r: Option<u32>)
        ensures
            r == match *self { TargetProcess::Pid(p) => Some(p), _ => None },
    {
        match self {
            TargetProcess::Pid(p) => Some(*p),
            _ => None,
        }
    }

    pub fn as_path(&self) -> (r: Option<&str>)
        ensures
            match *self {
                TargetProcess::Path(p) => r matches Some(s) && s@ == p@,
                _ => r is None,
            },
    {
        match self {
            TargetProcess::Path(p) => Some(p.as_str()),
            _ => None,
        }
    }

    /// `PID:` and the id, or the path (what `Display` prints).
    pub fn to_display_string(&self) -> (r: String)
        ensures
            r@ == match *self {
                TargetProcess::Pid(p) => "PID:"@ + dec_seq(p as nat),
                TargetProcess::Path(p) => p@,
            },
    {
        match self {
            TargetProcess::Pid(p) => {
                let mut s = owned("PID:");
                let d = u64_to_string(*p as u64);
                push_str(&mut s, d.as_str());
                s
            },
            TargetProcess::Path(p) => copy_string(p),
        }
    }
}

impl From<u32> for TargetProcess {
    fn from(pid: u32) -> (r: Self) {
        TargetProcess::Pid(pid)
    }
}

impl FromSpecImpl<u32> for TargetProcess {
    open spec fn obeys_from_spec() -> bool {
        true
    }

    open spec fn from_spec(v: u32) -> Self {
        TargetProcess::Pid(v)
    }
}

impl From<String> for TargetProcess {
    fn from(path: String) -> (r: Self) {
        TargetProcess::Path(path)
    }
}

impl FromSpecImpl<String> for TargetProcess {
    open spec fn obeys_from_spec() -> bool {
        true
    }

    open spec fn from_spec(v: String) -> Self {
        TargetProcess::Path(v)
    }
}

/// The settings of a profiling session.
#[derive(Debug, Clone, PartialEq, Eq)]
pub struct ProfilerConfig {
    pub session_name: String,
    pub target_process: Option<TargetProcess>,
    /// Where the CSV report goes.
    pub output_path: String,
    pub sample_interval_ms: u32,
    /// Capture a call stack with every sample.
    pub enable_stack_walk: bool,
    pub max_stack_depth: u32,
    /// Extra directories searched for symbol files.
    pub symbol_paths: Vec<String>,
    /// How long to profile; 0 runs until stopped.
    pub duration_secs: u64,
    pub include_system_calls: bool,
    /// Samples shorter than this are dropped; 0 keeps all.
    pub min_sample_time_us: u64,
}

/// The default settings.
pub open spec fn is_default_profiler_config(c: ProfilerConfig) -> bool {
    &&& c.session_name@ == "EtwProfilerSession"@
    &&& c.target_process is None
    &&& c.output_path@ == "profile_output.csv"@
    &&& c.sample_interval_ms == 1 && c.enable_stack_walk && c.max_stack_depth == 32
    &&& c.symbol_paths@.len() == 0
    &&& c.duration_secs == 0 && !c.include_system_calls && c.min_sample_time_us == 0
}

/// The first rule a configuration breaks, as the field it concerns and
/// the message: an empty session name, a zero sample interval, or a stack
/// depth of zero or above 1024.
pub open spec fn config_violation(c: ProfilerConfig) -> Option<(Seq<char>, Seq<char>)> {
    if c.session_name@.len() == 0 {
        Some(("session_name"@, "Session name cannot be empty"@))
    } else if c.sample_interval_ms == 0 {
        Some(("sample_interval_ms"@, "Sample interval must be greater than 0"@))
    } else if c.max_stack_depth == 0 {
        Some(("max_stack_depth"@, "Max stack depth must be greater than 0"@))
    } else if c.max_stack_depth > 1024 {
        Some(("max_stack_depth"@, "Max stack depth cannot exceed 1024"@))
    } else {
        None
    }
}

/// `r` is the configuration error for `field` with `message`.
pub open spec fn is_field_error(r: ProfilerError, field: Seq<char>, message: Seq<char>) -> bool {
    r matches ProfilerError::ConfigError(e) && e.message@ == message && e.file is None
        && (e.field matches Some(f) && f@ == field)
}

/// The result of validating `c`.
pub open spec fn validated(c: ProfilerConfig, r: Result<()>) -> bool {
    match config_violation(c) {
        None => r is Ok,
        Some((field, message)) => r matches Err(e) && is_field_error(e, field, message),
    }
}

impl Default for ProfilerConfig {
    fn default() -> (r: Self)
        ensures
            is_default_profiler_config(r),
    {
        ProfilerConfig {
            session_name: owned("EtwProfilerSession"),
            target_process: None,
            output_path: owned("profile_output.csv"),
            sample_interval_ms: 1,
            enable_stack_walk: true,
            max_stack_depth: 32,
            symbol_paths: Vec::new(),
            duration_secs: 0,
            include_system_calls: false,
            min_sample_time_us: 0,
        }
    }
}

fn field_error(message: &str, field: &str) -> (r: ProfilerError)
    ensures
        is_field_error(r, field@, message@),
{
    ProfilerError::ConfigError(ConfigError::with_field(message, field))
}

impl ProfilerConfig {
    pub fn new() -> (r: Self)
        ensures
            is_default_profiler_config(r),
    {
        Self::default()
    }

    /// Checks the session name, the sample interval and the stack depth.
    pub fn validate(&self) -> (r: Result<()>)
        ensures
            validated(*self, r),
    {
        proof {
            reveal_strlit("session_name");
            reveal_strlit("sample_interval_ms");
            reveal_strlit("max_stack_depth");
        }
        if self.session_name.as_str().is_empty() {
            return Err(field_error("Session name cannot be empty", "session_name"));
        }
        if self.sample_interval_ms == 0 {
            return Err(field_error("Sample interval must be greater than 0", "sample_interval_ms"));
        }
        if self.max_stack_depth == 0 {
            return Err(field_error("Max stack depth must be greater than 0", "max_stack_depth"));
        }
        if self.max_stack_depth > 1024 {
            return Err(field_error("Max stack depth cannot exceed 1024", "max_stack_depth"));
        }
        Ok(())
    }

    pub fn with_pid(self, pid: u32) -> (r: Self)
        ensures
            r == (ProfilerConfig { target_process: Some(TargetProcess::Pid(pid)), ..self }),
    {
        ProfilerConfig { target_process: Some(TargetProcess::Pid(pid)), ..self }
    }

    pub fn with_path(self, path: &str) -> (r: Self)
        ensures
            r.target_process matches Some(TargetProcess::Path(p)) && p@ == path@,
            r == (ProfilerConfig { target_process: r.target_process, ..self }),
    {
        ProfilerConfig { target_process: Some(TargetProcess::Path(owned(path))), ..self }
    }

    pub fn with_output_path(self, path: &str) -> (r: Self)
        ensures
            r.output_path@ == path@,
            r == (ProfilerConfig { output_path: r.output_path, ..self }),
    {
        ProfilerConfig { output_path: owned(path), ..self }
    }

    pub fn with_sample_interval(self, interval_ms: u32) -> (r: Self)
        ensures
            r == (ProfilerConfig { sample_interval_ms: interval_ms, ..self }),
    {
        ProfilerConfig { sample_interval_ms: interval_ms, ..self }
    }

    pub fn with_stack_walk(self, enable: bool) -> (r: Self)
        ensures
            r == (ProfilerConfig { enable_stack_walk: enable, ..self }),
    {
        ProfilerConfig { enable_stack_walk: enable, ..self }
    }

    pub fn add_symbol_path(self, path: &str) -> (r: Self)
        ensures
            r.symbol_paths@.len() == self.symbol_paths@.len() + 1,
            r.symbol_paths@.drop_last() == self.symbol_paths@,
            r.symbol_paths@.last()@ == path@,
            r == (ProfilerConfig { symbol_paths: r.symbol_paths, ..self }),
    {
        let mut c = self;
        c.symbol_paths.push(owned(path));
        c
    }
}

/// Log verbosity.
#[derive(Debug, Clone, Copy, PartialEq, Eq, Structural)]
pub enum LogLevel {
    Error,
    Warn,
    Info,
    Debug,
    Trace,
}

impl LogLevel {
    /// The level's lower-case name (what `Display` prints).
    pub fn to_display_string(&self) -> (r: String)
        ensures
            r@ == match *self {
                LogLevel::Error => "error"@,
                LogLevel::Warn => "warn"@,
                LogLevel::Info => "info"@,
                LogLevel::Debug => "debug"@,
                LogLevel::Trace => "trace"@,
            },
    {
        match self {
            LogLevel::Error => owned("error"),
            LogLevel::Warn => owned("warn"),
            LogLevel::Info => owned("info"),
            LogLevel::Debug => owned("debug"),
            LogLevel::Trace => owned("trace"),
        }
    }
}

/// The command-line arguments, as parsed.
#[derive(Debug, Clone)]
pub struct CliArgs {
    pub pid: Option<u32>,
    pub target_path: Option<String>,
    pub config: Option<String>,
    pub output: Option<String>,
    pub interval: u32,
    pub no_stack_walk: bool,
    pub max_depth: u32,
    pub symbol_path: Vec<String>,
    pub duration: u64,
    pub include_system: bool,
    pub generate_config: Option<String>,
    pub log_level: LogLevel,
}

/// The target the arguments name: the id before the path.
pub open spec fn args_target(args: CliArgs) -> Option<TargetProcess> {
    match args.pid {
        Some(p) => Some(TargetProcess::Pid(p)),
        None => match args.target_path {
            Some(t) => Some(TargetProcess::Path(t)),
            None => None,
        },
    }
}

/// The configuration built from arguments alone: the defaults with the
/// target, output, interval, stack walk, depth, symbol paths, duration and
/// system-call switch the arguments give.
pub open spec fn config_of_args(args: CliArgs, d: ProfilerConfig) -> ProfilerConfig {
    ProfilerConfig {
        target_process: if args_target(args) is Some { args_target(args) } else { d.target_process },
        output_path: match args.output { Some(o) => o, None => d.output_path },
        sample_interval_ms: args.interval,
        enable_stack_walk: !args.no_stack_walk,
        max_stack_depth: args.max_depth,
        symbol_paths: args.symbol_path,
        duration_secs: args.duration,
        include_system_calls: args.include_system,
        ..d
    }
}

/// A configuration read from a file with the arguments laid over it: each
/// argument given, or differing from its default (interval 1, depth 32,
/// duration 0), overrides; symbol paths are appended; the two switches
/// only turn stack walking off and system calls on.
pub open spec fn overridden_by_args(c: ProfilerConfig, args: CliArgs) -> ProfilerConfig {
    ProfilerConfig {
        target_process: if args_target(args) is Some { args_target(args) } else { c.target_process },
        output_path: match args.output { Some(o) => o, None => c.output_path },
        sample_interval_ms: if args.interval != 1 { args.interval } else { c.sample_interval_ms },
        enable_stack_walk: if args.no_stack_walk { false } else { c.enable_stack_walk },
        max_stack_depth: if args.max_depth != 32 { args.max_depth } else { c.max_stack_depth },
        duration_secs: if args.duration != 0 { args.duration } else { c.duration_secs },
        include_system_calls: if args.include_system { true } else { c.include_system_calls },
        ..c
    }
}

fn copy_strings(v: &Vec<String>) -> (r: Vec<String>)
    ensures
        r@ == v@,
{
    let mut out: Vec<String> = Vec::new();
    let mut i: usize = 0;
    while i < v.len()
        invariant
            i <= v@.len(),
            out@ == v@.subrange(0, i as int),
        decreases v@.len() - i,
    {
        out.push(copy_string(&v[i]));
        i = i + 1;
        assert(out@ =~= v@.subrange(0, i as int));
    }
    assert(out@ =~= v@);
    out
}

fn target_of_args(args: &CliArgs) -> (r: Option<TargetProcess>)
    ensures
        r == args_target(*args),
{
    match args.pid {
        Some(p) => Some(TargetProcess::Pid(p)),
        None => match &args.target_path {
            Some(t) => Some(TargetProcess::Path(copy_string(t))),
            None => None,
        },
    }
}

impl ProfilerConfig {
    /// The configuration the arguments describe on their own.
    pub fn from_cli_args(args: &CliArgs) -> (r: Self)
        ensures
            r.symbol_paths@ == args.symbol_path@,
            exists|d: ProfilerConfig| is_default_profiler_config(d)
                && r == (ProfilerConfig { symbol_paths: r.symbol_paths, ..config_of_args(*args, d) }),
    {
        let d = ProfilerConfig::new();
        let ghost g = d;
        let target = target_of_args(args);
        let r = ProfilerConfig {
            target_process: if target.is_some() { target } else { d.target_process },
            output_path: match &args.output { Some(o) => copy_string(o), None => d.output_path },
            sample_interval_ms: args.interval,
            enable_stack_walk: !args.no_stack_walk,
            max_stack_depth: args.max_depth,
            symbol_paths: copy_strings(&args.symbol_path),
            duration_secs: args.duration,
            include_system_calls: args.include_system,
            session_name: d.session_name,
            min_sample_time_us: d.min_sample_time_us,
        };
        assert(r == (ProfilerConfig { symbol_paths: r.symbol_paths, ..config_of_args(*args, g) }));
        r
    }

    /// The arguments laid over this configuration.
    pub fn apply_args(self, args: &CliArgs) -> (r: Self)
        ensures
            r.symbol_paths@ == self.symbol_paths@ + args.symbol_path@,
            r == (ProfilerConfig { symbol_paths: r.symbol_paths, ..overridden_by_args(self, *args) }),
    {
        let target = target_of_args(args);
        let mut paths = self.symbol_paths;
        let extra = copy_strings(&args.symbol_path);
        let mut i: usize = 0;
        let ghost start = paths@;
        while i < extra.len()
            invariant
                i <= extra@.len(),
                paths@ == start + extra@.subrange(0, i as int),
            decreases extra@.len() - i,
        {
            paths.push(copy_string(&extra[i]));
            i = i + 1;
            assert(paths@ =~= start + extra@.subrange(0, i as int));
        }
        assert(extra@.subrange(0, i as int) =~= extra@);
        ProfilerConfig {
            target_process: if target.is_some() { target } else { self.target_process },
            output_path: match &args.output { Some(o) => copy_string(o), None => self.output_path },
            sample_interval_ms: if args.interval != 1 { args.interval } else { self.sample_interval_ms },
            enable_stack_walk: if args.no_stack_walk { false } else { self.enable_stack_walk },
            max_stack_depth: if args.max_depth != 32 { args.max_depth } else { self.max_stack_depth },
            duration_secs: if args.duration != 0 { args.duration } else { self.duration_secs },
            include_system_calls: if args.include_system { true } else { self.include_system_calls },
            symbol_paths: paths,
            session_name: self.session_name,
            min_sample_time_us: self.min_sample_time_us,
        }
    }
}

/// Whether `r` is what validating `c` decides: success when `c` breaks no
/// rule, else the error of the first rule it breaks.
pub open spec fn decided_by(c: ProfilerConfig, r: Result<ProfilerConfig>) -> bool {
    match config_violation(c) {
        None => r is Ok,
        Some((field, message)) => r matches Err(e) && is_field_error(e, field, message),
    }
}

/// The configuration a run uses: the one read from the configuration file
/// (when the arguments name one) with the arguments laid over it, else the
/// one the arguments describe; validated either way.
pub fn resolve_config(args: &CliArgs, from_file: Option<ProfilerConfig>) -> (r: Result<ProfilerConfig>)
    ensures
        match from_file {
            Some(c) => decided_by(overridden_by_args(c, *args), r) && (r is Ok ==> (
                r->Ok_0 == (ProfilerConfig { symbol_paths: r->Ok_0.symbol_paths, ..overridden_by_args(c, *args) })
                && r->Ok_0.symbol_paths@ == c.symbol_paths@ + args.symbol_path@)),
            None => exists|d: ProfilerConfig| is_default_profiler_config(d)
                && decided_by(config_of_args(*args, d), r)
                && (r is Ok ==> r->Ok_0 == (ProfilerConfig { symbol_paths: r->Ok_0.symbol_paths, ..config_of_args(*args, d) })
                    && r->Ok_0.symbol_paths@ == args.symbol_path@),
        },
{
    match from_file {
        Some(c) => {
            let merged = c.apply_args(args);
            match merged.validate() {
                Ok(()) => Ok(merged),
                Err(e) => Err(e),
            }
        },
        None => {
            let config = ProfilerConfig::from_cli_args(args);
            match config.validate() {
                Ok(()) => Ok(config),
                Err(e) => Err(e),
            }
        },
    }
}

} // verus!

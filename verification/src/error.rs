//! Error types of the profiler: one error enum with a structured variant per
//! subsystem (event tracing, symbols, configuration, processes), I/O
//! failures by message, and free-form errors.
use vstd::prelude::*;
use crate::text::{copy_opt_string, copy_string, owned, push_str};
use vstd::std_specs::convert::FromSpecImpl;

verus! {

/// An error of the event-tracing layer, with the system error code when
/// there is one.
#[derive(Debug, Clone, PartialEq)]
pub struct EtwError {
    pub message: String,
    pub code: Option<u32>,
}

impl EtwError {
    pub fn new(message: &str) -> (r: Self)
        ensures
            r.message@ == message@,
            r.code is None,
    {
        EtwError { message: owned(message), code: None }
    }

    pub fn with_code(message: &str, code: u32) -> (r: Self)
        ensures
            r.message@ == message@,
            r.code == Some(code),
    {
        EtwError { message: owned(message), code: Some(code) }
    }
}

/// A symbol-resolution error, with the address or module concerned.
#[derive(Debug, Clone, PartialEq)]
pub struct SymbolError {
    pub message: String,
    pub address: Option<u64>,
    pub module: Option<String>,
}

impl SymbolError {
    pub fn new(message: &str) -> (r: Self)
        ensures
            r.message@ == message@,
            r.address is None,
            r.module is None,
    {
        SymbolError { message: owned(message), address: None, module: None }
    }

    pub fn with_address(message: &str, address: u64) -> (r: Self)
        ensures
            r.message@ == message@,
            r.address == Some(address),
            r.module is None,
    {
        SymbolError { message: owned(message), address: Some(address), module: None }
    }

    pub fn with_module(message: &str, module: &str) -> (r: Self)
        ensures
            r.message@ == message@,
            r.address is None,
            r.module matches Some(m) && m@ == module@,
    {
        SymbolError { message: owned(message), address: None, module: Some(owned(module)) }
    }
}

/// A configuration error, with the field and file concerned.
#[derive(Debug, Clone, PartialEq)]
pub struct ConfigError {
    pub message: String,
    pub field: Option<String>,
    pub file: Option<String>,
}

impl ConfigError {
    pub fn new(message: &str) -> (r: Self)
        ensures
            r.message@ == message@,
            r.field is None,
            r.file is None,
    {
        ConfigError { message: owned(message), field: None, file: None }
    }

    pub fn with_field(message: &str, field: &str) -> (r: Self)
        ensures
            r.message@ == message@,
            r.field matches Some(f) && f@ == field@,
            r.file is None,
    {
        ConfigError { message: owned(message), field: Some(owned(field)), file: None }
    }

    pub fn with_file(message: &str, file: &str, field: Option<String>) -> (r: Self)
        ensures
            r.message@ == message@,
            r.field == field,
            r.file matches Some(f) && f@ == file@,
    {
        ConfigError { message: owned(message), field, file: Some(owned(file)) }
    }
}

/// An error about a target process, with its id or name.
#[derive(Debug, Clone, PartialEq)]
pub struct ProcessError {
    pub message: String,
    pub pid: Option<u32>,
    pub name: Option<String>,
}

impl ProcessError {
    pub fn new(message: &str) -> (r: Self)
        ensures
            r.message@ == message@,
            r.pid is None,
            r.name is None,
    {
        ProcessError { message: owned(message), pid: None, name: None }
    }

    pub fn with_pid(message: &str, pid: u32) -> (r: Self)
        ensures
            r.message@ == message@,
            r.pid == Some(pid),
            r.name is None,
    {
        ProcessError { message: owned(message), pid: Some(pid), name: None }
    }

    pub fn with_name(message: &str, name: &str) -> (r: Self)
        ensures
            r.message@ == message@,
            r.pid is None,
            r.name matches Some(n) && n@ == name@,
    {
        ProcessError { message: owned(message), pid: None, name: Some(owned(name)) }
    }
}

/// Any error of the profiler.
#[derive(Debug)]
pub enum ProfilerError {
    EtwError(EtwError),
    SymbolError(SymbolError),
    /// An I/O failure, by its message.
    IoError(String),
    ConfigError(ConfigError),
    ProcessError(ProcessError),
    Generic(String),
}

/// The message shown for an error: a subsystem prefix and the inner message.
pub open spec fn display_spec(e: ProfilerError) -> Seq<char> {
    match e {
        ProfilerError::EtwError(x) => "ETW error: "@ + x.message@,
        ProfilerError::SymbolError(x) => "Symbol error: "@ + x.message@,
        ProfilerError::IoError(m) => "IO error: "@ + m@,
        ProfilerError::ConfigError(x) => "Configuration error: "@ + x.message@,
        ProfilerError::ProcessError(x) => "Process error: "@ + x.message@,
        ProfilerError::Generic(m) => m@,
    }
}

fn prefixed(prefix: &str, m: &String) -> (r: String)
    ensures
        r@ == prefix@ + m@,
{
    let mut s = owned(prefix);
    push_str(&mut s, m.as_str());
    s
}

impl ProfilerError {
    /// The message shown to users.
    pub fn to_display_string(&self) -> (r: String)
        ensures
            r@ == display_spec(*self),
    {
        match self {
            ProfilerError::EtwError(x) => prefixed("ETW error: ", &x.message),
            ProfilerError::SymbolError(x) => prefixed("Symbol error: ", &x.message),
            ProfilerError::IoError(m) => prefixed("IO error: ", m),
            ProfilerError::ConfigError(x) => prefixed("Configuration error: ", &x.message),
            ProfilerError::ProcessError(x) => prefixed("Process error: ", &x.message),
            ProfilerError::Generic(m) => copy_string(m),
        }
    }

    /// A free-form error.
    pub fn generic(message: &str) -> (r: Self)
        ensures
            r matches ProfilerError::Generic(m) && m@ == message@,
    {
        ProfilerError::Generic(owned(message))
    }
}

impl From<EtwError> for ProfilerError {
    fn from(e: EtwError) -> (r: Self) {
        ProfilerError::EtwError(e)
    }
}

impl FromSpecImpl<EtwError> for ProfilerError {
    open spec fn obeys_from_spec() -> bool {
        true
    }

    open spec fn from_spec(v: EtwError) -> Self {
        ProfilerError::EtwError(v)
    }
}

impl From<SymbolError> for ProfilerError {
    fn from(e: SymbolError) -> (r: Self) {
        ProfilerError::SymbolError(e)
    }
}

impl FromSpecImpl<SymbolError> for ProfilerError {
    open spec fn obeys_from_spec() -> bool {
        true
    }

    open spec fn from_spec(v: SymbolError) -> Self {
        ProfilerError::SymbolError(v)
    }
}

impl From<ConfigError> for ProfilerError {
    fn from(e: ConfigError) -> (r: Self) {
        ProfilerError::ConfigError(e)
    }
}

impl FromSpecImpl<ConfigError> for ProfilerError {
    open spec fn obeys_from_spec() -> bool {
        true
    }

    open spec fn from_spec(v: ConfigError) -> Self {
        ProfilerError::ConfigError(v)
    }
}

impl From<ProcessError> for ProfilerError {
    fn from(e: ProcessError) -> (r: Self) {
        ProfilerError::ProcessError(e)
    }
}

impl FromSpecImpl<ProcessError> for ProfilerError {
    open spec fn obeys_from_spec() -> bool {
        true
    }

    open spec fn from_spec(v: ProcessError) -> Self {
        ProfilerError::ProcessError(v)
    }
}

/// The result type of the profiler.
pub type Result<T> = core::result::Result<T, ProfilerError>;

} // verus!

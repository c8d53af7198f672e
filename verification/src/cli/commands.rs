//! The command line as parsed: global options and subcommands, and the
//! settings a subcommand overrides.
use vstd::prelude::*;
use crate::text::copy_string;

verus! {

/// A running process, as listed for the user.
#[derive(Debug, Clone)]
pub struct ProcessInfo {
    pub pid: u32,
    pub name: String,
    pub exe_path: Option<String>,
}

/// The global options and the subcommand.
#[derive(Debug)]
pub struct Cli {
    pub command: Option<Commands>,
    pub pid: Option<u32>,
    pub target_path: Option<String>,
    pub output: String,
    pub interval: u32,
    pub no_stack_walk: bool,
    pub max_depth: u32,
    pub symbol_path: Vec<String>,
    pub duration: Option<u64>,
    pub include_system: bool,
    pub config: Option<String>,
    pub generate_config: Option<String>,
    pub log_level: String,
    pub no_progress: bool,
}

/// The subcommands.
#[derive(Debug)]
pub enum Commands {
    /// Start a program and profile it.
    Launch { path: String, args: Vec<String>, output: Option<String>, interval: Option<u32>, duration: Option<u64> },
    /// Profile a running process.
    Attach { pid: u32, output: Option<String>, interval: Option<u32>, duration: Option<u64> },
    /// Analyse a recorded trace.
    Analyze { file: String, output: Option<String> },
    ListProcesses { user_only: bool },
}

/// The output path in effect: the subcommand's, else the global one.
pub open spec fn output_in_effect(c: Cli) -> Seq<char> {
    match c.command {
        Some(Commands::Launch { output: Some(o), .. }) => o@,
        Some(Commands::Attach { output: Some(o), .. }) => o@,
        Some(Commands::Analyze { output: Some(o), .. }) => o@,
        _ => c.output@,
    }
}

impl Cli {
    pub fn get_output_path(&self) -> (r: String)
        ensures
            r@ == output_in_effect(*self),
    {
        match &self.command {
            Some(Commands::Launch { output: Some(o), .. }) => copy_string(o),
            Some(Commands::Attach { output: Some(o), .. }) => copy_string(o),
            Some(Commands::Analyze { output: Some(o), .. }) => copy_string(o),
            _ => copy_string(&self.output),
        }
    }

    /// The sampling interval: the subcommand's, else the global one.
    pub fn get_interval(&self) -> (r: u32)
        ensures
            r == match self.command {
                Some(Commands::Launch { interval: Some(i), .. }) => i,
                Some(Commands::Attach { interval: Some(i), .. }) => i,
                _ => self.interval,
            },
    {
        match &self.command {
            Some(Commands::Launch { interval: Some(i), .. }) => *i,
            Some(Commands::Attach { interval: Some(i), .. }) => *i,
            _ => self.interval,
        }
    }

    /// The duration: the subcommand's, else the global one.
    pub fn get_duration(&self) -> (r: Option<u64>)
        ensures
            r == match self.command {
                Some(Commands::Launch { duration: Some(d), .. }) => Some(d),
                Some(Commands::Attach { duration: Some(d), .. }) => Some(d),
                _ => self.duration,
            },
    {
        match &self.command {
            Some(Commands::Launch { duration: Some(d), .. }) => Some(*d),
            Some(Commands::Attach { duration: Some(d), .. }) => Some(*d),
            _ => self.duration,
        }
    }

    pub fn is_non_interactive(&self) -> (r: bool)
        ensures
            r == self.no_progress,
    {
        self.no_progress
    }
}

} // verus!

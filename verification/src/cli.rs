//! The command-line surface of the harness.
use vstd::prelude::*;

verus! {

/// The harness's command line.
pub struct Cli {
    pub command: Command,
}

/// The subcommands.
pub enum Command {
    /// Run all benchmarks (throughput, then memory efficiency); build both apps first when asked.
    Run { build: bool },
    /// Throughput, latency and streaming benchmark; build both apps first when asked.
    Throughput { build: bool },
    /// Memory-efficiency sweep across parallelism levels.
    Memory,
    /// Pin the Ossido example to a version, rebuild, and run both benchmarks.
    Version { version: String },
    /// Build both example apps.
    Build,
    /// Rewrite the README results table.
    Index,
}

/// Whether a command runs the throughput benchmark, the memory benchmark,
/// and builds the apps first.
pub open spec fn plan_of(c: Command) -> (bool, bool, bool) {
    match c {
        Command::Run { build } => (true, true, build),
        Command::Throughput { build } => (true, false, build),
        Command::Memory => (false, true, false),
        _ => (false, false, false),
    }
}

impl Command {
    /// Which benchmarks the command runs and whether it builds first:
    /// (throughput, memory, build).
    pub fn benchmark_plan(&self) -> (res: (bool, bool, bool))
        ensures
            res == plan_of(*self),
    {
        match self {
            Command::Run { build } => (true, true, *build),
            Command::Throughput { build } => (true, false, *build),
            Command::Memory => (false, true, false),
            _ => (false, false, false),
        }
    }
}

} // verus!

use vstd::prelude::*;

verus! {

/// The command line: one subcommand.
#[derive(Debug, Clone, Copy, PartialEq, Eq, Structural)]
pub struct Opts {
    pub subcmd: SubCommand,
}

#[derive(Debug, Clone, Copy, PartialEq, Eq, Structural)]
pub enum SubCommand {
    /// Prepare the store for a round.
    Prepare,
    /// Start the engine.
    Start,
}

/// What stopped the process.
#[derive(Debug, Clone, Copy, PartialEq, Eq, Structural)]
pub enum Failure {
    /// The configuration could not be read or parsed.
    Config,
    /// The store could not be reached or prepared.
    Store,
}

/// The process exit status: zero on success, one for configuration or
/// I/O failures, two for store failures.
pub fn exit_code(outcome: Option<Failure>) -> (r: i32)
    ensures
        r == match outcome {
            None => 0i32,
            Some(Failure::Config) => 1i32,
            Some(Failure::Store) => 2i32,
        },
{
    match outcome {
        None => 0,
        Some(Failure::Config) => 1,
        Some(Failure::Store) => 2,
    }
}

} // verus!

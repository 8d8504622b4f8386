use vstd::prelude::*;
use crate::dispatch::{command_not_found, command_not_found_spec};
use crate::search::{resolution, resolve, Candidate};

verus! {

/// A process to start: the executable's path, the zeroth argument it sees (the
/// name as typed), and the arguments after it.
#[derive(Debug, PartialEq, Eq)]
pub struct SpawnRequest {
    pub program: String,
    pub argv0: String,
    pub args: Vec<String>,
}

/// What becomes of an external command once the search path has been probed.
#[derive(Debug, PartialEq, Eq)]
pub enum External {
    /// Start this process.
    Spawn(SpawnRequest),
    /// Nothing matched: write this line.
    Report(String),
}

/// Resolves an external command and says whether to start it or report it missing.
pub fn execute_external_program(name: &str, args: Vec<String>, cands: &Vec<Candidate>) -> (r:
    External)
    ensures
        match resolution(cands@) {
            Some(path) => r matches External::Spawn(req) && req.program@ == path && req.argv0@
                == name@ && req.args.deep_view() == args.deep_view(),
            None => r matches External::Report(line) && line@ == command_not_found_spec(name@),
        },
{
    match resolve(cands) {
        Some(program) => External::Spawn(
            SpawnRequest { program, argv0: String::from_str(name), args },
        ),
        None => External::Report(command_not_found(name)),
    }
}

/// What a finished external process left behind.
pub struct ProcessOutcome {
    pub success: bool,
    pub stdout: Vec<u8>,
    pub stderr: Vec<u8>,
}

/// Which of the interpreter's streams receives which bytes.
#[derive(Debug, PartialEq, Eq)]
pub enum Relay {
    Stdout(Vec<u8>),
    Stderr(Vec<u8>),
}

/// Passes on what a process wrote: its standard output when it succeeded, its
/// standard error when it failed, byte for byte.
pub fn relay(outcome: ProcessOutcome) -> (r: Relay)
    ensures
        outcome.success ==> r == Relay::Stdout(outcome.stdout),
        !outcome.success ==> r == Relay::Stderr(outcome.stderr),
{
    if outcome.success {
        Relay::Stdout(outcome.stdout)
    } else {
        Relay::Stderr(outcome.stderr)
    }
}

} // verus!

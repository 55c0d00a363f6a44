//! What is asked of the version-control tool: the arguments of its `log`
//! command for each kind of log that the scanners read.
use vstd::prelude::*;
use vstd::string::StringExecFns;

verus! {

/// A kind of log.
#[derive(Debug)]
pub enum LogRequest {
    /// The commits of the repository.
    Commits,
    /// The commits of the repository, each with its diff summary.
    Stats,
    /// The commits that touched one file, followed across renames, each
    /// with its diff summary.
    File(String),
}

/// The arguments that ask for a log of kind `request`: no decoration by
/// reference names and dates as seconds of the Unix epoch, then the diff
/// summaries, then the file to follow, as far as the kind asks for them.
pub open spec fn arguments_of(request: LogRequest) -> Seq<Seq<char>> {
    let common = seq!["log"@, "--decorate=no"@, "--date=unix"@];
    match request {
        LogRequest::Commits => common,
        LogRequest::Stats => common.push("--shortstat"@),
        LogRequest::File(path) => common.push("--shortstat"@).push("--follow"@).push(path@),
    }
}

/// The arguments of a vector as character sequences.
pub open spec fn argument_views(arguments: Seq<String>) -> Seq<Seq<char>> {
    arguments.map_values(|argument: String| argument@)
}

/// The arguments that ask for a log of kind `request`.
pub fn log_arguments(request: &LogRequest) -> (arguments: Vec<String>)
    ensures
        argument_views(arguments@) == arguments_of(*request),
{
    let mut arguments: Vec<String> = Vec::new();
    arguments.push(String::from_str("log"));
    arguments.push(String::from_str("--decorate=no"));
    arguments.push(String::from_str("--date=unix"));
    match request {
        LogRequest::Commits => {},
        LogRequest::Stats => {
            arguments.push(String::from_str("--shortstat"));
        },
        LogRequest::File(path) => {
            arguments.push(String::from_str("--shortstat"));
            arguments.push(String::from_str("--follow"));
            arguments.push(path.clone());
        },
    }
    arguments
}

} // verus!

//! Error kinds of the migration engine.
//!
//! Every failure carries enough context (path, statement text, prompt text)
//! for the caller to act on; none is silently swallowed.

use vstd::prelude::*;

verus! {

/// What can go wrong while creating or reading migrations.
#[derive(Debug)]
pub enum Error {
    /// A filesystem operation failed; `path` names the offending file or
    /// directory and `detail` carries the underlying description.
    Io { path: String, detail: String },
    /// A connection-level failure, surfaced unchanged from the connection.
    Protocol { detail: String },
    /// A schema file's last non-whitespace statement lacks its terminating
    /// semicolon; `path` names the file.
    IncompleteSchema { path: String },
    /// The last migration on the filesystem does not match the migration the
    /// server reports as its history tip.
    HistoryMismatch { local: Option<String>, server: Option<String> },
    /// More than one migration record matches the requested name prefix.
    AmbiguousPrefix { prefix: String },
    /// A high-confidence proposal needs user input that is unavailable in
    /// non-interactive mode; fatal, never retried.
    UserInputRequired { statement: String, prompts: Vec<String> },
    /// The describe/apply loop exceeded its round bound.
    TooManyRounds,
    /// Interactive creation mode.
    NotImplemented,
    /// The describe/apply loop and the subsequent abort both failed; the
    /// loop's error is `primary`, the abort's is `secondary`.
    Combined { primary: Box<Error>, secondary: Box<Error> },
}

/// Joins the outcome of the describe/apply loop with the outcome of the
/// mandatory "abort migration" command that follows it on every path.
/// The loop's error takes priority, but an abort failure is still surfaced.
pub fn combine_results(exec: Result<(), Error>, abort: Result<(), Error>) -> (r: Result<
    (),
    Error,
>)
    ensures
        exec is Ok && abort is Ok ==> r is Ok,
        exec is Err && abort is Ok ==> r == Result::<(), Error>::Err(exec->Err_0),
        exec is Ok && abort is Err ==> r == Result::<(), Error>::Err(abort->Err_0),
        exec is Err && abort is Err ==> (r matches Result::<(), Error>::Err(
            Error::Combined { primary, secondary },
        ) && *primary == exec->Err_0 && *secondary == abort->Err_0),
{
    match (exec, abort) {
        (Ok(()), Ok(())) => Ok(()),
        (Err(e), Ok(())) => Err(e),
        (Ok(()), Err(a)) => Err(a),
        (Err(e), Err(a)) => Err(
            Error::Combined { primary: Box::new(e), secondary: Box::new(a) },
        ),
    }
}

} // verus!

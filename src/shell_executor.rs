//! Turning a saved alias and run-time arguments into a shell command line, and
//! reading the outcome of running it.
use vstd::prelude::*;
use crate::queries::{Store, alias_pos, has_alias, string_views};
use crate::template::{fill, find_placeholders, lemma_no_placeholders_verbatim, placeholders, substitute};

verus! {

/// How a shell process ended.
#[derive(Debug, Clone, Copy, PartialEq, Eq, Structural)]
pub enum ShellStatus {
    /// It exited with this code.
    Exited(u32),
    /// A signal with this number ended it.
    Signaled(u8),
    /// The platform reported this raw status.
    Other(i32),
    /// Its status could not be learned.
    Undetermined,
}

/// Why running a saved command did not succeed.
#[derive(Debug, PartialEq, Eq)]
pub enum RunError {
    /// No record has the alias.
    AliasNotFound,
    /// The template has `needed` distinct placeholders but only `given`
    /// arguments came.
    InsufficientArguments { needed: usize, given: usize },
    /// The shell ran the command and reported failure.
    ShellFailure { status: ShellStatus, stderr: String },
}

/// Binds the i-th distinct placeholder of `command` to `args[i]` and replaces
/// every occurrence of each; extra arguments are ignored.
pub fn replace_placeholder(command: &str, args: Vec<String>) -> (r: Result<String, RunError>)
    ensures
        placeholders(command@).len() > args@.len() ==> r == Err::<String, RunError>(
            RunError::InsufficientArguments {
                needed: placeholders(command@).len() as usize,
                given: args@.len() as usize,
            },
        ),
        placeholders(command@).len() <= args@.len() ==> (r matches Ok(t) && t@ == substitute(
            command@,
            string_views(args@),
        )),
{
    let names = find_placeholders(command);
    if names.len() == 0 {
        proof {
            lemma_no_placeholders_verbatim(command@, string_views(args@));
        }
        return Ok(String::from_str(command));
    }
    if names.len() > args.len() {
        return Err(RunError::InsufficientArguments { needed: names.len(), given: args.len() });
    }
    Ok(fill(command, &names, &args))
}

/// Looks up the template saved under `alias` and fills in its placeholders:
/// the command line to hand to the shell.
pub fn prepare_run(store: &Store, alias: &str, args: Vec<String>) -> (r: Result<String, RunError>)
    requires
        store.wf(),
    ensures
        !has_alias(store@.records, alias@) ==> r == Err::<String, RunError>(RunError::AliasNotFound),
        has_alias(store@.records, alias@) ==> {
            let t = store@.records[alias_pos(store@.records, alias@)].command;
            &&& placeholders(t).len() > args@.len() ==> r == Err::<String, RunError>(
                RunError::InsufficientArguments {
                    needed: placeholders(t).len() as usize,
                    given: args@.len() as usize,
                },
            )
            &&& placeholders(t).len() <= args@.len() ==> (r matches Ok(c) && c@ == substitute(
                t,
                string_views(args@),
            ))
        },
{
    match crate::queries::retrieve_command(store, alias) {
        Ok(template) => replace_placeholder(template.as_str(), args),
        Err(_) => Err(RunError::AliasNotFound),
    }
}

/// Reads the outcome of a shell run: exit code 0 is success and hands on
/// the standard output; anything else is a failure carrying the status and
/// the standard error.
pub fn finish_run(status: ShellStatus, stdout: String, stderr: String) -> (r: Result<Option<String>, RunError>)
    ensures
        status == ShellStatus::Exited(0) ==> (r matches Ok(o) && (o is None <==> stdout@.len() == 0)
            && (o matches Some(x) ==> x@ == stdout@)),
        status != ShellStatus::Exited(0) ==> (r matches Err(RunError::ShellFailure { status: s, stderr: e })
            && s == status && e@ == stderr@),
{
    match status {
        ShellStatus::Exited(0) => {
            if stdout.as_str().is_empty() {
                Ok(None)
            } else {
                Ok(Some(stdout))
            }
        },
        _ => Err(RunError::ShellFailure { status, stderr }),
    }
}

} // verus!

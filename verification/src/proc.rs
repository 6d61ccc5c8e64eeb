//! The messages reported when a native command cannot be run or fails.
use vstd::prelude::*;
use crate::text::{chars_of, extend, extend_str, to_string, trim, trim_exec};

verus! {

/// `failed to run <cmd>: <error>`.
pub open spec fn spawn_failure_text(cmd: Seq<char>, error: Seq<char>) -> Seq<char> {
    "failed to run "@ + cmd + ": "@ + error
}

/// The message for a command that could not be started; `error` is the
/// operating system's description of the failure.
pub fn spawn_failure(cmd: &str, error: &str) -> (r: String)
    ensures
        r@ == spawn_failure_text(cmd@, error@),
{
    let mut v: Vec<char> = Vec::new();
    extend_str(&mut v, "failed to run ");
    extend_str(&mut v, cmd);
    extend_str(&mut v, ": ");
    extend_str(&mut v, error);
    to_string(&v)
}

/// The message for a command that exited unsuccessfully: its trimmed
/// standard error when there is any (`<cmd> failed: <stderr>`), otherwise
/// its exit status (`<cmd> exited with status <status>`).
pub open spec fn exit_failure_text(cmd: Seq<char>, stderr: Seq<char>, status: Seq<char>) -> Seq<char> {
    let detail = trim(stderr);
    if detail.len() == 0 {
        cmd + " exited with status "@ + status
    } else {
        cmd + " failed: "@ + detail
    }
}

/// The message for a command that exited unsuccessfully; `status` is the
/// exit status as the operating system describes it.
pub fn exit_failure(cmd: &str, stderr: &str, status: &str) -> (r: String)
    ensures
        r@ == exit_failure_text(cmd@, stderr@, status@),
{
    let detail = trim_exec(&chars_of(stderr));
    let mut v: Vec<char> = Vec::new();
    extend_str(&mut v, cmd);
    if detail.len() == 0 {
        extend_str(&mut v, " exited with status ");
        extend_str(&mut v, status);
    } else {
        extend_str(&mut v, " failed: ");
        extend(&mut v, &detail);
    }
    to_string(&v)
}

} // verus!

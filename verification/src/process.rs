//! What is made of a finished child process.

use vstd::prelude::*;
use crate::paths::concat;

verus! {

/// The exit code reported for a child: its own, or, when it has none (it was
/// killed by a signal), 124 after a timeout and 1 otherwise.
pub fn exit_code_of(code: Option<i32>, timed_out: bool) -> (r: i32)
    ensures
        r == match code {
            Some(c) => c,
            None => if timed_out {
                124i32
            } else {
                1i32
            },
        },
{
    match code {
        Some(c) => c,
        None => if timed_out {
            124
        } else {
            1
        },
    }
}

/// Standard output and standard error joined by a newline, the text the cable
/// parser reads.
pub fn combine_output(stdout: &str, stderr: &str) -> (r: String)
    ensures
        r@ == stdout@ + "\n"@ + stderr@,
{
    let a = concat(stdout, "\n");
    concat(a.as_str(), stderr)
}

} // verus!

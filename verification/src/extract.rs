//! Judging the output of the extraction tool.
use vstd::prelude::*;

use crate::text::{chars_of, contains_chars, contains_seq};

verus! {

/// A stream of the extraction tool reports a failure: a script compile error, an unhandled
/// exception, or a C# compiler error.
pub open spec fn stream_reports_failure(s: Seq<char>) -> bool {
    ||| contains_seq(s, "CompilationErrorException"@)
    ||| contains_seq(s, "Unhandled exception:"@)
    ||| contains_seq(s, "error CS"@)
}

fn stream_indicates_failure(stream: &str) -> (r: bool)
    ensures
        r == stream_reports_failure(stream@),
{
    let s = chars_of(stream);
    let compile = chars_of("CompilationErrorException");
    let unhandled = chars_of("Unhandled exception:");
    let cs = chars_of("error CS");
    contains_chars(&s, &compile) || contains_chars(&s, &unhandled) || contains_chars(&s, &cs)
}

/// Whether the tool's standard output or standard error reports a script or runtime
/// failure, though the tool may have exited successfully.
pub fn utmt_output_indicates_failure(stdout: &str, stderr: &str) -> (r: bool)
    ensures
        r == (stream_reports_failure(stdout@) || stream_reports_failure(stderr@)),
{
    stream_indicates_failure(stdout) || stream_indicates_failure(stderr)
}

} // verus!

//! Duration probe: what the prober is asked, and what its sole line of
//! output means. The probe requests only the container-level duration in an
//! unadorned text format and parses it as non-negative decimal seconds.
use vstd::prelude::*;
use vstd::string::StringExecFns;

use crate::clip::TIME_LIMIT_MS;
use crate::numbers::is_decimal_seconds;
use crate::numbers::parse_seconds_ms;
use crate::numbers::seconds_value_ms;
use crate::outcome::PipelineError;
use crate::text::chars_of;
use crate::text::trim_chars;
use crate::text::trim_spec;

verus! {

/// The argument vector that asks the probing tool for the container-level
/// duration alone, in plain text.
pub fn probe_args(path: &str) -> (args: Vec<String>)
    ensures
        args@.len() == 7,
        args@[0]@ == "-v"@,
        args@[1]@ == "error"@,
        args@[2]@ == "-show_entries"@,
        args@[3]@ == "format=duration"@,
        args@[4]@ == "-of"@,
        args@[5]@ == "default=noprint_wrappers=1:nokey=1"@,
        args@[6]@ == path@,
{
    let mut args: Vec<String> = Vec::new();
    args.push(String::from_str("-v"));
    args.push(String::from_str("error"));
    args.push(String::from_str("-show_entries"));
    args.push(String::from_str("format=duration"));
    args.push(String::from_str("-of"));
    args.push(String::from_str("default=noprint_wrappers=1:nokey=1"));
    args.push(String::from_str(path));
    args
}

/// Parses the probe's output: the line, with surrounding whitespace removed,
/// as decimal seconds, in milliseconds. Fails with a parse error naming the
/// raw output exactly when the trimmed text is not a decimal seconds
/// literal in range.
pub fn parse_duration_output(text: &str) -> (r: Result<u64, PipelineError>)
    ensures
        match r {
            Ok(ms) => is_decimal_seconds(trim_spec(text@)) && ms == seconds_value_ms(
                trim_spec(text@),
            ) && ms <= TIME_LIMIT_MS,
            Err(e) => (!is_decimal_seconds(trim_spec(text@)) || seconds_value_ms(trim_spec(text@))
                > TIME_LIMIT_MS) && (e matches PipelineError::Parse(m) && m@
                == "failed to parse duration: "@ + text@),
        },
{
    let v = chars_of(text);
    let trimmed = trim_chars(&v);
    match parse_seconds_ms(&trimmed) {
        Some(ms) => Ok(ms),
        None => {
            let mut m = String::from_str("failed to parse duration: ");
            m.append(text);
            Err(PipelineError::Parse(m))
        },
    }
}

} // verus!

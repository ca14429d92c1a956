//! ANSI styling for the rendered report.

use vstd::prelude::*;
use vstd::string::StringExecFns;

verus! {

/// Wraps a string in the ANSI bold escape sequences.
pub fn to_bold(input: &str) -> (r: String)
    ensures
        r@ == "\x1b[1m"@ + input@ + "\x1b[0m"@,
{
    let mut text = String::from_str("\x1b[1m");
    text.append(input);
    text.append("\x1b[0m");
    text
}

} // verus!

use vstd::prelude::*;
use vstd::string::StringExecFns;

verus! {

/// Style a warning for the diagnostic stream: when that stream is an
/// interactive terminal the message is wrapped in the ANSI codes for bold
/// red, otherwise it is passed through unchanged.
pub fn warning_style(message: String, is_term: bool) -> (r: String)
    ensures
        is_term ==> r@ == "\x1b[31;1m"@ + message@ + "\x1b[0m"@,
        !is_term ==> r@ == message@,
{
    if is_term {
        let mut s = String::from_str("\x1b[31;1m");
        s.append(message.as_str());
        s.append("\x1b[0m");
        proof {
            assert(s@ =~= "\x1b[31;1m"@ + message@ + "\x1b[0m"@);
        }
        s
    } else {
        message
    }
}

} // verus!

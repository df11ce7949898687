//! Where the access log goes, as the `--log` option names it.
use vstd::prelude::*;
use crate::text::{chars_eq_str, chars_of, string_of};

verus! {

/// The destination of the access log.
#[derive(Debug, Clone, PartialEq, Eq)]
pub enum LogChoice {
    /// Standard output.
    Stdout,
    /// No access log.
    Off,
    /// Appended to the file at this path.
    File(String),
}

/// The destination the `--log` value names: `stdout`, `off`, or else the
/// path of a file.
pub fn log_choice(value: &str) -> (c: LogChoice)
    ensures
        value@ == "stdout"@ ==> c == LogChoice::Stdout,
        value@ == "off"@ ==> c == LogChoice::Off,
        value@ != "stdout"@ && value@ != "off"@ ==> (c matches LogChoice::File(p) && p@ == value@),
{
    let v = chars_of(value);
    proof {
        reveal_strlit("stdout");
        reveal_strlit("off");
        assert("stdout"@ != "off"@) by {
            assert("stdout"@.len() != "off"@.len());
        }
    }
    if chars_eq_str(v.as_slice(), "stdout") {
        LogChoice::Stdout
    } else if chars_eq_str(v.as_slice(), "off") {
        LogChoice::Off
    } else {
        LogChoice::File(string_of(value))
    }
}

/// The request-kind letter of a log line: `A` for AJAX, `P` for a page.
pub fn request_kind(is_xhr: bool) -> (c: char)
    ensures
        c == (if is_xhr {
            'A'
        } else {
            'P'
        }),
{
    if is_xhr {
        'A'
    } else {
        'P'
    }
}

} // verus!

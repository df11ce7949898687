//! Starting a server: the error reported when the listener cannot bind.
use vstd::prelude::*;
use crate::error::io_error_text;
use crate::text::{push_str, string_from_chars};

verus! {

/// Why the server failed to start.
#[derive(Debug)]
pub enum StartError {
    /// The listener could not bind (port in use, permission denied, ...).
    Bind(std::io::Error),
}

/// The display text of a failed bind: `failed to bind listener: ` and the
/// I/O error's text.
pub fn bind_error_text(io_text: &str) -> (s: String)
    ensures
        s@ == "failed to bind listener: "@ + io_text@,
{
    let mut v: Vec<char> = Vec::new();
    push_str(&mut v, "failed to bind listener: ");
    push_str(&mut v, io_text);
    string_from_chars(v.as_slice())
}

impl StartError {
    /// The display text of the error: `failed to bind listener: ` and the
    /// I/O error's text (which the operating system words; not stated).
    pub fn to_string(&self) -> (s: String)
        ensures
            crate::text::is_prefix("failed to bind listener: "@, s@),
    {
        match self {
            StartError::Bind(e) => {
                let t = io_error_text(e);
                let s = bind_error_text(t.as_str());
                proof {
                    assert(s@.subrange(0, "failed to bind listener: "@.len() as int)
                        =~= "failed to bind listener: "@);
                }
                s
            },
        }
    }
}

} // verus!

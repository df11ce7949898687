//! The command-line options of the server and the checks across them.
use vstd::prelude::*;
use crate::numeral::dec_chars;
use crate::text::{push_all, push_str, string_from_chars, string_of};

verus! {

/// The command-line options.
#[derive(Debug, Clone)]
pub struct Args {
    /// Root directory to serve.
    pub root: String,
    /// Port to listen on.
    pub port: u16,
    /// Bind address.
    pub bind: String,
    /// Open a browser once listening.
    pub open: bool,
    /// Show hidden files and directories (names starting with `.`).
    pub show_hidden: bool,
    /// Maximum directory depth for browsing (negative: unlimited).
    pub max_depth: i32,
    /// Access log output: `stdout`, `off`, or a file path.
    pub log: String,
    /// Speed limit per request, e.g. `500k`, `1m`.
    pub speed_limit: Option<String>,
    /// Disable WebDAV access.
    pub no_webdav: bool,
    /// WebDAV user (enables Basic authentication for WebDAV when set).
    pub webdav_user: Option<String>,
    /// WebDAV password.
    pub webdav_pass: Option<String>,
    /// Require the WebDAV credentials for browser access too.
    pub webui_auth: bool,
}

/// `host:port` for a host text and a port.
pub open spec fn host_port(host: Seq<char>, port: u16) -> Seq<char> {
    host + ":"@ + crate::text::dec(port as nat)
}

/// `host:port` as text.
pub fn host_port_string(host: &str, port: u16) -> (s: String)
    ensures
        s@ == host_port(host@, port),
{
    let mut v: Vec<char> = Vec::new();
    push_str(&mut v, host);
    push_str(&mut v, ":");
    let d = dec_chars(port as u64);
    push_all(&mut v, d.as_slice());
    string_from_chars(v.as_slice())
}

/// The message given when `--webui-auth` is set without `--webdav-user`.
pub open spec fn webui_auth_error_text() -> Seq<char> {
    "--webui-auth requires --webdav-user to be set (web UI shares WebDAV credentials)"@
}

impl Args {
    /// `bind:port`, the address to listen on.
    pub fn bind_addr(&self) -> (s: String)
        ensures
            s@ == host_port(self.bind@, self.port),
    {
        host_port_string(self.bind.as_str(), self.port)
    }

    /// Checks the options against each other: `--webui-auth` shares the
    /// WebDAV credentials, so it needs `--webdav-user`.
    pub fn validate(&self) -> (r: Result<(), String>)
        ensures
            r is Err <==> (self.webui_auth && self.webdav_user is None),
            r matches Err(m) ==> m@ == webui_auth_error_text(),
            r is Ok ==> (self.webui_auth ==> self.webdav_user is Some),
    {
        if self.webui_auth && self.webdav_user.is_none() {
            return Err(
                string_of(
                    "--webui-auth requires --webdav-user to be set (web UI shares WebDAV credentials)",
                ),
            );
        }
        Ok(())
    }
}

} // verus!

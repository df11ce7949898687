//! The resolved startup configuration of a server.
use vstd::prelude::*;
use crate::cli::{host_port, host_port_string, Args};
use crate::text::{chars_eq_str, chars_of};

verus! {

/// `std::path::PathBuf`, carried through opaquely.
#[verifier::external_type_specification]
#[verifier::external_body]
pub struct ExPathBuf(std::path::PathBuf);

/// `PathBuf::clone`; nothing is stated of the copy.
pub assume_specification[ <std::path::PathBuf as core::clone::Clone>::clone ](
    p: &std::path::PathBuf,
) -> std::path::PathBuf;

/// Everything needed to stand up a listener and serve a directory.
#[derive(Debug, Clone)]
pub struct ServerConfig {
    pub root: std::path::PathBuf,
    pub bind: String,
    pub port: u16,
    pub show_hidden: bool,
    pub max_depth: i32,
    pub speed_limit: Option<u64>,
    pub webdav: bool,
    pub webdav_user: Option<String>,
    pub webdav_pass: Option<String>,
    pub webui_auth: bool,
}

impl ServerConfig {
    /// `bind:port`, suitable for binding a listener.
    pub fn bind_addr(&self) -> (s: String)
        ensures
            s@ == host_port(self.bind@, self.port),
    {
        host_port_string(self.bind.as_str(), self.port)
    }

    /// Whether the configuration binds every interface (`0.0.0.0` or `::`).
    pub fn is_wildcard_bind(&self) -> (r: bool)
        ensures
            r == (self.bind@ == "0.0.0.0"@ || self.bind@ == "::"@),
    {
        let b = chars_of(self.bind.as_str());
        chars_eq_str(b.as_slice(), "0.0.0.0") || chars_eq_str(b.as_slice(), "::")
    }

    /// The configuration for parsed options, given the resolved root
    /// directory and the speed limit in bytes per second that the options
    /// name: WebDAV is on unless `--no-webdav`, every other field is taken
    /// from the options as it stands.
    pub fn from_args(args: &Args, root: std::path::PathBuf, speed_limit: Option<u64>) -> (c: Self)
        ensures
            c.root == root,
            c.bind == args.bind,
            c.port == args.port,
            c.show_hidden == args.show_hidden,
            c.max_depth == args.max_depth,
            c.speed_limit == speed_limit,
            c.webdav == !args.no_webdav,
            c.webdav_user == args.webdav_user,
            c.webdav_pass == args.webdav_pass,
            c.webui_auth == args.webui_auth,
    {
        ServerConfig {
            root,
            bind: args.bind.clone(),
            port: args.port,
            show_hidden: args.show_hidden,
            max_depth: args.max_depth,
            speed_limit,
            webdav: !args.no_webdav,
            webdav_user: args.webdav_user.clone(),
            webdav_pass: args.webdav_pass.clone(),
            webui_auth: args.webui_auth,
        }
    }
}

} // verus!

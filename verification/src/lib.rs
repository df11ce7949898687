//! A file server library: HTTP range handling, WebDAV responses, folder
//! archive planning and the configuration and validation rules around them.
pub mod text;
pub mod numeral;
pub mod range;
pub mod xml;
pub mod auth;
pub mod paths;
pub mod mime_utils;
pub mod error;
pub mod cli;
pub mod config;
pub mod panel;
pub mod netinfo;
pub mod webdav;
pub mod handlers;
pub mod zip_stream;
pub mod throttle;
pub mod logging;
pub mod server;

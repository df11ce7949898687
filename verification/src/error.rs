//! The errors that request handling reports, with their HTTP status, title
//! and display text.
use vstd::prelude::*;
use crate::text::{push_str, string_from_chars};

verus! {

/// `std::io::Error`, carried through opaquely.
#[verifier::external_type_specification]
#[verifier::external_body]
pub struct ExIoError(std::io::Error);

/// What an I/O failure amounts to for the server.
#[derive(Debug, Clone, Copy, PartialEq, Eq, Structural)]
pub enum IoErrorKind {
    NotFound,
    PermissionDenied,
    Other,
}

/// An error of request handling, with its message.
#[derive(Debug)]
pub enum AppError {
    NotFound(String),
    Forbidden(String),
    BadRequest(String),
    Conflict(String),
    Internal(String),
}

/// The HTTP status code of an error.
pub open spec fn status_of(e: AppError) -> u16 {
    match e {
        AppError::NotFound(_) => 404,
        AppError::Forbidden(_) => 403,
        AppError::BadRequest(_) => 400,
        AppError::Conflict(_) => 409,
        AppError::Internal(_) => 500,
    }
}

/// The title shown for an error.
pub open spec fn title_of(e: AppError) -> Seq<char> {
    match e {
        AppError::NotFound(_) => "未找到"@,
        AppError::Forbidden(_) => "禁止访问"@,
        AppError::BadRequest(_) => "请求错误"@,
        AppError::Conflict(_) => "冲突"@,
        AppError::Internal(_) => "服务器内部错误"@,
    }
}

/// The message an error carries.
pub open spec fn message_of(e: AppError) -> Seq<char> {
    match e {
        AppError::NotFound(m) => m@,
        AppError::Forbidden(m) => m@,
        AppError::BadRequest(m) => m@,
        AppError::Conflict(m) => m@,
        AppError::Internal(m) => m@,
    }
}

/// The display text of an error: its title, `: `, and its message.
pub open spec fn display_of(e: AppError) -> Seq<char> {
    title_of(e) + ": "@ + message_of(e)
}

/// The error that an I/O failure of the given kind becomes.
pub open spec fn from_io_spec(kind: IoErrorKind, msg: Seq<char>) -> (Seq<char>, u16) {
    match kind {
        IoErrorKind::NotFound => (msg, 404),
        IoErrorKind::PermissionDenied => (msg, 403),
        IoErrorKind::Other => (msg, 500),
    }
}

/// The kind an I/O error reports (`std::io::Error::kind`, a plain accessor
/// of the error value), sorted into the three kinds the server
/// distinguishes: `NotFound`, `PermissionDenied`, and every other kind.
pub uninterp spec fn io_kind_of(err: std::io::Error) -> IoErrorKind;

/// `std::io::Error::kind`, sorted into the three kinds the server
/// distinguishes. The kind of an error is named by [`io_kind_of`], not
/// stated: the error is opaque here.
#[verifier::external_body]
fn io_error_kind(err: &std::io::Error) -> (k: IoErrorKind)
    ensures
        k == io_kind_of(*err),
{
    match err.kind() {
        std::io::ErrorKind::NotFound => IoErrorKind::NotFound,
        std::io::ErrorKind::PermissionDenied => IoErrorKind::PermissionDenied,
        _ => IoErrorKind::Other,
    }
}

/// The display text of an I/O error (`ToString::to_string`). What text a
/// given error shows is not stated: the error is opaque here.
#[verifier::external_body]
pub(crate) fn io_error_text(err: &std::io::Error) -> (s: String) {
    err.to_string()
}

impl AppError {
    /// The status code, title and message of the error.
    pub fn status_and_message(&self) -> (r: (u16, &'static str, &str))
        ensures
            r.0 == status_of(*self),
            r.1@ == title_of(*self),
            r.2@ == message_of(*self),
    {
        match self {
            AppError::NotFound(msg) => (404, "未找到", msg.as_str()),
            AppError::Forbidden(msg) => (403, "禁止访问", msg.as_str()),
            AppError::BadRequest(msg) => (400, "请求错误", msg.as_str()),
            AppError::Conflict(msg) => (409, "冲突", msg.as_str()),
            AppError::Internal(msg) => (500, "服务器内部错误", msg.as_str()),
        }
    }

    /// The HTTP status code of the error.
    pub fn status(&self) -> (s: u16)
        ensures
            s == status_of(*self),
    {
        self.status_and_message().0
    }

    /// The display text of the error, e.g. `未找到: <message>`.
    pub fn to_string(&self) -> (s: String)
        ensures
            s@ == display_of(*self),
    {
        let (_, title, msg) = self.status_and_message();
        let mut v: Vec<char> = Vec::new();
        push_str(&mut v, title);
        push_str(&mut v, ": ");
        push_str(&mut v, msg);
        string_from_chars(v.as_slice())
    }

    /// The error for an I/O failure of kind `kind` with text `msg`: a
    /// missing file is `NotFound`, a refused permission is `Forbidden`,
    /// anything else is `Internal`.
    pub fn from_io(kind: IoErrorKind, msg: String) -> (e: AppError)
        ensures
            (message_of(e), status_of(e)) == from_io_spec(kind, msg@),
    {
        match kind {
            IoErrorKind::NotFound => AppError::NotFound(msg),
            IoErrorKind::PermissionDenied => AppError::Forbidden(msg),
            IoErrorKind::Other => AppError::Internal(msg),
        }
    }

    /// The error for an I/O error: its kind decides the variant (a missing
    /// file is `NotFound`, a refused permission is `Forbidden`, anything else
    /// is `Internal`), its text becomes the message.
    pub fn from_io_error(err: std::io::Error) -> (e: AppError)
        ensures
            (match io_kind_of(err) {
                IoErrorKind::NotFound => e is NotFound,
                IoErrorKind::PermissionDenied => e is Forbidden,
                IoErrorKind::Other => e is Internal,
            }),
    {
        let kind = io_error_kind(&err);
        let msg = io_error_text(&err);
        AppError::from_io(kind, msg)
    }
}

} // verus!

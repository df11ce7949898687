//! Media types of served files, guessed from their names, and the icon that
//! the listing shows for each entry.
use vstd::prelude::*;
use vstd::string::StringSliceAdditionalSpecFns;
use vstd::utf8::{decode_utf8, valid_utf8};
use crate::paths::{extension, path_extension};
use crate::text::{chars_of, chars_eq_str};

verus! {

/// A media type: its top-level type (`video` in `video/mp4`) and its full
/// text.
pub struct MimeType {
    pub top: String,
    pub text: String,
}

/// The first media type that `mime_guess` associates with the file
/// extension `ext`, as (top-level type, full text).
pub uninterp spec fn mime_guess_for_ext(ext: Seq<char>) -> Option<(Seq<char>, Seq<char>)>;

/// The extension of a path given as text, as text: `None` where the path
/// has none or it is not UTF-8.
pub open spec fn ext_text(path: Seq<char>) -> Option<Seq<char>> {
    match extension(vstd::utf8::encode_utf8(path)) {
        None => None,
        Some(b) => if valid_utf8(b) {
            Some(decode_utf8(b))
        } else {
            None
        },
    }
}

/// `mime_guess::from_path(path).first()`, as plain text. The crate takes
/// the path's extension (`Path::extension`, as UTF-8) and looks it up in its
/// table; a path without one gets no guess. What the table gives for an
/// extension is named, not stated.
#[verifier::external_body]
fn guess_mime(path: &str) -> (r: Option<MimeType>)
    ensures
        match ext_text(path@) {
            None => r is None,
            Some(e) => match mime_guess_for_ext(e) {
                None => r is None,
                Some((t, x)) => r matches Some(m) && m.top@ == t && m.text@ == x,
            },
        },
{
    mime_guess::from_path(path).first().map(
        |m| MimeType { top: m.type_().as_str().to_string(), text: m.to_string() },
    )
}

/// The media type detected for a path: the guess, or
/// `application/octet-stream` when there is none.
pub open spec fn detected(path: Seq<char>) -> (Seq<char>, Seq<char>) {
    match ext_text(path) {
        None => ("application"@, "application/octet-stream"@),
        Some(e) => match mime_guess_for_ext(e) {
            None => ("application"@, "application/octet-stream"@),
            Some(m) => m,
        },
    }
}

/// Detects the media type of `path` from its extension.
pub fn detect_mime(path: &str) -> (m: MimeType)
    ensures
        (m.top@, m.text@) == detected(path@),
{
    mime_or_default(guess_mime(path))
}

/// A guessed media type, or `application/octet-stream` where there is no
/// guess.
pub fn mime_or_default(guess: Option<MimeType>) -> (m: MimeType)
    ensures
        match guess {
            Some(g) => m == g,
            None => m.top@ == "application"@ && m.text@ == "application/octet-stream"@,
        },
{
    match guess {
        Some(g) => g,
        None => MimeType {
            top: crate::text::string_of("application"),
            text: crate::text::string_of("application/octet-stream"),
        },
    }
}

fn top_is(m: &MimeType, t: &str) -> (r: bool)
    ensures
        r == (m.top@ == t@),
{
    let c = chars_of(m.top.as_str());
    chars_eq_str(c.as_slice(), t)
}

/// Whether the type is `video/*`.
pub fn is_video(m: &MimeType) -> (r: bool)
    ensures
        r == (m.top@ == "video"@),
{
    top_is(m, "video")
}

/// Whether the type is `audio/*`.
pub fn is_audio(m: &MimeType) -> (r: bool)
    ensures
        r == (m.top@ == "audio"@),
{
    top_is(m, "audio")
}

/// Whether the type is `image/*`.
pub fn is_image(m: &MimeType) -> (r: bool)
    ensures
        r == (m.top@ == "image"@),
{
    top_is(m, "image")
}

/// Whether the type is `text/*`.
pub fn is_text(m: &MimeType) -> (r: bool)
    ensures
        r == (m.top@ == "text"@),
{
    top_is(m, "text")
}

/// Whether the type is video, audio or an image.
pub fn is_media(m: &MimeType) -> (r: bool)
    ensures
        r == (m.top@ == "video"@ || m.top@ == "audio"@ || m.top@ == "image"@),
{
    is_video(m) || is_audio(m) || is_image(m)
}

/// The media kind a listing shows for a file of type `m`: `video`,
/// `audio`, `image` or `text` by its top-level type, else empty.
pub open spec fn media_kind(m: MimeType) -> Seq<char> {
    if m.top@ == "video"@ {
        "video"@
    } else if m.top@ == "audio"@ {
        "audio"@
    } else if m.top@ == "image"@ {
        "image"@
    } else if m.top@ == "text"@ {
        "text"@
    } else {
        Seq::empty()
    }
}

/// The media kind of a file of type `m` (see [`media_kind`]).
pub fn media_kind_of(m: &MimeType) -> (r: &'static str)
    ensures
        r@ == media_kind(*m),
{
    proof {
        reveal_strlit("");
    }
    if is_video(m) {
        "video"
    } else if is_audio(m) {
        "audio"
    } else if is_image(m) {
        "image"
    } else if is_text(m) {
        "text"
    } else {
        ""
    }
}

/// Unicode lower-casing of a text (`str::to_lowercase`).
pub uninterp spec fn unicode_lowercase(s: Seq<char>) -> Seq<char>;

/// `str::to_lowercase`; what it gives is named, not stated, except that
/// ASCII text lowercases to its ASCII lower case (Unicode maps `A`-`Z` to
/// `a`-`z` and leaves the other ASCII characters as they are).
#[verifier::external_body]
pub(crate) fn lowercase(s: &str) -> (r: String)
    ensures
        r@ == unicode_lowercase(s@),
        (forall|i: int| 0 <= i < s@.len() ==> (#[trigger] s@[i] as u32) < 128) ==> r@
            == crate::text::ascii_lower_seq(s@),
{
    s.to_lowercase()
}

/// The icon for a lower-cased extension whose media type is not video,
/// audio, image or text.
pub open spec fn icon_for_ext(e: Seq<char>) -> Seq<char> {
    if e == "pdf"@ {
        "pdf"@
    } else if e == "zip"@ || e == "tar"@ || e == "gz"@ || e == "bz2"@ || e == "xz"@ || e
        == "7z"@ || e == "rar"@ {
        "archive"@
    } else if e == "doc"@ || e == "docx"@ || e == "odt"@ || e == "rtf"@ {
        "document"@
    } else if e == "xls"@ || e == "xlsx"@ || e == "ods"@ || e == "csv"@ {
        "spreadsheet"@
    } else if e == "ppt"@ || e == "pptx"@ || e == "odp"@ {
        "presentation"@
    } else if e == "rs"@ || e == "py"@ || e == "js"@ || e == "ts"@ || e == "go"@ || e
        == "java"@ || e == "c"@ || e == "cpp"@ || e == "h"@ || e == "rb"@ || e == "php"@ || e
        == "swift"@ || e == "kt"@ || e == "sh"@ || e == "bash"@ || e == "zsh"@ || e == "json"@
        || e == "yaml"@ || e == "yml"@ || e == "toml"@ || e == "xml"@ || e == "html"@ || e
        == "css"@ || e == "sql"@ {
        "code"@
    } else {
        "file"@
    }
}

/// The icon name for a listing entry: `folder` for a directory; for a file,
/// the media kind (`video`, `audio`, `image`, `text`) of its detected type,
/// and failing that a kind chosen by its lower-cased extension.
pub open spec fn icon_of(path: Seq<char>, is_dir: bool) -> Seq<char> {
    if is_dir {
        "folder"@
    } else {
        let top = detected(path).0;
        if top == "video"@ {
            "video"@
        } else if top == "audio"@ {
            "audio"@
        } else if top == "image"@ {
            "image"@
        } else if top == "text"@ {
            "text"@
        } else {
            let e = match ext_text(path) {
                Some(e) => e,
                None => Seq::empty(),
            };
            icon_for_ext(unicode_lowercase(e))
        }
    }
}

fn ext_is_any(e: &[char], names: &[&str]) -> (r: bool)
    ensures
        r == exists|i: int| 0 <= i < names@.len() && e@ == (#[trigger] names@[i])@,
{
    let mut i: usize = 0;
    while i < names.len()
        invariant
            i <= names@.len(),
            forall|k: int| 0 <= k < i ==> e@ != (#[trigger] names@[k])@,
        decreases names.len() - i,
    {
        if chars_eq_str(e, names[i]) {
            return true;
        }
        i = i + 1;
    }
    false
}

/// The icon name for a listing entry at `path`.
pub fn icon_for_path(path: &str, is_dir: bool) -> (r: &'static str)
    ensures
        r@ == icon_of(path@, is_dir),
{
    if is_dir {
        return "folder";
    }
    let m = detect_mime(path);
    if is_video(&m) {
        return "video";
    } else if is_audio(&m) {
        return "audio";
    } else if is_image(&m) {
        return "image";
    } else if is_text(&m) {
        return "text";
    }
    let ext: String = match path_extension(path.as_bytes()) {
        None => crate::text::string_of(""),
        Some(b) => match crate::auth::utf8_string(b) {
            Some(s) => s,
            None => crate::text::string_of(""),
        },
    };
    proof {
        reveal_strlit("");
        assert(""@ =~= Seq::<char>::empty());
    }
    let lower = lowercase(ext.as_str());
    icon_for_extension(lower.as_str())
}

/// The icon for a lower-cased extension whose media type is not video,
/// audio, image or text (see [`icon_for_ext`]).
pub fn icon_for_extension(e: &str) -> (r: &'static str)
    ensures
        r@ == icon_for_ext(e@),
{
    let c = chars_of(e);
    let e = c.as_slice();
    if chars_eq_str(e, "pdf") {
        "pdf"
    } else if ext_is_any(e, &["zip", "tar", "gz", "bz2", "xz", "7z", "rar"]) {
        "archive"
    } else if ext_is_any(e, &["doc", "docx", "odt", "rtf"]) {
        "document"
    } else if ext_is_any(e, &["xls", "xlsx", "ods", "csv"]) {
        "spreadsheet"
    } else if ext_is_any(e, &["ppt", "pptx", "odp"]) {
        "presentation"
    } else if ext_is_any(
        e,
        &[
            "rs",
            "py",
            "js",
            "ts",
            "go",
            "java",
            "c",
            "cpp",
            "h",
            "rb",
            "php",
            "swift",
            "kt",
            "sh",
            "bash",
            "zsh",
            "json",
            "yaml",
            "yml",
            "toml",
            "xml",
            "html",
            "css",
            "sql",
        ],
    ) {
        "code"
    } else {
        "file"
    }
}

} // verus!

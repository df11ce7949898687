//! The rules of the browser-facing handlers: shared state, how a request is
//! recognized (AJAX, folder download), what is answered for a path, and the
//! download headers of a folder archive.
use vstd::prelude::*;
use vstd::utf8::encode_utf8;
use crate::config::ServerConfig;
use crate::error::{message_of, AppError};
use crate::mime_utils::MimeType;
use crate::text::{
    chars_eq, chars_eq_str, chars_of, push_all, push_str, slice_chars, string_from_chars,
    string_of,
};

verus! {

/// What every request handler shares: the served root and the options.
pub struct AppState {
    pub root: std::path::PathBuf,
    pub show_hidden: bool,
    pub max_depth: i32,
    pub speed_limit: Option<u64>,
    pub webdav: bool,
    pub webdav_user: Option<String>,
    pub webdav_pass: Option<String>,
    pub webui_auth: bool,
}

impl AppState {
    /// The state for a configuration (its network fields are not kept).
    pub fn from_config(c: ServerConfig) -> (s: Self)
        ensures
            s.root == c.root,
            s.show_hidden == c.show_hidden,
            s.max_depth == c.max_depth,
            s.speed_limit == c.speed_limit,
            s.webdav == c.webdav,
            s.webdav_user == c.webdav_user,
            s.webdav_pass == c.webdav_pass,
            s.webui_auth == c.webui_auth,
    {
        AppState {
            root: c.root,
            show_hidden: c.show_hidden,
            max_depth: c.max_depth,
            speed_limit: c.speed_limit,
            webdav: c.webdav,
            webdav_user: c.webdav_user,
            webdav_pass: c.webdav_pass,
            webui_auth: c.webui_auth,
        }
    }
}

/// The text views of optional strings.
pub open spec fn opt_view(o: Option<String>) -> Option<Seq<char>> {
    match o {
        Some(s) => Some(s@),
        None => None,
    }
}

/// The text views of optional string slices.
pub open spec fn opt_str_view(o: Option<&str>) -> Option<Seq<char>> {
    match o {
        Some(s) => Some(s@),
        None => None,
    }
}

/// Whether a request with the `Authorization` header text `header` may use
/// WebDAV (and, with web UI authentication, the browser pages): see
/// [`crate::auth::authorized`].
pub fn check_auth(state: &AppState, header: Option<&str>) -> (ok: bool)
    ensures
        ok == crate::auth::authorized(
            opt_view(state.webdav_user),
            opt_view(state.webdav_pass),
            opt_str_view(header),
        ),
{
    let user: Option<&str> = match &state.webdav_user {
        Some(u) => Some(u.as_str()),
        None => None,
    };
    let pass: Option<&str> = match &state.webdav_pass {
        Some(p) => Some(p.as_str()),
        None => None,
    };
    crate::auth::credentials_ok(user, pass, header)
}

/// Whether the browser gate applies to a request: web UI authentication is
/// on and the method is `GET` or `HEAD` (WebDAV methods check credentials
/// themselves).
pub fn needs_webui_auth(webui_auth: bool, method: &str) -> (r: bool)
    ensures
        r == (webui_auth && (method@ == "GET"@ || method@ == "HEAD"@)),
{
    let m = chars_of(method);
    webui_auth && (chars_eq_str(m.as_slice(), "GET") || chars_eq_str(m.as_slice(), "HEAD"))
}

/// Whether a request is an AJAX call: its `X-Requested-With` header reads
/// `XMLHttpRequest`.
pub fn is_ajax(header: Option<&str>) -> (r: bool)
    ensures
        r == (match header {
            Some(h) => h@ == "XMLHttpRequest"@,
            None => false,
        }),
{
    match header {
        Some(h) => {
            let c = chars_of(h);
            chars_eq_str(c.as_slice(), "XMLHttpRequest")
        },
        None => false,
    }
}

/// Whether `q[i..i + 12]` is a whole `&`-separated pair reading
/// `download=zip`.
pub open spec fn zip_pair_at(q: Seq<char>, i: int) -> bool {
    &&& 0 <= i && i + 12 <= q.len()
    &&& i == 0 || q[i - 1] == '&'
    &&& i + 12 == q.len() || q[i + 12] == '&'
    &&& q.subrange(i, i + 12) == "download=zip"@
}

/// Whether a query string asks for a folder archive: one of its
/// `&`-separated pairs is `download=zip`.
pub open spec fn asks_zip(query: Option<Seq<char>>) -> bool {
    match query {
        Some(q) => exists|i: int| #[trigger] zip_pair_at(q, i),
        None => false,
    }
}

/// Whether the query string (if any) asks for a folder archive.
pub fn wants_zip_download(query: Option<&str>) -> (r: bool)
    ensures
        r == asks_zip(opt_str_view(query)),
{
    let q = match query {
        None => return false,
        Some(q) => chars_of(q),
    };
    let pat = chars_of("download=zip");
    proof {
        reveal_strlit("download=zip");
    }
    let n = q.len();
    if n < 12 {
        proof {
            assert forall|i: int| !#[trigger] zip_pair_at(q@, i) by {}
        }
        return false;
    }
    let mut i: usize = 0;
    while i <= n - 12
        invariant
            n == q@.len(),
            n >= 12,
            i <= n - 11,
            pat@ == "download=zip"@,
            pat@.len() == 12,
            query is Some,
            q@ == query->0@,
            forall|k: int| 0 <= k < i ==> !#[trigger] zip_pair_at(q@, k),
        decreases n - i,
    {
        if (i == 0 || q[i - 1] == '&') && (i + 12 == n || q[i + 12] == '&') {
            let piece = slice_chars(q.as_slice(), i, i + 12);
            if chars_eq(piece.as_slice(), pat.as_slice()) {
                proof {
                    assert(zip_pair_at(q@, i as int));
                    assert(opt_str_view(query) == Some(q@));
                    assert(zip_pair_at(opt_str_view(query)->0, i as int));
                }
                return true;
            }
        }
        i = i + 1;
    }
    proof {
        assert forall|k: int| !#[trigger] zip_pair_at(q@, k) by {
            if k >= i {
                assert(k + 12 > n);
            }
        }
    }
    false
}

/// Whether a byte of a file name is percent-encoded in a `filename*`
/// value: every non-ASCII byte, every control byte, and the ASCII
/// characters that are special there (space `"` `%` `'` `(` `)` `*` `,`
/// `/` `:` `;` `<` `=` `>` `?` `@` `[` `\` `]` `{` `}`).
pub open spec fn encoded_in_filename(b: u8) -> bool {
    b >= 0x80 || b < 0x20 || b == 0x7f || b == 0x20 || b == 0x22 || b == 0x25 || b == 0x27 || b
        == 0x28 || b == 0x29 || b == 0x2a || b == 0x2c || b == 0x2f || b == 0x3a || b == 0x3b
        || b == 0x3c || b == 0x3d || b == 0x3e || b == 0x3f || b == 0x40 || b == 0x5b || b == 0x5c
        || b == 0x5d || b == 0x7b || b == 0x7d
}

/// An upper-case hexadecimal digit character.
pub open spec fn hex_upper(d: nat) -> char {
    if d < 10 {
        (('0' as u32) + d) as char
    } else {
        (('A' as u32) + (d - 10)) as char
    }
}

/// `%` and the two upper-case hexadecimal digits of a byte.
pub open spec fn pct_byte(b: u8) -> Seq<char> {
    seq!['%', hex_upper((b / 16) as nat), hex_upper((b % 16) as nat)]
}

/// `percent_encoding::percent_encode_byte`: `%` and the byte's two
/// upper-case hexadecimal digits (the crate reads them from a table).
#[verifier::external_body]
fn percent_encode_byte(b: u8) -> (s: &'static str)
    ensures
        s@ == pct_byte(b),
{
    percent_encoding::percent_encode_byte(b)
}

/// The RFC 5987 value of a file name's UTF-8 bytes: encoded bytes as
/// `%XX`, the others as the ASCII characters they are.
pub open spec fn filename_star(bytes: Seq<u8>) -> Seq<char>
    decreases bytes.len(),
{
    if bytes.len() == 0 {
        Seq::empty()
    } else {
        filename_star(bytes.drop_last()) + (if encoded_in_filename(bytes.last()) {
            pct_byte(bytes.last())
        } else {
            seq![bytes.last() as char]
        })
    }
}

/// The ASCII fallback of a file name: ASCII letters, digits, `.`, `_` and
/// `-` stay, every other character becomes `_`.
pub open spec fn fallback_char(c: char) -> char {
    if ('a' <= c && c <= 'z') || ('A' <= c && c <= 'Z') || ('0' <= c && c <= '9') || c == '.'
        || c == '_' || c == '-' {
        c
    } else {
        '_'
    }
}

/// The fallback name, `download` where the name is empty.
pub open spec fn fallback_name(name: Seq<char>) -> Seq<char> {
    if name.len() == 0 {
        "download"@
    } else {
        Seq::new(name.len(), |i: int| fallback_char(name[i]))
    }
}

/// The `Content-Disposition` of a folder archive named `top_name`:
/// an attachment with the ASCII fallback name and the UTF-8 name, both
/// with `.zip`.
pub open spec fn disposition_text(top_name: Seq<char>) -> Seq<char> {
    "attachment; filename=\""@ + fallback_name(top_name) + ".zip\"; filename*=UTF-8''"@
        + filename_star(encode_utf8(top_name)) + ".zip"@
}

fn byte_encoded(b: u8) -> (r: bool)
    ensures
        r == encoded_in_filename(b),
{
    b >= 0x80 || b < 0x20 || b == 0x7f || b == 0x20 || b == 0x22 || b == 0x25 || b == 0x27 || b
        == 0x28 || b == 0x29 || b == 0x2a || b == 0x2c || b == 0x2f || b == 0x3a || b == 0x3b
        || b == 0x3c || b == 0x3d || b == 0x3e || b == 0x3f || b == 0x40 || b == 0x5b || b == 0x5c
        || b == 0x5d || b == 0x7b || b == 0x7d
}

/// Whether a byte of a path segment is percent-encoded in an href: every
/// non-ASCII byte, every control byte, and space `"` `#` `%` `<` `>` `?`
/// `` ` `` `{` `}` `\`.
pub open spec fn encoded_in_href(b: u8) -> bool {
    b >= 0x80 || b < 0x20 || b == 0x7f || b == 0x20 || b == 0x22 || b == 0x23 || b == 0x25 || b
        == 0x3c || b == 0x3e || b == 0x3f || b == 0x60 || b == 0x7b || b == 0x7d || b == 0x5c
}

/// The href of a `/`-separated relative path's UTF-8 bytes: each segment
/// percent-encoded byte by byte, the `/` separators kept.
pub open spec fn href_text(bytes: Seq<u8>) -> Seq<char>
    decreases bytes.len(),
{
    if bytes.len() == 0 {
        Seq::empty()
    } else {
        href_text(bytes.drop_last()) + (if encoded_in_href(bytes.last()) {
            pct_byte(bytes.last())
        } else {
            seq![bytes.last() as char]
        })
    }
}

fn byte_encoded_in_href(b: u8) -> (r: bool)
    ensures
        r == encoded_in_href(b),
{
    b >= 0x80 || b < 0x20 || b == 0x7f || b == 0x20 || b == 0x22 || b == 0x23 || b == 0x25 || b
        == 0x3c || b == 0x3e || b == 0x3f || b == 0x60 || b == 0x7b || b == 0x7d || b == 0x5c
}

/// Percent-encodes each `/`-separated segment of a relative path for use
/// in an href.
pub fn encode_path_segments(rel: &str) -> (s: String)
    ensures
        s@ == href_text(encode_utf8(rel@)),
{
    let bytes = rel.as_bytes();
    let mut enc: Vec<char> = Vec::new();
    let mut j: usize = 0;
    while j < bytes.len()
        invariant
            j <= bytes@.len(),
            bytes@ == encode_utf8(rel@),
            enc@ == href_text(bytes@.subrange(0, j as int)),
        decreases bytes.len() - j,
    {
        let b = bytes[j];
        if byte_encoded_in_href(b) {
            push_str(&mut enc, percent_encode_byte(b));
        } else {
            enc.push(crate::text::char_of_byte(b));
        }
        proof {
            let t = bytes@.subrange(0, j + 1);
            assert(t.drop_last() == bytes@.subrange(0, j as int));
            assert(t.last() == b);
        }
        j = j + 1;
    }
    proof {
        assert(bytes@.subrange(0, bytes@.len() as int) == bytes@);
    }
    string_from_chars(enc.as_slice())
}

/// The `Content-Disposition` header of a folder archive.
pub fn zip_content_disposition(top_name: &str) -> (s: String)
    ensures
        s@ == disposition_text(top_name@),
{
    let name = chars_of(top_name);
    let mut fb: Vec<char> = Vec::new();
    let mut i: usize = 0;
    while i < name.len()
        invariant
            i <= name@.len(),
            fb@.len() == i,
            forall|k: int| 0 <= k < i ==> fb@[k] == fallback_char(#[trigger] name@[k]),
        decreases name.len() - i,
    {
        let c = name[i];
        if ('a' <= c && c <= 'z') || ('A' <= c && c <= 'Z') || ('0' <= c && c <= '9') || c == '.'
            || c == '_' || c == '-' {
            fb.push(c);
        } else {
            fb.push('_');
        }
        i = i + 1;
    }
    let bytes = top_name.as_bytes();
    let mut enc: Vec<char> = Vec::new();
    let mut j: usize = 0;
    while j < bytes.len()
        invariant
            j <= bytes@.len(),
            bytes@ == encode_utf8(top_name@),
            enc@ == filename_star(bytes@.subrange(0, j as int)),
        decreases bytes.len() - j,
    {
        let b = bytes[j];
        if byte_encoded(b) {
            push_str(&mut enc, percent_encode_byte(b));
        } else {
            enc.push(crate::text::char_of_byte(b));
        }
        proof {
            let t = bytes@.subrange(0, j + 1);
            assert(t.drop_last() == bytes@.subrange(0, j as int));
            assert(t.last() == b);
        }
        j = j + 1;
    }
    proof {
        assert(bytes@.subrange(0, bytes@.len() as int) == bytes@);
    }
    let mut v: Vec<char> = Vec::new();
    push_str(&mut v, "attachment; filename=\"");
    if name.len() == 0 {
        push_str(&mut v, "download");
    } else {
        push_all(&mut v, fb.as_slice());
    }
    push_str(&mut v, ".zip\"; filename*=UTF-8''");
    push_all(&mut v, enc.as_slice());
    push_str(&mut v, ".zip");
    let s = string_from_chars(v.as_slice());
    proof {
        if name@.len() != 0 {
            assert(fb@ =~= fallback_name(top_name@));
        }
        assert(s@ =~= disposition_text(top_name@));
    }
    s
}

/// A directory listing together with what the server offers.
pub struct DirResponse<L> {
    pub listing: L,
    pub webdav: bool,
    pub webdav_auth: bool,
}

/// Wraps a listing with the server's WebDAV availability and whether
/// WebDAV asks for credentials.
pub fn dir_response<L>(listing: L, state: &AppState) -> (r: DirResponse<L>)
    ensures
        r.listing == listing,
        r.webdav == state.webdav,
        r.webdav_auth == (state.webdav_user is Some),
{
    DirResponse { listing, webdav: state.webdav, webdav_auth: state.webdav_user.is_some() }
}

/// The `Content-Type` a file is served with: its media type, with
/// `; charset=utf-8` for text.
pub fn content_type_for(m: &MimeType) -> (s: String)
    ensures
        s@ == (if m.top@ == "text"@ {
            m.text@ + "; charset=utf-8"@
        } else {
            m.text@
        }),
{
    if crate::mime_utils::is_text(m) {
        let mut v: Vec<char> = Vec::new();
        push_str(&mut v, m.text.as_str());
        push_str(&mut v, "; charset=utf-8");
        string_from_chars(v.as_slice())
    } else {
        m.text.clone()
    }
}

/// What a resolved path turned out to be.
#[derive(Clone, Copy, PartialEq, Eq, Debug, Structural)]
pub enum PathKind {
    Dir,
    File,
    Missing,
}

/// What a browser request for a path is answered with.
#[derive(Clone, Copy, PartialEq, Eq, Debug, Structural)]
pub enum PageReply {
    /// The folder as a streamed archive.
    Zip,
    /// The folder's listing as JSON.
    Listing,
    /// The browsing page.
    Page,
    /// The file's contents.
    File,
    /// `404`.
    NotFound,
}

/// The answer to a browser request: a folder is archived when asked, listed
/// for AJAX, else the page; a file is served; anything else is not found.
pub open spec fn page_reply_of(kind: PathKind, zip: bool, ajax: bool) -> PageReply {
    match kind {
        PathKind::Dir => if zip {
            PageReply::Zip
        } else if ajax {
            PageReply::Listing
        } else {
            PageReply::Page
        },
        PathKind::File => PageReply::File,
        PathKind::Missing => PageReply::NotFound,
    }
}

/// A folder download asked for with `?download=zip` is answered with the
/// archive whether or not the request is an AJAX call; without it a folder
/// is listed as JSON exactly for AJAX calls and shown as the page
/// otherwise. The download and AJAX flags do not change the answer for a
/// file (always its contents) or a missing path (always `404`).
pub proof fn page_reply_law(kind: PathKind, zip: bool, ajax: bool, zip2: bool, ajax2: bool)
    ensures
        kind == PathKind::Dir && zip ==> page_reply_of(kind, zip, ajax) == PageReply::Zip,
        kind == PathKind::Dir && !zip ==> (page_reply_of(kind, zip, ajax) == PageReply::Listing
            <==> ajax),
        kind == PathKind::Dir && !zip ==> page_reply_of(kind, zip, ajax) != PageReply::Zip,
        kind != PathKind::Dir ==> page_reply_of(kind, zip, ajax) == page_reply_of(kind, zip2, ajax2),
        kind == PathKind::File ==> page_reply_of(kind, zip, ajax) == PageReply::File,
        kind == PathKind::Missing ==> page_reply_of(kind, zip, ajax) == PageReply::NotFound,
        page_reply_of(kind, zip, ajax) == PageReply::Zip ==> kind == PathKind::Dir && zip,
{
}

/// Decides the answer to a browser request for a resolved path.
pub fn plan_page_reply(kind: PathKind, zip: bool, ajax: bool) -> (r: PageReply)
    ensures
        r == page_reply_of(kind, zip, ajax),
        kind == PathKind::Dir && zip ==> r == PageReply::Zip,
{
    match kind {
        PathKind::Dir => if zip {
            PageReply::Zip
        } else if ajax {
            PageReply::Listing
        } else {
            PageReply::Page
        },
        PathKind::File => PageReply::File,
        PathKind::Missing => PageReply::NotFound,
    }
}

/// The error for a path that is neither a file nor a directory.
pub fn path_not_found() -> (e: AppError)
    ensures
        e is NotFound && message_of(e) == "路径不存在"@,
{
    AppError::NotFound(string_of("路径不存在"))
}

/// The error for a served root that is not a directory.
pub fn root_not_dir() -> (e: AppError)
    ensures
        e is NotFound && message_of(e) == "根目录不是文件夹"@,
{
    AppError::NotFound(string_of("根目录不是文件夹"))
}

} // verus!

//! The WebDAV protocol rules of the server: which method a request names,
//! how its headers read, the XML bodies of its answers, and the decisions
//! that guard writes (copy, move, delete) against destroying data.
use vstd::prelude::*;
use crate::error::{message_of, status_of, AppError};
use crate::paths::{same_path, starts_with_path};
use crate::text::{
    chars_eq_str, chars_of, push_all, push_str, string_from_chars, string_of, trim, trim_chars,
};
use crate::xml::{
    close_text, declaration_text, empty_text, open_attr_text, open_text, resource_xml, tag_text,
    DavResource, XmlWriter,
};

verus! {

/// The `DAV` compliance header value.
pub const DAV_HEADER: &'static str = "1, 2";

/// The methods advertised in `Allow`.
pub const ALLOW_METHODS: &'static str = "OPTIONS, GET, HEAD, PUT, DELETE, MKCOL, COPY, MOVE, PROPFIND, PROPPATCH, LOCK, UNLOCK";

/// The token handed out for every (no-op) lock.
pub const LOCK_TOKEN: &'static str = "opaquelocktoken:echofs-readonly-lock";

/// The WebDAV methods the server answers, and any other.
#[derive(Clone, Copy, PartialEq, Eq, Debug, Structural)]
pub enum DavMethod {
    Propfind,
    Options,
    Lock,
    Unlock,
    Put,
    Delete,
    Mkcol,
    Copy,
    Move,
    Proppatch,
    Other,
}

/// The method a request method name names (names are case-sensitive).
pub open spec fn method_of(name: Seq<char>) -> DavMethod {
    if name == "PROPFIND"@ {
        DavMethod::Propfind
    } else if name == "OPTIONS"@ {
        DavMethod::Options
    } else if name == "LOCK"@ {
        DavMethod::Lock
    } else if name == "UNLOCK"@ {
        DavMethod::Unlock
    } else if name == "PUT"@ {
        DavMethod::Put
    } else if name == "DELETE"@ {
        DavMethod::Delete
    } else if name == "MKCOL"@ {
        DavMethod::Mkcol
    } else if name == "COPY"@ {
        DavMethod::Copy
    } else if name == "MOVE"@ {
        DavMethod::Move
    } else if name == "PROPPATCH"@ {
        DavMethod::Proppatch
    } else {
        DavMethod::Other
    }
}

/// The ten WebDAV method names are told apart: each is classified as its
/// own method, and two names classified as the same method (other than
/// [`DavMethod::Other`]) are the same name.
pub proof fn method_names_law(a: Seq<char>, b: Seq<char>)
    ensures
        method_of(a) == method_of(b) && method_of(a) != DavMethod::Other ==> a == b,
        method_of("PROPFIND"@) == DavMethod::Propfind,
        method_of("OPTIONS"@) == DavMethod::Options,
        method_of("LOCK"@) == DavMethod::Lock,
        method_of("UNLOCK"@) == DavMethod::Unlock,
        method_of("PUT"@) == DavMethod::Put,
        method_of("DELETE"@) == DavMethod::Delete,
        method_of("MKCOL"@) == DavMethod::Mkcol,
        method_of("COPY"@) == DavMethod::Copy,
        method_of("MOVE"@) == DavMethod::Move,
        method_of("PROPPATCH"@) == DavMethod::Proppatch,
{
    reveal_strlit("PROPFIND");
    reveal_strlit("OPTIONS");
    reveal_strlit("LOCK");
    reveal_strlit("UNLOCK");
    reveal_strlit("PUT");
    reveal_strlit("DELETE");
    reveal_strlit("MKCOL");
    reveal_strlit("COPY");
    reveal_strlit("MOVE");
    reveal_strlit("PROPPATCH");
    let names = seq![
        "PROPFIND"@,
        "OPTIONS"@,
        "LOCK"@,
        "UNLOCK"@,
        "PUT"@,
        "DELETE"@,
        "MKCOL"@,
        "COPY"@,
        "MOVE"@,
        "PROPPATCH"@,
    ];
    // The names differ in length or in one of their first three letters.
    assert forall|i: int, j: int| 0 <= i < j < 10 implies names[i] != names[j] by {
        if names[i].len() == names[j].len() {
            assert(names[i][0] != names[j][0] || names[i][1] != names[j][1] || names[i][2] != names[j][2]);
        }
    }
}

/// Classifies a request method name.
pub fn dav_method(name: &str) -> (m: DavMethod)
    ensures
        m == method_of(name@),
{
    let c = chars_of(name);
    let c = c.as_slice();
    if chars_eq_str(c, "PROPFIND") {
        DavMethod::Propfind
    } else if chars_eq_str(c, "OPTIONS") {
        DavMethod::Options
    } else if chars_eq_str(c, "LOCK") {
        DavMethod::Lock
    } else if chars_eq_str(c, "UNLOCK") {
        DavMethod::Unlock
    } else if chars_eq_str(c, "PUT") {
        DavMethod::Put
    } else if chars_eq_str(c, "DELETE") {
        DavMethod::Delete
    } else if chars_eq_str(c, "MKCOL") {
        DavMethod::Mkcol
    } else if chars_eq_str(c, "COPY") {
        DavMethod::Copy
    } else if chars_eq_str(c, "MOVE") {
        DavMethod::Move
    } else if chars_eq_str(c, "PROPPATCH") {
        DavMethod::Proppatch
    } else {
        DavMethod::Other
    }
}

/// Reads the `Depth` header (its text, where present and readable): `0`
/// (after trimming) means 0; anything else, `infinity` and a missing
/// header included, means 1.
pub fn parse_depth(value: Option<&str>) -> (d: u32)
    ensures
        d == (match value {
            Some(v) => if trim(v@) == "0"@ {
                0u32
            } else {
                1u32
            },
            None => 1u32,
        }),
{
    match value {
        Some(v) => {
            let c = chars_of(v);
            let t = trim_chars(c.as_slice());
            if chars_eq_str(t.as_slice(), "0") {
                0
            } else {
                1
            }
        },
        None => 1,
    }
}

/// Reads the `Overwrite` header: only `F` (after trimming) forbids
/// overwriting; a missing header allows it.
pub fn parse_overwrite(value: Option<&str>) -> (ok: bool)
    ensures
        ok == (match value {
            Some(v) => trim(v@) != "F"@,
            None => true,
        }),
{
    match value {
        Some(v) => {
            let c = chars_of(v);
            let t = trim_chars(c.as_slice());
            !chars_eq_str(t.as_slice(), "F")
        },
        None => true,
    }
}

/// The body of the answer to `LOCK`: a fake exclusive write lock on `/`
/// with the request's timeout (`Second-3600` without one) and the fixed
/// token.
pub open spec fn lock_body_text(timeout: Seq<char>) -> Seq<char> {
    declaration_text() + open_text("D:prop xmlns:D=\"DAV:\""@) + open_text("D:lockdiscovery"@)
        + open_text("D:activelock"@) + "<D:locktype><D:write/></D:locktype>\n"@
        + "<D:lockscope><D:exclusive/></D:lockscope>\n"@ + tag_text("D:depth"@, "infinity"@)
        + "<D:owner><D:href>anonymous</D:href></D:owner>\n"@ + tag_text("D:timeout"@, timeout)
        + "<D:locktoken><D:href>"@ + LOCK_TOKEN@ + "</D:href></D:locktoken>\n"@
        + "<D:lockroot><D:href>/</D:href></D:lockroot>\n"@ + close_text("D:activelock"@)
        + close_text("D:lockdiscovery"@) + close_text("D:prop"@)
}

/// The body of the answer to `LOCK`, given the `Timeout` header's text.
pub fn lock_body(timeout: Option<&str>) -> (s: String)
    ensures
        s@ == lock_body_text(
            match timeout {
                Some(t) => t@,
                None => "Second-3600"@,
            },
        ),
{
    let t: &str = match timeout {
        Some(t) => t,
        None => "Second-3600",
    };
    let mut token: Vec<char> = Vec::new();
    push_str(&mut token, "<D:locktoken><D:href>");
    push_str(&mut token, LOCK_TOKEN);
    push_str(&mut token, "</D:href></D:locktoken>\n");
    let token = string_from_chars(token.as_slice());
    let mut w = XmlWriter::new();
    w.declaration();
    w.open("D:prop xmlns:D=\"DAV:\"");
    w.open("D:lockdiscovery");
    w.open("D:activelock");
    w.raw("<D:locktype><D:write/></D:locktype>\n");
    w.raw("<D:lockscope><D:exclusive/></D:lockscope>\n");
    w.tag("D:depth", "infinity");
    w.raw("<D:owner><D:href>anonymous</D:href></D:owner>\n");
    w.tag("D:timeout", t);
    w.raw(token.as_str());
    w.raw("<D:lockroot><D:href>/</D:href></D:lockroot>\n");
    w.close("D:activelock");
    w.close("D:lockdiscovery");
    w.close("D:prop");
    let s = w.finish();
    proof {
        assert(s@ =~= lock_body_text(t@));
    }
    s
}

/// The `Lock-Token` header value: the token in angle brackets.
pub fn lock_token_header() -> (s: String)
    ensures
        s@ == "<"@ + LOCK_TOKEN@ + ">"@,
{
    let mut v: Vec<char> = Vec::new();
    push_str(&mut v, "<");
    push_str(&mut v, LOCK_TOKEN);
    push_str(&mut v, ">");
    string_from_chars(v.as_slice())
}

/// `s` without its leading `/` characters.
pub open spec fn strip_slashes(s: Seq<char>) -> Seq<char>
    decreases s.len(),
{
    if s.len() > 0 && s[0] == '/' {
        strip_slashes(s.drop_first())
    } else {
        s
    }
}

fn strip_leading_slashes(s: &[char]) -> (r: Vec<char>)
    ensures
        r@ == strip_slashes(s@),
{
    let mut i: usize = 0;
    proof {
        assert(s@.subrange(0, s@.len() as int) == s@);
    }
    while i < s.len() && s[i] == '/'
        invariant
            i <= s@.len(),
            strip_slashes(s@) == strip_slashes(s@.subrange(i as int, s@.len() as int)),
        decreases s.len() - i,
    {
        proof {
            let t = s@.subrange(i as int, s@.len() as int);
            assert(t.drop_first() == s@.subrange(i + 1, s@.len() as int));
        }
        i = i + 1;
    }
    let r = crate::text::slice_chars(s, i, s.len());
    proof {
        let t = s@.subrange(i as int, s@.len() as int);
        if t.len() > 0 {
            assert(t[0] == s@[i as int]);
        }
    }
    r
}

/// The href the PROPPATCH answer names for a request path: `/` for the
/// root, else `/` and the path without its leading slashes.
pub open spec fn proppatch_href(rel: Seq<char>) -> Seq<char> {
    if rel.len() == 0 {
        "/"@
    } else {
        "/"@ + strip_slashes(rel)
    }
}

/// The body of the answer to `PROPPATCH`: every change is reported as done.
pub open spec fn proppatch_body_text(rel: Seq<char>) -> Seq<char> {
    declaration_text() + open_attr_text("D:multistatus"@, "xmlns:D=\"DAV:\""@) + open_text(
        "D:response"@,
    ) + tag_text("D:href"@, proppatch_href(rel)) + open_text("D:propstat"@) + empty_text(
        "D:prop"@,
    ) + tag_text("D:status"@, "HTTP/1.1 200 OK"@) + close_text("D:propstat"@) + close_text(
        "D:response"@,
    ) + close_text("D:multistatus"@)
}

/// The body of the answer to `PROPPATCH` on `rel_path`.
pub fn proppatch_body(rel_path: &str) -> (s: String)
    ensures
        s@ == proppatch_body_text(rel_path@),
{
    let rc = chars_of(rel_path);
    let href = if rc.len() == 0 {
        string_of("/")
    } else {
        let mut v: Vec<char> = Vec::new();
        push_str(&mut v, "/");
        let t = strip_leading_slashes(rc.as_slice());
        push_all(&mut v, t.as_slice());
        string_from_chars(v.as_slice())
    };
    let mut w = XmlWriter::new();
    w.declaration();
    w.open_attr("D:multistatus", "xmlns:D=\"DAV:\"");
    w.open("D:response");
    w.tag("D:href", href.as_str());
    w.open("D:propstat");
    w.empty("D:prop");
    w.tag("D:status", "HTTP/1.1 200 OK");
    w.close("D:propstat");
    w.close("D:response");
    w.close("D:multistatus");
    let s = w.finish();
    proof {
        assert(s@ =~= proppatch_body_text(rel_path@));
    }
    s
}

/// The body of a WebDAV error answer: a `<D:error>` holding the message.
pub open spec fn error_body_text(msg: Seq<char>) -> Seq<char> {
    declaration_text() + open_text("D:error xmlns:D=\"DAV:\""@) + tag_text("D:message"@, msg)
        + close_text("D:error"@)
}

/// The status code and XML body of the WebDAV answer to an error.
pub fn error_reply(err: &AppError) -> (r: (u16, String))
    ensures
        r.0 == status_of(*err),
        r.1@ == error_body_text(message_of(*err)),
{
    let (status, _, message) = err.status_and_message();
    let mut w = XmlWriter::new();
    w.declaration();
    w.open("D:error xmlns:D=\"DAV:\"");
    w.tag("D:message", message);
    w.close("D:error");
    let s = w.finish();
    proof {
        assert(s@ =~= error_body_text(message_of(*err)));
    }
    (status, s)
}

/// The multistatus document listing the given resources in order.
pub open spec fn multistatus_text(rs: Seq<DavResource>) -> Seq<char>
    decreases rs.len(),
{
    if rs.len() == 0 {
        declaration_text() + open_attr_text("D:multistatus"@, "xmlns:D=\"DAV:\""@)
    } else {
        multistatus_text(rs.drop_last()) + resource_xml(rs.last())
    }
}

/// The body of the answer to `PROPFIND`: the resources' `<D:response>`
/// blocks inside a `<D:multistatus>`.
pub fn multistatus_body(resources: &Vec<DavResource>) -> (s: String)
    ensures
        s@ == multistatus_text(resources@) + close_text("D:multistatus"@),
{
    let mut w = XmlWriter::new();
    w.declaration();
    w.open_attr("D:multistatus", "xmlns:D=\"DAV:\"");
    let mut i: usize = 0;
    proof {
        assert(resources@.subrange(0, 0) =~= Seq::<DavResource>::empty());
    }
    while i < resources.len()
        invariant
            i <= resources@.len(),
            w@ == multistatus_text(resources@.subrange(0, i as int)),
        decreases resources.len() - i,
    {
        let x = resources[i].to_xml();
        w.raw(x.as_str());
        proof {
            let t = resources@.subrange(0, i + 1);
            assert(t.drop_last() == resources@.subrange(0, i as int));
        }
        i = i + 1;
    }
    proof {
        assert(resources@.subrange(0, resources@.len() as int) == resources@);
    }
    w.close("D:multistatus");
    w.finish()
}


// ---------------------------------------------------------------------------
// Destination and request paths
// ---------------------------------------------------------------------------

/// The path of a URI text as `http::Uri` parses it, or `None` where it
/// does not parse.
pub uninterp spec fn uri_path_of(s: Seq<char>) -> Option<Seq<char>>;

/// `s.parse::<http::Uri>()` and, where it parses, its `path()`. The parse
/// is named, not stated.
#[verifier::external_body]
fn uri_path(s: &str) -> (r: Option<String>)
    ensures
        match r {
            Some(p) => uri_path_of(s@) == Some(p@),
            None => uri_path_of(s@) is None,
        },
{
    s.parse::<axum::http::Uri>().ok().map(|u| u.path().to_string())
}

/// The value of an ASCII hexadecimal digit (either case).
pub open spec fn hex_value(b: u8) -> Option<u8> {
    if 48 <= b <= 57 {
        Some((b - 48) as u8)
    } else if 65 <= b <= 70 {
        Some((b - 55) as u8)
    } else if 97 <= b <= 102 {
        Some((b - 87) as u8)
    } else {
        None
    }
}

/// Percent-decoding of bytes: each `%` followed by two hexadecimal digits
/// becomes the byte they spell; every other byte, a lone `%` included,
/// stands for itself.
pub open spec fn pct_decode(b: Seq<u8>) -> Seq<u8>
    decreases b.len(),
{
    if b.len() == 0 {
        Seq::empty()
    } else if b[0] == 37u8 && b.len() >= 3 && hex_value(b[1]) is Some && hex_value(b[2]) is Some {
        seq![(hex_value(b[1])->0 * 16 + hex_value(b[2])->0) as u8] + pct_decode(
            b.subrange(3, b.len() as int),
        )
    } else {
        seq![b[0]] + pct_decode(b.drop_first())
    }
}

/// `percent_encoding::percent_decode_str(s)` collected into bytes; the
/// crate's iterator decodes as [`pct_decode`] says.
#[verifier::external_body]
fn percent_decode_bytes(s: &str) -> (r: Vec<u8>)
    ensures
        r@ == pct_decode(vstd::utf8::encode_utf8(s@)),
{
    percent_encoding::percent_decode_str(s).collect()
}

/// The text `String::from_utf8_lossy` makes of bytes.
pub uninterp spec fn utf8_lossy_text(b: Seq<u8>) -> Seq<char>;

/// `String::from_utf8_lossy`: the text of UTF-8 bytes unchanged; other
/// bytes get replacement characters, which is named, not stated.
#[verifier::external_body]
fn utf8_lossy(b: &[u8]) -> (r: String)
    ensures
        r@ == utf8_lossy_text(b@),
        vstd::utf8::valid_utf8(b@) ==> r@ == vstd::utf8::decode_utf8(b@),
{
    String::from_utf8_lossy(b).into_owned()
}

/// Whether `s[i..j]` is a whole `/`-separated segment that reads `.` or
/// `..`.
pub open spec fn dot_segment_at(s: Seq<char>, i: int, j: int) -> bool {
    &&& 0 <= i < j <= s.len()
    &&& i == 0 || s[i - 1] == '/'
    &&& j == s.len() || s[j] == '/'
    &&& s[i] == '.'
    &&& j == i + 1 || (j == i + 2 && s[i + 1] == '.')
}

/// Whether the `/`-separated text `s` has a segment that is `.` or `..`.
pub open spec fn has_dot_segment(s: Seq<char>) -> bool {
    exists|i: int, j: int| #[trigger] dot_segment_at(s, i, j)
}

fn dot_segment_in(s: &[char]) -> (r: bool)
    ensures
        r == has_dot_segment(s@),
{
    let n = s.len();
    let mut i: usize = 0;
    while i < n
        invariant
            n == s@.len(),
            i <= n,
            forall|a: int, b: int| 0 <= a < i ==> !#[trigger] dot_segment_at(s@, a, b),
        decreases n - i,
    {
        if (i == 0 || s[i - 1] == '/') && s[i] == '.' {
            if i + 1 == n || s[i + 1] == '/' {
                proof {
                    assert(dot_segment_at(s@, i as int, i + 1));
                }
                return true;
            }
            if s[i + 1] == '.' && (i + 2 == n || s[i + 2] == '/') {
                proof {
                    assert(dot_segment_at(s@, i as int, i + 2));
                }
                return true;
            }
        }
        i = i + 1;
    }
    false
}

/// The destination a `COPY`/`MOVE` names: the `Destination` header's text
/// (where present and readable), reduced to its URI path where it parses as
/// a URI, percent-decoded and read as UTF-8 (lossily). A missing header and
/// a path with a `.` or `..` segment are refused with `400`.
pub open spec fn destination_of(header: Option<Seq<char>>) -> Option<Seq<char>> {
    match header {
        None => None,
        Some(h) => {
            let p = match uri_path_of(h) {
                Some(p) => p,
                None => h,
            };
            let d = utf8_lossy_text(pct_decode(vstd::utf8::encode_utf8(p)));
            if has_dot_segment(d) {
                None
            } else {
                Some(d)
            }
        },
    }
}

/// Accepts a decoded destination path unless it has a `.` or `..`
/// segment, which is refused with `400`.
pub fn checked_destination(decoded: String) -> (r: Result<String, AppError>)
    ensures
        match r {
            Ok(d) => !has_dot_segment(decoded@) && d@ == decoded@,
            Err(e) => has_dot_segment(decoded@) && e is BadRequest && message_of(e)
                == "Destination must not contain '.' or '..' path segments"@,
        },
{
    let dc = chars_of(decoded.as_str());
    if dot_segment_in(dc.as_slice()) {
        return Err(
            AppError::BadRequest(string_of("Destination must not contain '.' or '..' path segments")),
        );
    }
    Ok(decoded)
}

/// Reads the `Destination` header of a `COPY` or `MOVE`.
pub fn parse_destination(header: Option<&str>) -> (r: Result<String, AppError>)
    ensures
        match r {
            Ok(d) => destination_of(
                match header {
                    Some(h) => Some(h@),
                    None => None,
                },
            ) == Some(d@),
            Err(e) => destination_of(
                match header {
                    Some(h) => Some(h@),
                    None => None,
                },
            ) is None && e is BadRequest && (header is None ==> message_of(e)
                == "Missing Destination header"@) && (header is Some ==> message_of(e)
                == "Destination must not contain '.' or '..' path segments"@),
        },
{
    let h = match header {
        None => return Err(AppError::BadRequest(string_of("Missing Destination header"))),
        Some(h) => h,
    };
    let path = match uri_path(h) {
        Some(p) => p,
        None => string_of(h),
    };
    let bytes = percent_decode_bytes(path.as_str());
    checked_destination(utf8_lossy(bytes.as_slice()))
}

/// The non-empty `/`-separated segments of `s`, in order.
pub open spec fn parts(s: Seq<char>) -> Seq<Seq<char>>
    decreases s.len(),
{
    match crate::text::last_index_of(s, '/') {
        None => if s.len() > 0 {
            seq![s]
        } else {
            Seq::empty()
        },
        Some(i) => if i < s.len() {
            parts(s.subrange(0, i as int)) + (if i + 1 < s.len() {
                seq![s.subrange(i as int + 1, s.len() as int)]
            } else {
                Seq::empty()
            })
        } else {
            Seq::empty()
        },
    }
}

/// The segments joined with `/`.
pub open spec fn join_slash(ps: Seq<Seq<char>>) -> Seq<char>
    decreases ps.len(),
{
    if ps.len() == 0 {
        Seq::empty()
    } else if ps.len() == 1 {
        ps[0]
    } else {
        join_slash(ps.drop_last()) + "/"@ + ps.last()
    }
}

/// A request path without leading, trailing or doubled slashes.
pub open spec fn normalized(s: Seq<char>) -> Seq<char> {
    join_slash(parts(s))
}

proof fn lemma_join_nonempty(ps: Seq<Seq<char>>)
    requires
        forall|k: int| 0 <= k < ps.len() ==> (#[trigger] ps[k]).len() > 0,
    ensures
        (join_slash(ps).len() == 0) == (ps.len() == 0),
    decreases ps.len(),
{
    if ps.len() > 1 {
        assert(ps.last() == ps[ps.len() - 1]);
    } else if ps.len() == 1 {
        assert(ps[0].len() > 0);
    }
}

proof fn lemma_parts_nonempty(s: Seq<char>)
    ensures
        forall|k: int| 0 <= k < parts(s).len() ==> (#[trigger] parts(s)[k]).len() > 0,
    decreases s.len(),
{
    match crate::text::last_index_of(s, '/') {
        None => {},
        Some(i) => {
            if i < s.len() {
                let pre = s.subrange(0, i as int);
                lemma_parts_nonempty(pre);
                let a = parts(pre);
                let b: Seq<Seq<char>> = if i + 1 < s.len() {
                    seq![s.subrange(i as int + 1, s.len() as int)]
                } else {
                    Seq::empty()
                };
                assert(parts(s) == a + b);
                assert forall|k: int| 0 <= k < parts(s).len() implies (#[trigger] parts(
                    s,
                )[k]).len() > 0 by {
                    if k < a.len() {
                        assert(parts(s)[k] == a[k]);
                    } else {
                        assert(parts(s)[k] == b[k - a.len()]);
                    }
                }
            }
        },
    }
}

proof fn lemma_last_slash_char(p: Seq<char>, j: int)
    requires
        0 <= j <= p.len(),
        forall|k: int| j <= k < p.len() ==> p[k] != '/',
    ensures
        j > 0 && p[j - 1] == '/' ==> crate::text::last_index_of(p, '/') == Some((j - 1) as nat),
        j == 0 ==> crate::text::last_index_of(p, '/') is None,
    decreases p.len() - j,
{
    if j < p.len() {
        let t = p.drop_last();
        assert forall|k: int| j <= k < t.len() implies t[k] != '/' by {
            assert(t[k] == p[k]);
        }
        lemma_last_slash_char(t, j);
    }
}

proof fn lemma_last_index_props(s: Seq<char>, c: char)
    ensures
        match crate::text::last_index_of(s, c) {
            Some(i) => i < s.len() && s[i as int] == c && forall|k: int| i < k < s.len() ==> s[k]
                != c,
            None => forall|k: int| 0 <= k < s.len() ==> s[k] != c,
        },
    decreases s.len(),
{
    if s.len() > 0 && s.last() != c {
        let t = s.drop_last();
        lemma_last_index_props(t, c);
        match crate::text::last_index_of(t, c) {
            Some(i) => {
                assert forall|k: int| i < k < s.len() implies s[k] != c by {
                    if k < t.len() {
                        assert(s[k] == t[k]);
                    }
                }
            },
            None => {
                assert forall|k: int| 0 <= k < s.len() implies s[k] != c by {
                    if k < t.len() {
                        assert(s[k] == t[k]);
                    }
                }
            },
        }
    }
}

/// Whether no segment holds a `/` and none is empty.
pub open spec fn clean_parts(ps: Seq<Seq<char>>) -> bool {
    forall|k: int|
        0 <= k < ps.len() ==> (#[trigger] ps[k]).len() > 0 && forall|j: int|
            0 <= j < ps[k].len() ==> ps[k][j] != '/'
}

proof fn lemma_parts_clean(s: Seq<char>)
    ensures
        clean_parts(parts(s)),
    decreases s.len(),
{
    lemma_last_index_props(s, '/');
    match crate::text::last_index_of(s, '/') {
        None => {},
        Some(i) => {
            if i < s.len() {
                let pre = s.subrange(0, i as int);
                lemma_parts_clean(pre);
                let a = parts(pre);
                let b: Seq<Seq<char>> = if i + 1 < s.len() {
                    seq![s.subrange(i as int + 1, s.len() as int)]
                } else {
                    Seq::empty()
                };
                assert(parts(s) == a + b);
                assert forall|k: int| 0 <= k < parts(s).len() implies (#[trigger] parts(s)[k]).len()
                    > 0 && forall|j: int| 0 <= j < parts(s)[k].len() ==> parts(s)[k][j] != '/' by {
                    if k < a.len() {
                        assert(parts(s)[k] == a[k]);
                    } else {
                        assert(parts(s)[k] == b[k - a.len()]);
                        assert forall|j: int| 0 <= j < parts(s)[k].len() implies parts(s)[k][j]
                            != '/' by {
                            assert(parts(s)[k][j] == s[i + 1 + j]);
                        }
                    }
                }
            }
        },
    }
}

/// Whether a path text has no leading, trailing or doubled `/`.
pub open spec fn clean_path(p: Seq<char>) -> bool {
    &&& p.len() > 0 ==> p[0] != '/' && p.last() != '/'
    &&& forall|i: int| 0 <= i < p.len() - 1 && #[trigger] p[i] == '/' ==> p[i + 1] != '/'
}

proof fn lemma_join_clean(ps: Seq<Seq<char>>)
    requires
        clean_parts(ps),
    ensures
        clean_path(join_slash(ps)),
        ps.len() > 0 ==> join_slash(ps).len() > 0,
    decreases ps.len(),
{
    reveal_strlit("/");
    if ps.len() == 1 {
        assert(ps[0].len() > 0);
        assert forall|i: int| 0 <= i < ps[0].len() - 1 && #[trigger] ps[0][i] == '/' implies ps[0][i + 1]
            != '/' by {}
    } else if ps.len() > 1 {
        let init = ps.drop_last();
        assert forall|k: int| 0 <= k < init.len() implies (#[trigger] init[k]).len() > 0
            && forall|j: int| 0 <= j < init[k].len() ==> init[k][j] != '/' by {
            assert(init[k] == ps[k]);
        }
        lemma_join_clean(init);
        let a = join_slash(init);
        let l = ps.last();
        assert(l == ps[ps.len() - 1]);
        let r = a + "/"@ + l;
        assert(join_slash(ps) == r);
        assert("/"@ == seq!['/']);
        assert(r[0] == a[0]);
        assert(r.last() == l.last());
        assert forall|i: int| 0 <= i < r.len() - 1 && #[trigger] r[i] == '/' implies r[i + 1] != '/' by {
            if i < a.len() - 1 {
                assert(r[i] == a[i] && r[i + 1] == a[i + 1]);
            } else if i == a.len() - 1 {
                assert(r[i] == a.last());
            } else if i == a.len() {
                assert(r[i + 1] == l[0]);
            } else {
                assert(r[i] == l[i - a.len() - 1]);
            }
        }
    }
}

/// A normalized path has no leading, trailing or doubled `/`.
pub proof fn normalized_is_clean(s: Seq<char>)
    ensures
        clean_path(normalized(s)),
{
    lemma_parts_clean(s);
    lemma_join_clean(parts(s));
}

proof fn lemma_parts_of_join(ps: Seq<Seq<char>>)
    requires
        clean_parts(ps),
    ensures
        parts(join_slash(ps)) == ps,
    decreases ps.len(),
{
    reveal_strlit("/");
    if ps.len() == 0 {
        assert(parts(Seq::<char>::empty()) =~= Seq::<Seq<char>>::empty());
    } else if ps.len() == 1 {
        let p = ps[0];
        lemma_last_slash_char(p, 0);
        assert(parts(p) == seq![p]);
        assert(seq![p] =~= ps);
    } else {
        let init = ps.drop_last();
        assert forall|k: int| 0 <= k < init.len() implies (#[trigger] init[k]).len() > 0
            && forall|j: int| 0 <= j < init[k].len() ==> init[k][j] != '/' by {
            assert(init[k] == ps[k]);
        }
        lemma_parts_of_join(init);
        let a = join_slash(init);
        let l = ps.last();
        assert(l == ps[ps.len() - 1]);
        let r = a + "/"@ + l;
        assert(join_slash(ps) == r);
        assert("/"@ == seq!['/']);
        assert forall|k: int| a.len() + 1 <= k < r.len() implies r[k] != '/' by {
            assert(r[k] == l[k - a.len() - 1]);
        }
        lemma_last_slash_char(r, a.len() as int + 1);
        assert(r.subrange(0, a.len() as int) == a);
        assert(r.subrange(a.len() as int + 1, r.len() as int) == l);
        assert(parts(r) == parts(a) + seq![l]);
        assert(init.push(l) =~= ps);
    }
}

/// Normalizing twice gives what normalizing once gives.
pub proof fn normalize_is_idempotent(s: Seq<char>)
    ensures
        normalized(normalized(s)) == normalized(s),
{
    lemma_parts_clean(s);
    lemma_parts_of_join(parts(s));
}

/// Normalizes a request path: drops empty segments, so no slash leads,
/// trails or doubles (`/sub//` becomes `sub`).
pub fn normalize_rel_path(rel: &str) -> (r: String)
    ensures
        r@ == normalized(rel@),
{
    let s = chars_of(rel);
    let n = s.len();
    let mut out: Vec<char> = Vec::new();
    let mut start: usize = 0;
    let mut i: usize = 0;
    while i <= n
        invariant
            n == s@.len(),
            s@ == rel@,
            start <= i,
            i <= n,
            forall|k: int| start <= k < i && k < n ==> s@[k] != '/',
            start > 0 ==> start <= n && s@[start - 1] == '/',
            start == 0 ==> out@.len() == 0,
            start > 0 ==> out@ == join_slash(parts(s@.subrange(0, start - 1))),
            start > 0 ==> (out@.len() == 0) == (parts(s@.subrange(0, start - 1)).len() == 0),
        decreases n + 1 - i,
    {
        if i == n || s[i] == '/' {
            let ghost q = s@.subrange(0, i as int);
            let seg = crate::text::slice_chars(s.as_slice(), start, i);
            proof {
                assert forall|k: int| start <= k < q.len() implies q[k] != '/' by {
                    assert(q[k] == s@[k]);
                }
                lemma_last_slash_char(q, start as int);
                lemma_parts_nonempty(q);
                if start > 0 {
                    assert(q.subrange(0, start - 1) == s@.subrange(0, start - 1));
                    assert(q.subrange(start as int, q.len() as int) == seg@);
                    lemma_parts_nonempty(s@.subrange(0, start - 1));
                } else {
                    assert(q == seg@);
                }
            }
            let ghost prev_out = out@;
            if seg.len() > 0 {
                if out.len() > 0 {
                    out.push('/');
                }
                crate::text::push_all(&mut out, seg.as_slice());
            }
            proof {
                let ps = parts(q);
                if start > 0 {
                    let pp = parts(s@.subrange(0, start - 1));
                    assert(ps == pp + (if seg@.len() > 0 {
                        seq![seg@]
                    } else {
                        Seq::<Seq<char>>::empty()
                    }));
                    if seg@.len() > 0 {
                        assert(ps.drop_last() == pp);
                        if pp.len() > 0 {
                            reveal_strlit("/");
                            assert(out@ == join_slash(ps));
                        } else {
                            assert(ps == seq![seg@]);
                        }
                    } else {
                        assert(ps == pp);
                    }
                } else {
                    if seg@.len() > 0 {
                        assert(ps == seq![seg@]);
                    } else {
                        assert(ps.len() == 0);
                    }
                }
                assert(out@ == join_slash(ps));
                lemma_join_nonempty(ps);
            }
            if i == n {
                proof {
                    assert(q == s@);
                    assert(out@ == join_slash(parts(q)));
                    assert(out@ == normalized(rel@));
                }
                return string_from_chars(out.as_slice());
            }
            start = i + 1;
        }
        i = i + 1;
    }
    proof {
        assert(false);
    }
    string_from_chars(out.as_slice())
}

/// The texts of a sequence of strings.
pub open spec fn texts(v: Seq<String>) -> Seq<Seq<char>> {
    Seq::new(v.len(), |k: int| v[k]@)
}

/// The non-empty `/`-separated segments of a request path (see [`parts`]).
pub fn request_segments(rel: &str) -> (r: Vec<String>)
    ensures
        texts(r@) == parts(rel@),
{
    let s = chars_of(rel);
    let n = s.len();
    let mut list: Vec<String> = Vec::new();
    let mut start: usize = 0;
    let mut i: usize = 0;
    while i <= n
        invariant
            n == s@.len(),
            s@ == rel@,
            start <= i,
            i <= n,
            forall|k: int| start <= k < i && k < n ==> s@[k] != '/',
            start > 0 ==> start <= n && s@[start - 1] == '/',
            start == 0 ==> list@.len() == 0,
            start > 0 ==> texts(list@) == parts(s@.subrange(0, start - 1)),
        decreases n + 1 - i,
    {
        if i == n || s[i] == '/' {
            let ghost q = s@.subrange(0, i as int);
            let seg = crate::text::slice_chars(s.as_slice(), start, i);
            proof {
                assert forall|k: int| start <= k < q.len() implies q[k] != '/' by {
                    assert(q[k] == s@[k]);
                }
                lemma_last_slash_char(q, start as int);
                if start > 0 {
                    assert(q.subrange(0, start - 1) == s@.subrange(0, start - 1));
                    assert(q.subrange(start as int, q.len() as int) == seg@);
                } else {
                    assert(q == seg@);
                }
            }
            let ghost before = list@;
            if seg.len() > 0 {
                list.push(string_from_chars(seg.as_slice()));
            }
            proof {
                let ps = parts(q);
                if seg@.len() > 0 {
                    assert(texts(list@) =~= texts(before).push(seg@));
                } else {
                    assert(texts(list@) =~= texts(before));
                }
                if start > 0 {
                    let pp = parts(s@.subrange(0, start - 1));
                    assert(ps == pp + (if seg@.len() > 0 {
                        seq![seg@]
                    } else {
                        Seq::<Seq<char>>::empty()
                    }));
                    if seg@.len() > 0 {
                        assert(pp.push(seg@) =~= pp + seq![seg@]);
                    } else {
                        assert(pp + Seq::<Seq<char>>::empty() =~= pp);
                    }
                    assert(texts(list@) == ps);
                } else {
                    assert(texts(before) =~= Seq::<Seq<char>>::empty());
                    if seg@.len() > 0 {
                        assert(ps == seq![seg@]);
                        assert(texts(list@) =~= seq![seg@]);
                    } else {
                        assert(ps.len() == 0);
                        assert(texts(list@) =~= ps);
                    }
                }
            }
            if i == n {
                proof {
                    assert(q == s@);
                }
                return list;
            }
            start = i + 1;
        }
        i = i + 1;
    }
    proof {
        assert(false);
    }
    list
}

/// The href a PROPFIND names for the resource it was asked about: `/` for
/// the root; else `/`, the encoded path, and a trailing `/` for a
/// directory.
pub open spec fn self_href_text(rel: Seq<char>, encoded: Seq<char>, is_dir: bool) -> Seq<char> {
    if rel.len() == 0 {
        "/"@
    } else if is_dir {
        "/"@ + encoded + "/"@
    } else {
        "/"@ + encoded
    }
}

/// The href for the resource a PROPFIND was asked about, given its
/// normalized path and that path's percent-encoded form.
pub fn self_href(rel: &str, encoded: &str, is_dir: bool) -> (s: String)
    ensures
        s@ == self_href_text(rel@, encoded@, is_dir),
{
    if rel.is_empty() {
        return string_of("/");
    }
    let mut v: Vec<char> = Vec::new();
    push_str(&mut v, "/");
    push_str(&mut v, encoded);
    if is_dir {
        push_str(&mut v, "/");
    }
    string_from_chars(v.as_slice())
}

/// The href of the resource at the normalized relative path `rel`: `/`
/// for the root, else `/`, the percent-encoded path, and `/` after a
/// directory.
pub fn resource_href(rel: &str, is_dir: bool) -> (s: String)
    ensures
        s@ == self_href_text(rel@, crate::handlers::href_text(vstd::utf8::encode_utf8(rel@)), is_dir),
{
    let encoded = crate::handlers::encode_path_segments(rel);
    self_href(rel, encoded.as_str(), is_dir)
}


/// The href of a listed child: a directory's gets a trailing `/`.
pub fn child_href(href: &str, is_dir: bool) -> (s: String)
    ensures
        s@ == (if is_dir {
            href@ + "/"@
        } else {
            href@
        }),
{
    let mut v: Vec<char> = Vec::new();
    push_str(&mut v, href);
    if is_dir {
        push_str(&mut v, "/");
    }
    string_from_chars(v.as_slice())
}


// ---------------------------------------------------------------------------
// Resources
// ---------------------------------------------------------------------------

/// The format of creation dates (`2024-01-01T00:00:00Z`).
pub const CREATION_FORMAT: &'static str = "%Y-%m-%dT%H:%M:%SZ";

/// The format of modification dates (`Mon, 01 Jan 2024 00:00:00 GMT`).
pub const MODIFIED_FORMAT: &'static str = "%a, %d %b %Y %H:%M:%S GMT";

/// What chrono prints for the UTC instant `secs` seconds after the Unix
/// epoch in the format `fmt`, or `None` where the instant is out of its
/// range.
pub uninterp spec fn utc_text(secs: i64, fmt: Seq<char>) -> Option<Seq<char>>;

/// `chrono::DateTime::from_timestamp(secs, 0)` formatted with `fmt`. The
/// calendar text is named, not stated.
#[verifier::external_body]
fn format_utc(secs: i64, fmt: &str) -> (r: Option<String>)
    requires
        fmt@ == CREATION_FORMAT@ || fmt@ == MODIFIED_FORMAT@,
    ensures
        match r {
            Some(t) => utc_text(secs, fmt@) == Some(t@),
            None => utc_text(secs, fmt@) is None,
        },
{
    chrono::DateTime::from_timestamp(secs, 0).map(|dt| dt.format(fmt).to_string())
}

/// The date text for an instant, empty where chrono has none.
pub open spec fn date_text(secs: i64, fmt: Seq<char>) -> Seq<char> {
    match utc_text(secs, fmt) {
        Some(t) => t,
        None => Seq::empty(),
    }
}

fn date_string(secs: i64, fmt: &str) -> (s: String)
    requires
        fmt@ == CREATION_FORMAT@ || fmt@ == MODIFIED_FORMAT@,
    ensures
        s@ == date_text(secs, fmt@),
{
    match format_utc(secs, fmt) {
        Some(t) => t,
        None => String::new(),
    }
}

/// The date text for an optional instant.
pub open spec fn opt_date_text(secs: Option<i64>, fmt: Seq<char>) -> Seq<char> {
    match secs {
        Some(t) => date_text(t, fmt),
        None => Seq::empty(),
    }
}

fn opt_date_string(secs: Option<i64>, fmt: &str) -> (s: String)
    requires
        fmt@ == CREATION_FORMAT@ || fmt@ == MODIFIED_FORMAT@,
    ensures
        s@ == opt_date_text(secs, fmt@),
{
    match secs {
        Some(t) => date_string(t, fmt),
        None => String::new(),
    }
}

/// A directory's etag: `"dir-<hash of its href>"`.
pub open spec fn dir_etag(href: Seq<char>) -> Seq<char> {
    "\"dir-"@ + crate::text::dec(crate::xml::djb2(vstd::utf8::encode_utf8(href)) as nat)
        + "\""@
}

/// A file's etag: `"<size in hex>-<modification time in hex>"`, the time
/// printed as its 64-bit two's-complement pattern.
pub open spec fn file_etag(size: u64, mtime: i64) -> Seq<char> {
    "\""@ + crate::text::hex(size as nat) + "-"@ + crate::text::hex((mtime as u64) as nat) + "\""@
}

fn dir_etag_string(href: &str) -> (s: String)
    ensures
        s@ == dir_etag(href@),
{
    let h = crate::xml::simple_hash(href);
    let mut v: Vec<char> = Vec::new();
    push_str(&mut v, "\"dir-");
    push_all(&mut v, crate::numeral::dec_chars(h).as_slice());
    push_str(&mut v, "\"");
    string_from_chars(v.as_slice())
}

fn file_etag_string(size: u64, mtime: i64) -> (s: String)
    ensures
        s@ == file_etag(size, mtime),
{
    let mut v: Vec<char> = Vec::new();
    push_str(&mut v, "\"");
    push_all(&mut v, crate::numeral::hex_chars(size).as_slice());
    push_str(&mut v, "-");
    push_all(&mut v, crate::numeral::hex_chars(mtime as u64).as_slice());
    push_str(&mut v, "\"");
    string_from_chars(v.as_slice())
}

/// The resource describing a directory: named by its last path component
/// (`/` when it has none), with its creation and modification dates where
/// known.
pub fn dir_resource(href: &str, file_name: Option<String>, created: Option<i64>, modified: Option<
    i64,
>) -> (r: DavResource)
    ensures
        r.href@ == href@,
        r.display_name@ == (match file_name {
            Some(n) => n@,
            None => "/"@,
        }),
        r.is_dir,
        r.size == 0,
        r.content_type@ == Seq::<char>::empty(),
        r.creation_date@ == opt_date_text(created, CREATION_FORMAT@),
        r.last_modified@ == opt_date_text(modified, MODIFIED_FORMAT@),
        r.etag@ == dir_etag(href@),
{
    DavResource {
        href: string_of(href),
        display_name: match file_name {
            Some(n) => n,
            None => string_of("/"),
        },
        is_dir: true,
        size: 0,
        content_type: String::new(),
        creation_date: opt_date_string(created, CREATION_FORMAT),
        last_modified: opt_date_string(modified, MODIFIED_FORMAT),
        etag: dir_etag_string(href),
    }
}

/// The resource describing a file at `path` of `size` bytes: named by its
/// last path component (empty when it has none), typed by its extension,
/// with its dates where known and an etag from its size and modification
/// time (0 when unknown).
pub fn file_resource(
    href: &str,
    path: &str,
    file_name: Option<String>,
    size: u64,
    created: Option<i64>,
    modified: Option<i64>,
) -> (r: DavResource)
    ensures
        r.href@ == href@,
        r.display_name@ == (match file_name {
            Some(n) => n@,
            None => Seq::<char>::empty(),
        }),
        !r.is_dir,
        r.size == size,
        r.content_type@ == crate::mime_utils::detected(path@).1,
        r.creation_date@ == opt_date_text(created, CREATION_FORMAT@),
        r.last_modified@ == opt_date_text(modified, MODIFIED_FORMAT@),
        r.etag@ == file_etag(
            size,
            match modified {
                Some(t) => t,
                None => 0,
            },
        ),
{
    let m = crate::mime_utils::detect_mime(path);
    let mtime: i64 = match modified {
        Some(t) => t,
        None => 0,
    };
    DavResource {
        href: string_of(href),
        display_name: match file_name {
            Some(n) => n,
            None => String::new(),
        },
        is_dir: false,
        size,
        content_type: m.text,
        creation_date: opt_date_string(created, CREATION_FORMAT),
        last_modified: opt_date_string(modified, MODIFIED_FORMAT),
        etag: file_etag_string(size, mtime),
    }
}

/// One entry of a directory listing.
#[derive(Debug, Clone)]
pub struct DirEntry {
    pub name: String,
    pub is_dir: bool,
    pub size: u64,
    pub size_display: String,
    pub created: String,
    pub modified: String,
    pub created_ts: i64,
    pub modified_ts: i64,
    pub icon: String,
    pub href: String,
    pub media_type: String,
}

/// Which of two listed entries comes first.
#[derive(Clone, Copy, PartialEq, Eq, Debug, Structural)]
pub enum ListOrder {
    First,
    Equal,
    Second,
}

/// The order of two texts character by character (by code point, a prefix
/// first): `-1`, `0` or `1`.
pub open spec fn text_order(a: Seq<char>, b: Seq<char>) -> int
    decreases a.len(),
{
    if a.len() == 0 {
        if b.len() == 0 {
            0
        } else {
            -1
        }
    } else if b.len() == 0 {
        1
    } else if a[0] < b[0] {
        -1
    } else if a[0] > b[0] {
        1
    } else {
        text_order(a.drop_first(), b.drop_first())
    }
}

/// The order of a listing: directories before files, then by lower-cased
/// name.
pub open spec fn entry_order(a: DirEntry, b: DirEntry) -> ListOrder {
    if a.is_dir && !b.is_dir {
        ListOrder::First
    } else if !a.is_dir && b.is_dir {
        ListOrder::Second
    } else {
        let o = text_order(
            crate::mime_utils::unicode_lowercase(a.name@),
            crate::mime_utils::unicode_lowercase(b.name@),
        );
        if o < 0 {
            ListOrder::First
        } else if o > 0 {
            ListOrder::Second
        } else {
            ListOrder::Equal
        }
    }
}

fn compare_texts(a: &[char], b: &[char]) -> (r: i8)
    ensures
        r == text_order(a@, b@),
{
    let mut i: usize = 0;
    assert(a@.subrange(0, a@.len() as int) =~= a@);
    assert(b@.subrange(0, b@.len() as int) =~= b@);
    while i < a.len() && i < b.len()
        invariant
            i <= a@.len(),
            i <= b@.len(),
            text_order(a@, b@) == text_order(
                a@.subrange(i as int, a@.len() as int),
                b@.subrange(i as int, b@.len() as int),
            ),
        decreases a.len() - i,
    {
        let ghost x = a@.subrange(i as int, a@.len() as int);
        let ghost y = b@.subrange(i as int, b@.len() as int);
        assert(x[0] == a@[i as int] && y[0] == b@[i as int]);
        if a[i] < b[i] {
            return -1;
        }
        if a[i] > b[i] {
            return 1;
        }
        assert(x.drop_first() =~= a@.subrange(i + 1, a@.len() as int));
        assert(y.drop_first() =~= b@.subrange(i + 1, b@.len() as int));
        i = i + 1;
    }
    let ghost x = a@.subrange(i as int, a@.len() as int);
    let ghost y = b@.subrange(i as int, b@.len() as int);
    if i < a.len() {
        assert(y.len() == 0 && x.len() > 0);
        1
    } else if i < b.len() {
        assert(x.len() == 0 && y.len() > 0);
        -1
    } else {
        assert(x.len() == 0 && y.len() == 0);
        0
    }
}

/// Which of two entries a listing shows first (see [`entry_order`]).
pub fn listing_order(a: &DirEntry, b: &DirEntry) -> (r: ListOrder)
    ensures
        r == entry_order(*a, *b),
{
    if a.is_dir && !b.is_dir {
        return ListOrder::First;
    }
    if !a.is_dir && b.is_dir {
        return ListOrder::Second;
    }
    let la = crate::mime_utils::lowercase(a.name.as_str());
    let lb = crate::mime_utils::lowercase(b.name.as_str());
    let ca = chars_of(la.as_str());
    let cb = chars_of(lb.as_str());
    let o = compare_texts(ca.as_slice(), cb.as_slice());
    if o < 0 {
        ListOrder::First
    } else if o > 0 {
        ListOrder::Second
    } else {
        ListOrder::Equal
    }
}

/// The resource describing a listed child at `href`: dates only for
/// positive timestamps; a file is typed by its name and gets the file etag,
/// a directory gets the directory etag.
pub fn entry_to_resource(entry: &DirEntry, href: &str) -> (r: DavResource)
    ensures
        r.href@ == href@,
        r.display_name@ == entry.name@,
        r.is_dir == entry.is_dir,
        r.size == entry.size,
        r.last_modified@ == (if entry.modified_ts > 0 {
            date_text(entry.modified_ts, MODIFIED_FORMAT@)
        } else {
            Seq::<char>::empty()
        }),
        r.creation_date@ == (if entry.created_ts > 0 {
            date_text(entry.created_ts, CREATION_FORMAT@)
        } else {
            Seq::<char>::empty()
        }),
        r.content_type@ == (if entry.is_dir {
            Seq::<char>::empty()
        } else {
            crate::mime_utils::detected(entry.name@).1
        }),
        r.etag@ == (if entry.is_dir {
            dir_etag(href@)
        } else {
            file_etag(entry.size, entry.modified_ts)
        }),
{
    let modified = if entry.modified_ts > 0 {
        date_string(entry.modified_ts, MODIFIED_FORMAT)
    } else {
        String::new()
    };
    let created = if entry.created_ts > 0 {
        date_string(entry.created_ts, CREATION_FORMAT)
    } else {
        String::new()
    };
    let content_type = if entry.is_dir {
        String::new()
    } else {
        crate::mime_utils::detect_mime(entry.name.as_str()).text
    };
    let etag = if entry.is_dir {
        dir_etag_string(href)
    } else {
        file_etag_string(entry.size, entry.modified_ts)
    };
    DavResource {
        href: string_of(href),
        display_name: entry.name.clone(),
        is_dir: entry.is_dir,
        size: entry.size,
        content_type,
        creation_date: created,
        last_modified: modified,
        etag,
    }
}

/// Whether `r` is the resource [`entry_to_resource`] gives for `entry` at
/// `href`.
pub open spec fn entry_resource(entry: DirEntry, href: Seq<char>, r: DavResource) -> bool {
    &&& r.href@ == href
    &&& r.display_name@ == entry.name@
    &&& r.is_dir == entry.is_dir
    &&& r.size == entry.size
    &&& r.last_modified@ == (if entry.modified_ts > 0 {
        date_text(entry.modified_ts, MODIFIED_FORMAT@)
    } else {
        Seq::<char>::empty()
    })
    &&& r.creation_date@ == (if entry.created_ts > 0 {
        date_text(entry.created_ts, CREATION_FORMAT@)
    } else {
        Seq::<char>::empty()
    })
    &&& r.content_type@ == (if entry.is_dir {
        Seq::<char>::empty()
    } else {
        crate::mime_utils::detected(entry.name@).1
    })
    &&& r.etag@ == (if entry.is_dir {
        dir_etag(href)
    } else {
        file_etag(entry.size, entry.modified_ts)
    })
}

/// The href of a listed child: a directory's gets a trailing `/`.
pub open spec fn child_href_text(href: Seq<char>, is_dir: bool) -> Seq<char> {
    if is_dir {
        href + "/"@
    } else {
        href
    }
}

/// The resources a PROPFIND answer lists: the resource asked about first;
/// then, for a directory asked with depth 1 or more, each listed child at
/// its child href, in the listing's order. A file, or depth 0, lists the
/// resource alone.
pub fn propfind_resources(target: DavResource, is_dir: bool, depth: u32, children: &Vec<
    DirEntry,
>) -> (r: Vec<DavResource>)
    ensures
        r@.len() == 1 + (if is_dir && depth >= 1 {
            children@.len() as int
        } else {
            0
        }),
        r@[0] == target,
        forall|k: int|
            0 <= k < r@.len() - 1 ==> entry_resource(
                children@[k],
                child_href_text(children@[k].href@, children@[k].is_dir),
                #[trigger] r@[k + 1],
            ),
{
    let mut r: Vec<DavResource> = Vec::new();
    r.push(target);
    if is_dir && depth >= 1 {
        let mut k: usize = 0;
        while k < children.len()
            invariant
                k <= children@.len(),
                r@.len() == k + 1,
                r@[0] == target,
                forall|m: int|
                    0 <= m < k ==> entry_resource(
                        children@[m],
                        child_href_text(children@[m].href@, children@[m].is_dir),
                        #[trigger] r@[m + 1],
                    ),
            decreases children.len() - k,
        {
            let e = &children[k];
            let h = child_href(e.href.as_str(), e.is_dir);
            let res = entry_to_resource(e, h.as_str());
            let ghost before = r@;
            r.push(res);
            proof {
                assert forall|m: int| 0 <= m < k + 1 implies entry_resource(
                    children@[m],
                    child_href_text(children@[m].href@, children@[m].is_dir),
                    #[trigger] r@[m + 1],
                ) by {
                    if m < k {
                        assert(r@[m + 1] == before[m + 1]);
                    }
                }
            }
            k = k + 1;
        }
    }
    r
}

// ---------------------------------------------------------------------------
// Guards on writes
// ---------------------------------------------------------------------------

/// The status of a successful write: `204 No Content` when the target
/// existed before, `201 Created` when it did not.
pub open spec fn write_status(existed: bool) -> u16 {
    if existed {
        204
    } else {
        201
    }
}

/// The status of a successful `PUT`.
pub fn put_status(existed: bool) -> (s: u16)
    ensures
        s == write_status(existed),
{
    if existed {
        204
    } else {
        201
    }
}

/// Refuses to delete the served root itself (under any spelling that
/// resolves to it).
pub fn check_delete(resolved: &[u8], canonical_root: &[u8]) -> (r: Result<(), AppError>)
    ensures
        r is Err <==> crate::paths::path_eq(resolved@, canonical_root@),
        r matches Err(e) ==> e is Forbidden && message_of(e)
            == "The root directory cannot be deleted"@,
{
    if crate::paths::same_path(resolved, canonical_root) {
        return Err(AppError::Forbidden(string_of("The root directory cannot be deleted")));
    }
    Ok(())
}

/// Refuses to create a collection where something exists; else `201`.
pub fn check_mkcol(exists: bool) -> (r: Result<u16, AppError>)
    ensures
        r is Err <==> exists,
        r matches Err(e) ==> e is Conflict && message_of(e) == "Resource already exists"@,
        r matches Ok(s) ==> s == 201,
{
    if exists {
        return Err(AppError::Conflict(string_of("Resource already exists")));
    }
    Ok(201)
}

/// Whether an overwriting copy or move from `source` to `dest` would
/// destroy more than the request names. For a file source: when the
/// destination is a directory, or resolves to the source itself. For a
/// directory source: when the resolved destination is the source, lies
/// inside it, or contains it; where the destination does not resolve, when
/// it lies (as written) inside the source.
pub open spec fn destructive(
    source: Seq<u8>,
    dest: Seq<u8>,
    source_is_file: bool,
    dest_is_dir: bool,
    canonical_dest: Option<Seq<u8>>,
) -> bool {
    if source_is_file {
        dest_is_dir || (match canonical_dest {
            Some(c) => crate::paths::path_eq(c, source),
            None => false,
        })
    } else {
        match canonical_dest {
            Some(c) => crate::paths::path_eq(c, source) || crate::paths::path_starts_with(c, source)
                || crate::paths::path_starts_with(source, c),
            None => crate::paths::path_starts_with(dest, source),
        }
    }
}

/// For a file source and a destination that is not a directory (an
/// existing regular file, or nothing yet), the destination is destructive
/// exactly when it resolves to the source itself: overwriting any other
/// file is allowed.
pub proof fn file_onto_file_law(
    source: Seq<u8>,
    dest: Seq<u8>,
    canonical_dest: Option<Seq<u8>>,
)
    ensures
        destructive(source, dest, true, false, canonical_dest) <==> (canonical_dest matches Some(c)
            && crate::paths::path_eq(c, source)),
{
}

/// A copy or move onto the source itself, under any spelling that resolves
/// to it, is always refused.
pub proof fn onto_itself_is_destructive(
    source: Seq<u8>,
    dest: Seq<u8>,
    source_is_file: bool,
    dest_is_dir: bool,
    canonical: Seq<u8>,
)
    requires
        crate::paths::path_eq(canonical, source),
    ensures
        destructive(source, dest, source_is_file, dest_is_dir, Some(canonical)),
{
}

/// A file never replaces a directory.
pub proof fn file_never_replaces_directory(
    source: Seq<u8>,
    dest: Seq<u8>,
    canonical_dest: Option<Seq<u8>>,
)
    ensures
        destructive(source, dest, true, true, canonical_dest),
{
}

/// A directory is never copied or moved into its own tree, nor onto a
/// directory that contains it.
pub proof fn directory_never_nests_into_itself(
    source: Seq<u8>,
    dest: Seq<u8>,
    dest_is_dir: bool,
    canonical_dest: Option<Seq<u8>>,
)
    requires
        match canonical_dest {
            Some(c) => crate::paths::path_starts_with(c, source) || crate::paths::path_starts_with(
                source,
                c,
            ),
            None => crate::paths::path_starts_with(dest, source),
        },
    ensures
        destructive(source, dest, false, dest_is_dir, canonical_dest),
{
}

/// Decides [`destructive`] from what the filesystem reports: whether the
/// source is a file, whether the destination is a directory, and the
/// destination's resolved path where it resolves.
pub fn is_destructive_destination(
    source: &[u8],
    dest: &[u8],
    source_is_file: bool,
    dest_is_dir: bool,
    canonical_dest: Option<&[u8]>,
) -> (r: bool)
    ensures
        r == destructive(
            source@,
            dest@,
            source_is_file,
            dest_is_dir,
            match canonical_dest {
                Some(c) => Some(c@),
                None => None,
            },
        ),
        source_is_file && !dest_is_dir ==> (r <==> (canonical_dest matches Some(c)
            && crate::paths::path_eq(c@, source@))),
{
    if source_is_file {
        if dest_is_dir {
            return true;
        }
        return match canonical_dest {
            Some(c) => same_path(c, source),
            None => false,
        };
    }
    match canonical_dest {
        Some(c) => same_path(c, source) || starts_with_path(c, source) || starts_with_path(source, c),
        None => starts_with_path(dest, source),
    }
}

/// Whether a destination that exists is another spelling of the source
/// (such as a case-only rename on a case-insensitive filesystem): a
/// different path that resolves to the source.
pub fn is_same_resource_alias(
    dest_existed: bool,
    source: &[u8],
    dest: &[u8],
    canonical_dest: Option<&[u8]>,
) -> (r: bool)
    ensures
        r == (dest_existed && !crate::paths::path_eq(dest@, source@) && match canonical_dest {
            Some(c) => crate::paths::path_eq(c@, source@),
            None => false,
        }),
{
    if !dest_existed || crate::paths::same_path(dest, source) {
        return false;
    }
    match canonical_dest {
        Some(c) => crate::paths::same_path(c, source),
        None => false,
    }
}

/// The refusal of a destructive destination.
pub open spec fn destructive_message() -> Seq<char> {
    "Destination would overwrite the source or destroy an existing directory"@
}

/// The refusal of an existing destination under `Overwrite: F`.
pub open spec fn no_overwrite_message() -> Seq<char> {
    "Destination exists and Overwrite is F"@
}

/// Decides a `COPY` once the paths are resolved: a destructive destination
/// is refused first, then an existing one under `Overwrite: F`; otherwise
/// the copy goes ahead and answers with [`write_status`].
pub fn copy_outcome(destructive_dest: bool, dest_existed: bool, overwrite: bool) -> (r: Result<
    u16,
    AppError,
>)
    ensures
        match r {
            Err(e) => e is Conflict && (if destructive_dest {
                message_of(e) == destructive_message()
            } else {
                dest_existed && !overwrite && message_of(e) == no_overwrite_message()
            }),
            Ok(s) => !destructive_dest && !(dest_existed && !overwrite) && s == write_status(
                dest_existed,
            ),
        },
{
    if destructive_dest {
        return Err(
            AppError::Conflict(
                string_of("Destination would overwrite the source or destroy an existing directory"),
            ),
        );
    }
    if dest_existed && !overwrite {
        return Err(AppError::Conflict(string_of("Destination exists and Overwrite is F")));
    }
    Ok(put_status(dest_existed))
}

/// How a `MOVE` goes ahead.
pub struct MovePlan {
    /// Remove the existing destination before renaming.
    pub remove_existing: bool,
    /// The status to answer with.
    pub status: u16,
}

/// Decides a `MOVE` once the paths are resolved: unless the destination is
/// an alias of the source, a destructive destination is refused; then an
/// existing one under `Overwrite: F`. An existing destination is removed
/// before the rename, except an alias of the source (removing it would
/// remove the source).
pub fn move_outcome(alias: bool, destructive_dest: bool, dest_existed: bool, overwrite: bool) -> (r:
    Result<MovePlan, AppError>)
    ensures
        match r {
            Err(e) => e is Conflict && (if !alias && destructive_dest {
                message_of(e) == destructive_message()
            } else {
                dest_existed && !overwrite && message_of(e) == no_overwrite_message()
            }),
            Ok(p) => !(!alias && destructive_dest) && !(dest_existed && !overwrite)
                && p.remove_existing == (dest_existed && !alias) && p.status == write_status(
                dest_existed,
            ),
        },
{
    if !alias && destructive_dest {
        return Err(
            AppError::Conflict(
                string_of("Destination would overwrite the source or destroy an existing directory"),
            ),
        );
    }
    if dest_existed && !overwrite {
        return Err(AppError::Conflict(string_of("Destination exists and Overwrite is F")));
    }
    Ok(MovePlan { remove_existing: dest_existed && !alias, status: put_status(dest_existed) })
}

} // verus!

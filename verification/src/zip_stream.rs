//! The rules of folder archives: the top folder's name, which entries of the
//! tree go in (hidden names, symlinks, depth), their names inside the
//! archive, and how each is written.
use vstd::prelude::*;
use crate::error::{message_of, AppError};
use crate::text::{
    ascii_lower_seq, chars_eq_str, chars_of, last_index_of, lower_chars, push_str, rfind_char,
    slice_chars, string_from_chars, string_of,
};

verus! {

/// The extensions whose contents are already compressed and are stored
/// verbatim.
pub open spec fn stored_ext(e: Seq<char>) -> bool {
    e == "zip"@ || e == "gz"@ || e == "tgz"@ || e == "bz2"@ || e == "xz"@ || e == "zst"@ || e
        == "lz4"@ || e == "7z"@ || e == "rar"@ || e == "jar"@ || e == "apk"@ || e == "jpg"@ || e
        == "jpeg"@ || e == "png"@ || e == "gif"@ || e == "webp"@ || e == "avif"@ || e == "heic"@
        || e == "heif"@ || e == "ico"@ || e == "mp4"@ || e == "mkv"@ || e == "mov"@ || e
        == "avi"@ || e == "webm"@ || e == "m4v"@ || e == "flv"@ || e == "wmv"@ || e == "mp3"@
        || e == "aac"@ || e == "flac"@ || e == "ogg"@ || e == "opus"@ || e == "m4a"@ || e
        == "wma"@ || e == "pdf"@ || e == "docx"@ || e == "xlsx"@ || e == "pptx"@ || e == "odt"@
        || e == "ods"@ || e == "odp"@ || e == "epub"@ || e == "woff"@ || e == "woff2"@ || e
        == "br"@ || e == "dmg"@ || e == "iso"@
}

/// What follows the last `.` of a name (the whole name without a `.`).
pub open spec fn last_dot_part(name: Seq<char>) -> Seq<char> {
    match last_index_of(name, '.') {
        Some(i) => name.subrange(i as int + 1, name.len() as int),
        None => name,
    }
}

/// Whether an archive entry is stored rather than deflated: the
/// lower-cased part after its last `.` is a compressed format, and differs
/// from the name itself.
pub open spec fn already_compressed(name: Seq<char>) -> bool {
    let e = ascii_lower_seq(last_dot_part(name));
    e != name && stored_ext(e)
}

/// Whether the entry `name` is stored rather than deflated.
pub fn is_already_compressed(name: &str) -> (r: bool)
    ensures
        r == already_compressed(name@),
{
    let n = chars_of(name);
    let len = n.len();
    let part = match rfind_char(n.as_slice(), '.') {
        Some(i) => {
            assert(i < len);
            slice_chars(n.as_slice(), i + 1, len)
        },
        None => n.clone(),
    };
    proof {
        if last_index_of(n@, '.') is None {
            assert(part@ == n@);
        }
    }
    let e = lower_chars(part.as_slice());
    if crate::text::chars_eq(e.as_slice(), n.as_slice()) {
        return false;
    }
    names_contain(
        e.as_slice(),
        &[
        "zip",
        "gz",
        "tgz",
        "bz2",
        "xz",
        "zst",
        "lz4",
        "7z",
        "rar",
        "jar",
        "apk",
        "jpg",
        "jpeg",
        "png",
        "gif",
        "webp",
        "avif",
        "heic",
        "heif",
        "ico",
        "mp4",
        "mkv",
        "mov",
        "avi",
        "webm",
        "m4v",
        "flv",
        "wmv",
        "mp3",
        "aac",
        "flac",
        "ogg",
        "opus",
        "m4a",
        "wma",
        "pdf",
        "docx",
        "xlsx",
        "pptx",
        "odt",
        "ods",
        "odp",
        "epub",
        "woff",
        "woff2",
        "br",
        "dmg",
        "iso",
        ],
    )
}

fn names_contain(e: &[char], names: &[&str]) -> (r: bool)
    ensures
        r == exists|i: int| 0 <= i < names@.len() && e@ == (#[trigger] names@[i])@,
{
    let mut i: usize = 0;
    while i < names.len()
        invariant
            i <= names@.len(),
            forall|k: int| 0 <= k < i ==> e@ != (#[trigger] names@[k])@,
        decreases names.len() - i,
    {
        if chars_eq_str(e, names[i]) {
            return true;
        }
        i = i + 1;
    }
    false
}

/// The name of the archive's top folder: the folder's own name, or
/// `archive` where it has none (the filesystem root).
pub fn top_folder_name(file_name: Option<String>) -> (s: String)
    ensures
        s@ == (match file_name {
            Some(n) => if n@.len() > 0 {
                n@
            } else {
                "archive"@
            },
            None => "archive"@,
        }),
{
    match file_name {
        Some(n) => {
            if n.as_str().is_empty() {
                string_of("archive")
            } else {
                n
            }
        },
        None => string_of("archive"),
    }
}

/// The number of non-empty `/`-separated segments of a text: the places
/// where a character other than `/` follows the start or a `/`.
pub open spec fn segment_count(s: Seq<char>) -> nat
    decreases s.len(),
{
    if s.len() == 0 {
        0
    } else {
        segment_count(s.drop_last()) + if s.last() != '/' && (s.len() == 1 || s[s.len() - 2]
            == '/') {
            1nat
        } else {
            0nat
        }
    }
}

/// How deep below the served root a folder lies: the number of non-empty
/// segments of its path relative to the root.
pub fn base_depth(rel_from_root: &str) -> (d: u32)
    requires
        segment_count(rel_from_root@) <= u32::MAX,
    ensures
        d == segment_count(rel_from_root@),
{
    let c = chars_of(rel_from_root);
    let mut count: u32 = 0;
    let mut i: usize = 0;
    while i < c.len()
        invariant
            i <= c@.len(),
            c@ == rel_from_root@,
            segment_count(c@) <= u32::MAX,
            count == segment_count(c@.subrange(0, i as int)),
        decreases c.len() - i,
    {
        proof {
            let t = c@.subrange(0, i + 1);
            assert(t.drop_last() == c@.subrange(0, i as int));
            lemma_segment_count_prefix(c@, i + 1);
        }
        if c[i] != '/' && (i == 0 || c[i - 1] == '/') {
            count = count + 1;
        }
        i = i + 1;
    }
    proof {
        assert(c@.subrange(0, c@.len() as int) == c@);
    }
    count
}

proof fn lemma_segment_count_prefix(s: Seq<char>, i: int)
    requires
        0 <= i <= s.len(),
    ensures
        segment_count(s.subrange(0, i)) <= segment_count(s),
    decreases s.len() - i,
{
    if i < s.len() {
        lemma_segment_count_prefix(s, i + 1);
        let t = s.subrange(0, i + 1);
        assert(t.drop_last() == s.subrange(0, i));
    } else {
        assert(s.subrange(0, i) == s);
    }
}

/// The kind of a tree entry (after following a permitted symlink).
#[derive(Clone, Copy, PartialEq, Eq, Debug, Structural)]
pub enum EntryKind {
    Dir,
    File,
    /// Sockets, FIFOs, devices: never archived.
    Other,
}

/// Whether a tree entry goes into the archive: its name is not hidden (a
/// leading `.`) unless hidden entries are shown; it is not a symlink that
/// leaves the served root; it is a directory or a file; and, with a depth
/// limit, a directory lies at most `max_depth` below the root and a file at
/// most `max_depth + 1`.
pub open spec fn admitted(
    name: Seq<char>,
    show_hidden: bool,
    link_inside: bool,
    kind: EntryKind,
    root_depth: u32,
    max_depth: i32,
) -> bool {
    &&& show_hidden || !(name.len() > 0 && name[0] == '.')
    &&& link_inside
    &&& kind != EntryKind::Other
    &&& max_depth >= 0 ==> root_depth <= (if kind == EntryKind::Dir {
        max_depth as int
    } else {
        max_depth + 1
    })
}

/// Loosening the options never drops an entry: one admitted while hidden
/// names are not shown and under a depth limit is still admitted when they
/// are shown and under a larger limit or none (`max_depth < 0`).
pub proof fn looser_options_admit_more(
    name: Seq<char>,
    show_hidden: bool,
    link_inside: bool,
    kind: EntryKind,
    root_depth: u32,
    max_depth: i32,
    looser_max_depth: i32,
)
    requires
        admitted(name, show_hidden, link_inside, kind, root_depth, max_depth),
        looser_max_depth < 0 || (0 <= max_depth <= looser_max_depth),
    ensures
        admitted(name, true, link_inside, kind, root_depth, looser_max_depth),
{
}

/// Decides whether a tree entry goes into the archive (see [`admitted`]).
/// `link_inside` is whether the entry, where it is a symlink, resolves
/// inside the served root (true for other entries); `root_depth` is its
/// depth below the served root.
pub fn admit_entry(
    name: &str,
    show_hidden: bool,
    link_inside: bool,
    kind: EntryKind,
    root_depth: u32,
    max_depth: i32,
) -> (r: bool)
    ensures
        r == admitted(name@, show_hidden, link_inside, kind, root_depth, max_depth),
{
    let n = chars_of(name);
    if !show_hidden && n.len() > 0 && n[0] == '.' {
        return false;
    }
    if !link_inside {
        return false;
    }
    if kind == EntryKind::Other {
        return false;
    }
    if max_depth >= 0 {
        let limit: u64 = if kind == EntryKind::Dir {
            max_depth as u64
        } else {
            max_depth as u64 + 1
        };
        if root_depth as u64 > limit {
            return false;
        }
    }
    true
}

/// Whether a symlink's resolved target stays inside the resolved root.
pub fn link_stays_inside(target: &[u8], canonical_root: &[u8]) -> (r: bool)
    ensures
        r == crate::paths::path_starts_with(target@, canonical_root@),
{
    crate::paths::starts_with_path(target, canonical_root)
}

/// The name of an entry inside the archive: its folder's name, `/`, its
/// own name.
pub fn archive_name(prefix: &str, name: &str) -> (s: String)
    ensures
        s@ == prefix@ + "/"@ + name@,
{
    let mut v: Vec<char> = Vec::new();
    push_str(&mut v, prefix);
    push_str(&mut v, "/");
    push_str(&mut v, name);
    string_from_chars(v.as_slice())
}

/// How one entry is written into the archive.
pub struct EntryPlan {
    /// The entry's name in the archive (a folder's ends with `/`).
    pub name: String,
    /// Stored verbatim rather than deflated.
    pub stored: bool,
    /// Written with 64-bit sizes.
    pub large: bool,
    /// Marked as a directory (`drwxr-xr-x`).
    pub dir_mode: bool,
}

/// Plans the writing of an entry: a folder becomes an empty stored entry
/// whose name ends with `/`; a file is stored when already compressed and
/// gets 64-bit sizes when larger than 4 GiB - 1.
pub fn plan_entry(archive: &str, is_dir: bool, size: u64) -> (p: EntryPlan)
    ensures
        is_dir ==> p.name@ == archive@ + "/"@ && p.stored && p.dir_mode && !p.large,
        !is_dir ==> p.name@ == archive@ && p.stored == already_compressed(archive@) && !p.dir_mode
            && p.large == (size > 0xFFFF_FFFF),
{
    if is_dir {
        let mut v: Vec<char> = Vec::new();
        push_str(&mut v, archive);
        push_str(&mut v, "/");
        EntryPlan { name: string_from_chars(v.as_slice()), stored: true, large: false, dir_mode: true }
    } else {
        EntryPlan {
            name: string_of(archive),
            stored: is_already_compressed(archive),
            large: size > 0xFFFF_FFFF,
            dir_mode: false,
        }
    }
}

/// The directories entered so far while walking a tree for an archive,
/// each as the bytes of its resolved path.
pub struct VisitedDirs {
    dirs: Vec<Vec<u8>>,
}

/// No two entered directories are the same path.
pub open spec fn distinct_paths(s: Seq<Seq<u8>>) -> bool {
    forall|i: int, j: int|
        0 <= i < j < s.len() ==> !crate::paths::path_eq(#[trigger] s[i], #[trigger] s[j])
}

impl View for VisitedDirs {
    type V = Seq<Seq<u8>>;

    closed spec fn view(&self) -> Seq<Seq<u8>> {
        Seq::new(self.dirs@.len(), |i: int| self.dirs@[i]@)
    }
}

impl VisitedDirs {
    /// Whether no directory was entered twice.
    pub open spec fn wf(&self) -> bool {
        distinct_paths(self@)
    }

    /// The walk's start: only the archived folder itself has been entered.
    pub fn new(start: &[u8]) -> (v: Self)
        ensures
            v@ == seq![start@],
            v.wf(),
    {
        let mut dirs: Vec<Vec<u8>> = Vec::new();
        dirs.push(vstd::slice::slice_to_vec(start));
        let v = VisitedDirs { dirs };
        assert(v@ =~= seq![start@]);
        v
    }

    /// Enters `dir` unless the same path was entered before (a symlink
    /// loop); says whether it was entered. So no directory is archived
    /// twice.
    pub fn first_visit(&mut self, dir: &[u8]) -> (fresh: bool)
        requires
            old(self).wf(),
        ensures
            fresh == !(exists|i: int|
                0 <= i < old(self)@.len() && crate::paths::path_eq(#[trigger] old(self)@[i], dir@)),
            final(self)@ == (if fresh {
                old(self)@.push(dir@)
            } else {
                old(self)@
            }),
            final(self).wf(),
    {
        let n = self.dirs.len();
        let mut i: usize = 0;
        while i < n
            invariant
                n == self.dirs@.len(),
                i <= n,
                self@ == old(self)@,
                self.wf(),
                forall|k: int| 0 <= k < i ==> !crate::paths::path_eq(#[trigger] self@[k], dir@),
            decreases n - i,
        {
            if crate::paths::same_path(self.dirs[i].as_slice(), dir) {
                assert(crate::paths::path_eq(self@[i as int], dir@));
                return false;
            }
            i = i + 1;
        }
        let ghost before = self@;
        self.dirs.push(vstd::slice::slice_to_vec(dir));
        assert(self@ =~= before.push(dir@));
        assert forall|a: int, b: int| 0 <= a < b < self@.len() implies !crate::paths::path_eq(
            #[trigger] self@[a],
            #[trigger] self@[b],
        ) by {
            if b == before.len() {
                assert(self@[a] == before[a]);
            } else {
                assert(self@[a] == before[a] && self@[b] == before[b]);
            }
        }
        true
    }
}

/// Whether a request path segment reads `.` or `..`.
pub open spec fn dot_name(name: Seq<char>) -> bool {
    name == seq!['.'] || name == seq!['.', '.']
}

/// Refuses a request path with a `.` or `..` segment (before anything is
/// looked up on disk).
pub fn refuse_dot_segments(segs: &Vec<String>) -> (r: Result<(), AppError>)
    ensures
        r is Err <==> exists|i: int| 0 <= i < segs@.len() && dot_name(#[trigger] segs@[i]@),
        r matches Err(e) ==> e is Forbidden && message_of(e) == "路径不允许包含 . 或 .."@,
{
    let mut i: usize = 0;
    while i < segs.len()
        invariant
            i <= segs@.len(),
            forall|k: int| 0 <= k < i ==> !dot_name(#[trigger] segs@[k]@),
        decreases segs.len() - i,
    {
        let c = chars_of(segs[i].as_str());
        proof {
            reveal_strlit(".");
            reveal_strlit("..");
            assert("."@ =~= seq!['.']);
            assert(".."@ =~= seq!['.', '.']);
        }
        if chars_eq_str(c.as_slice(), ".") || chars_eq_str(c.as_slice(), "..") {
            assert(dot_name(segs@[i as int]@));
            return Err(AppError::Forbidden(string_of("路径不允许包含 . 或 ..")));
        }
        i = i + 1;
    }
    Ok(())
}

/// Why the `i`-th segment (counting from 0) of a resolved request path is
/// refused, if it is: a hidden name (while hidden names are not shown) or a
/// segment beyond the depth limit is forbidden (`403`); a last segment that
/// is neither a directory nor a file is not found (`404`). Every segment but
/// the last is a directory; the last has the kind found on disk; the `i`-th
/// lies at depth `i + 1`, and the limit is as for [`admitted`].
pub open spec fn segment_refusal(
    segs: Seq<String>,
    i: int,
    show_hidden: bool,
    last_kind: EntryKind,
    max_depth: i32,
) -> Option<u16> {
    let kind = if i == segs.len() - 1 {
        last_kind
    } else {
        EntryKind::Dir
    };
    let hidden = !show_hidden && segs[i]@.len() > 0 && segs[i]@[0] == '.';
    let deep = max_depth >= 0 && i + 1 > (if kind == EntryKind::Dir {
        max_depth as int
    } else {
        max_depth + 1
    });
    if hidden || deep {
        Some(403)
    } else if kind == EntryKind::Other {
        Some(404)
    } else {
        None
    }
}

/// The refusal of a hidden or too deep path.
pub open spec fn forbidden_message() -> Seq<char> {
    "禁止访问"@
}

/// Decides whether a resolved request path is served. A path that resolves
/// outside the root is forbidden; otherwise the first refused segment
/// decides: `403` for a hidden or too deep one, `404` for one that is
/// neither a directory nor a file.
pub fn resolve_verdict(
    segs: &Vec<String>,
    show_hidden: bool,
    max_depth: i32,
    inside: bool,
    last_kind: EntryKind,
) -> (r: Result<(), AppError>)
    ensures
        match r {
            Ok(()) => inside && forall|i: int|
                0 <= i < segs@.len() ==> #[trigger] segment_refusal(
                    segs@,
                    i,
                    show_hidden,
                    last_kind,
                    max_depth,
                ) is None,
            Err(e) => if !inside {
                e is Forbidden && message_of(e) == "禁止访问根目录之外的路径"@
            } else {
                exists|i: int|
                    0 <= i < segs@.len() && (forall|j: int|
                        0 <= j < i ==> #[trigger] segment_refusal(
                            segs@,
                            j,
                            show_hidden,
                            last_kind,
                            max_depth,
                        ) is None) && match #[trigger] segment_refusal(
                        segs@,
                        i,
                        show_hidden,
                        last_kind,
                        max_depth,
                    ) {
                        Some(403) => e is Forbidden && message_of(e) == forbidden_message(),
                        Some(404) => e is NotFound && message_of(e) == "路径不存在"@,
                        _ => false,
                    }
            },
        },
{
    if !inside {
        return Err(AppError::Forbidden(string_of("禁止访问根目录之外的路径")));
    }
    let n = segs.len();
    let mut i: usize = 0;
    while i < n
        invariant
            n == segs@.len(),
            i <= n,
            inside,
            forall|k: int|
                0 <= k < i ==> #[trigger] segment_refusal(segs@, k, show_hidden, last_kind, max_depth)
                    is None,
        decreases n - i,
    {
        let kind = if i + 1 == n {
            last_kind
        } else {
            EntryKind::Dir
        };
        let c = chars_of(segs[i].as_str());
        let hidden = !show_hidden && c.len() > 0 && c[0] == '.';
        let deep = if max_depth >= 0 {
            let limit: u64 = if kind == EntryKind::Dir {
                max_depth as u64
            } else {
                max_depth as u64 + 1
            };
            i as u64 + 1 > limit
        } else {
            false
        };
        if hidden || deep {
            assert(segment_refusal(segs@, i as int, show_hidden, last_kind, max_depth) == Some(
                403u16,
            ));
            return Err(AppError::Forbidden(string_of("禁止访问")));
        }
        if kind == EntryKind::Other {
            assert(segment_refusal(segs@, i as int, show_hidden, last_kind, max_depth) == Some(
                404u16,
            ));
            return Err(AppError::NotFound(string_of("路径不存在")));
        }
        assert(segment_refusal(segs@, i as int, show_hidden, last_kind, max_depth) is None);
        i = i + 1;
    }
    Ok(())
}

} // verus!

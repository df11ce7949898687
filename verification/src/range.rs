//! HTTP `Range: bytes=...` handling: which byte span of a file a request asks
//! for, and the status and headers of the answer.
use vstd::prelude::*;
use crate::numeral::{dec_chars, parse_u64};
use crate::text::{
    dec, find_char, index_of, is_prefix, parse_u64_spec, push_all, push_str, slice_chars,
    starts_with, string_from_chars, trim, trim_chars, chars_of,
};

verus! {

/// An inclusive byte span `start..=end` of a file.
pub struct RangeSpec {
    pub start: u64,
    pub end: u64,
}

/// The span that the header `h` selects in a file of `size` bytes, as the
/// pair `(start, end)`, or `None` where the header is malformed or cannot be
/// satisfied:
/// - it must begin with `bytes=`; the rest is split at its first `-` into a
///   start and an end text, each trimmed of whitespace;
/// - an empty start asks for the last `n` bytes, `n` being the end text,
///   which must satisfy `0 < n <= size`;
/// - otherwise the start must be `< size` and not after the end; an empty end
///   means the last byte, and an end past the file is cut to its last byte.
pub open spec fn range_of(h: Seq<char>, size: u64) -> Option<(u64, u64)> {
    let prefix = seq!['b', 'y', 't', 'e', 's', '='];
    if !is_prefix(prefix, h) {
        None
    } else {
        let rest = h.subrange(6, h.len() as int);
        match index_of(rest, '-') {
            None => None,
            Some(i) => {
                let start_s = trim(rest.subrange(0, i as int));
                let end_s = trim(rest.subrange(i as int + 1, rest.len() as int));
                if start_s.len() == 0 {
                    match parse_u64_spec(end_s) {
                        None => None,
                        Some(n) => if n == 0 || n > size {
                            None
                        } else {
                            Some(((size - n) as u64, (size - 1) as u64))
                        },
                    }
                } else {
                    match parse_u64_spec(start_s) {
                        None => None,
                        Some(start) => {
                            let end: Option<int> = if end_s.len() == 0 {
                                Some(size - 1)
                            } else {
                                match parse_u64_spec(end_s) {
                                    Some(e) => Some(e as int),
                                    None => None,
                                }
                            };
                            match end {
                                None => None,
                                Some(e) => if start > e || start >= size {
                                    None
                                } else {
                                    Some(
                                        (
                                            start,
                                            (if e < size - 1 {
                                                e
                                            } else {
                                                size - 1
                                            }) as u64,
                                        ),
                                    )
                                },
                            }
                        },
                    }
                }
            },
        }
    }
}

/// Parses a `Range` header against a file of `file_size` bytes.
pub fn parse_range(range_header: &str, file_size: u64) -> (r: Option<RangeSpec>)
    ensures
        match r {
            Some(spec) => range_of(range_header@, file_size) == Some((spec.start, spec.end)),
            None => range_of(range_header@, file_size) is None,
        },
        r matches Some(spec) ==> spec.start <= spec.end < file_size,
{
    let h = chars_of(range_header);
    let prefix = chars_of("bytes=");
    proof {
        reveal_strlit("bytes=");
        assert(prefix@ == seq!['b', 'y', 't', 'e', 's', '=']);
    }
    if !starts_with(h.as_slice(), prefix.as_slice()) {
        return None;
    }
    let rest = slice_chars(h.as_slice(), 6, h.len());
    let dash = match find_char(rest.as_slice(), '-') {
        Some(i) => i,
        None => return None,
    };
    let start_raw = slice_chars(rest.as_slice(), 0, dash);
    let end_raw = slice_chars(rest.as_slice(), dash + 1, rest.len());
    let start_s = trim_chars(start_raw.as_slice());
    let end_s = trim_chars(end_raw.as_slice());
    if start_s.len() == 0 {
        let n = match parse_u64(end_s.as_slice()) {
            Some(n) => n,
            None => return None,
        };
        if n == 0 || n > file_size {
            return None;
        }
        Some(RangeSpec { start: file_size - n, end: file_size - 1 })
    } else {
        let start = match parse_u64(start_s.as_slice()) {
            Some(v) => v,
            None => return None,
        };
        if start >= file_size {
            return None;
        }
        // From here on the file holds at least one byte.
        let end: u64 = if end_s.len() == 0 {
            file_size - 1
        } else {
            match parse_u64(end_s.as_slice()) {
                Some(e) => e,
                None => return None,
            }
        };
        if start > end {
            return None;
        }
        let end = if end < file_size - 1 {
            end
        } else {
            file_size - 1
        };
        Some(RangeSpec { start, end })
    }
}

/// Every span a header selects lies inside the file: it starts no later
/// than it ends, and ends before the file does; so an empty file has no
/// satisfiable range.
pub proof fn range_within_file(h: Seq<char>, size: u64)
    ensures
        range_of(h, size) matches Some((s, e)) ==> s <= e < size,
{
}

/// A suffix range `bytes=-n` that is satisfied covers exactly the last `n`
/// bytes of the file.
pub proof fn suffix_range_is_last_bytes(h: Seq<char>, size: u64)
    requires
        is_prefix(seq!['b', 'y', 't', 'e', 's', '='], h),
        index_of(h.subrange(6, h.len() as int), '-') == Some(0nat),
    ensures
        range_of(h, size) matches Some((s, e)) ==> e == size - 1 && parse_u64_spec(
            trim(h.subrange(7, h.len() as int)),
        ) == Some((size - s) as u64),
{
    let rest = h.subrange(6, h.len() as int);
    assert(rest.subrange(0, 0) =~= Seq::<char>::empty());
    assert(trim(Seq::<char>::empty()) =~= Seq::<char>::empty());
    assert(rest.subrange(1, rest.len() as int) =~= h.subrange(7, h.len() as int));
}

/// The number of bytes in the span.
pub open spec fn span_len(start: u64, end: u64) -> int {
    end - start + 1
}

/// What is answered to a request for a file of a given size.
pub enum RangeReply {
    /// `200 OK` with the whole file of this many bytes.
    Full { length: u64 },
    /// `206 Partial Content` with the bytes `start..=end`, `length` of them,
    /// and this `Content-Range` header.
    Partial { start: u64, end: u64, length: u64, content_range: String },
    /// `416 Range Not Satisfiable` with this `Content-Range` header.
    Unsatisfiable { content_range: String },
}

/// The status code of a reply.
pub open spec fn reply_status(r: RangeReply) -> u16 {
    match r {
        RangeReply::Full { .. } => 200,
        RangeReply::Partial { .. } => 206,
        RangeReply::Unsatisfiable { .. } => 416,
    }
}

/// The text `bytes {start}-{end}/{size}`.
pub open spec fn content_range_text(start: u64, end: u64, size: u64) -> Seq<char> {
    seq!['b', 'y', 't', 'e', 's', ' '] + dec(start as nat) + seq!['-'] + dec(end as nat) + seq![
        '/',
    ] + dec(size as nat)
}

/// The text `bytes */{size}`.
pub open spec fn unsatisfied_range_text(size: u64) -> Seq<char> {
    seq!['b', 'y', 't', 'e', 's', ' ', '*', '/'] + dec(size as nat)
}

/// Decides the reply to a request for a file of `file_size` bytes:
/// without a `Range` header the whole file; with one that selects a span,
/// that span with its `Content-Range`; with any other, `416`.
pub fn plan_range_reply(range_header: Option<&str>, file_size: u64) -> (r: RangeReply)
    ensures
        match range_header {
            None => r == RangeReply::Full { length: file_size },
            Some(h) => match range_of(h@, file_size) {
                Some((s, e)) => r matches RangeReply::Partial { start, end, length, content_range }
                    && start == s && end == e && length == span_len(s, e)
                    && content_range@ == content_range_text(s, e, file_size),
                None => r matches RangeReply::Unsatisfiable { content_range }
                    && content_range@ == unsatisfied_range_text(file_size),
            },
        },
{
    match range_header {
        None => RangeReply::Full { length: file_size },
        Some(h) => match parse_range(h, file_size) {
            Some(spec) => {
                let mut v: Vec<char> = Vec::new();
                push_str(&mut v, "bytes ");
                let a = dec_chars(spec.start);
                push_all(&mut v, a.as_slice());
                push_str(&mut v, "-");
                let b = dec_chars(spec.end);
                push_all(&mut v, b.as_slice());
                push_str(&mut v, "/");
                let c = dec_chars(file_size);
                push_all(&mut v, c.as_slice());
                proof {
                    reveal_strlit("bytes ");
                    reveal_strlit("-");
                    reveal_strlit("/");
                }
                RangeReply::Partial {
                    start: spec.start,
                    end: spec.end,
                    length: spec.end - spec.start + 1,
                    content_range: string_from_chars(v.as_slice()),
                }
            },
            None => {
                let mut v: Vec<char> = Vec::new();
                push_str(&mut v, "bytes */");
                let c = dec_chars(file_size);
                push_all(&mut v, c.as_slice());
                proof {
                    reveal_strlit("bytes */");
                }
                RangeReply::Unsatisfiable { content_range: string_from_chars(v.as_slice()) }
            },
        },
    }
}

} // verus!

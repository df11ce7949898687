//! HTTP Basic authentication: decoding the base64 credentials and checking
//! them against the configured user and password.
use vstd::prelude::*;
use vstd::utf8::{decode_utf8, valid_utf8};
use crate::text::{
    chars_eq, chars_eq_str, chars_of, find_char, index_of, is_prefix, slice_chars, starts_with,
    trim, trim_chars,
};

verus! {

/// The value of a character in the standard base64 alphabet
/// (`A`-`Z`, `a`-`z`, `0`-`9`, `+`, `/`).
pub open spec fn sextet(c: char) -> Option<u8> {
    if 'A' <= c && c <= 'Z' {
        Some(((c as u32) - ('A' as u32)) as u8)
    } else if 'a' <= c && c <= 'z' {
        Some(((c as u32) - ('a' as u32) + 26) as u8)
    } else if '0' <= c && c <= '9' {
        Some(((c as u32) - ('0' as u32) + 52) as u8)
    } else if c == '+' {
        Some(62)
    } else if c == '/' {
        Some(63)
    } else {
        None
    }
}

/// The sextets of `s` up to its first `=` (or its end), or `None` when a
/// character before that point is not in the alphabet.
pub open spec fn sextets(s: Seq<char>) -> Option<Seq<u8>>
    decreases s.len(),
{
    if s.len() == 0 || s[0] == '=' {
        Some(Seq::empty())
    } else {
        match sextet(s[0]) {
            None => None,
            Some(v) => match sextets(s.drop_first()) {
                None => None,
                Some(rest) => Some(seq![v] + rest),
            },
        }
    }
}

/// The bytes that a run of sextets encodes: every four sextets give three
/// bytes; a trailing group of three gives two bytes, of two gives one byte,
/// of one gives none.
pub open spec fn b64_bytes(v: Seq<u8>) -> Seq<u8>
    decreases v.len(),
{
    if v.len() >= 4 {
        seq![
            (v[0] * 4 + v[1] / 16) as u8,
            ((v[1] % 16) * 16 + v[2] / 4) as u8,
            ((v[2] % 4) * 64 + v[3]) as u8,
        ] + b64_bytes(v.subrange(4, v.len() as int))
    } else if v.len() == 3 {
        seq![(v[0] * 4 + v[1] / 16) as u8, ((v[1] % 16) * 16 + v[2] / 4) as u8]
    } else if v.len() == 2 {
        seq![(v[0] * 4 + v[1] / 16) as u8]
    } else {
        Seq::empty()
    }
}

/// What decoding the base64 text `s` gives: the trimmed text's sextets up to
/// the first `=`, decoded to bytes, read as UTF-8; `None` for a character
/// outside the alphabet or bytes that are not UTF-8.
pub open spec fn base64_text(s: Seq<char>) -> Option<Seq<char>> {
    match sextets(trim(s)) {
        None => None,
        Some(v) => if valid_utf8(b64_bytes(v)) {
            Some(decode_utf8(b64_bytes(v)))
        } else {
            None
        },
    }
}

/// `String::from_utf8(bytes).ok()`: the text the bytes encode in UTF-8, or
/// `None` when they are not UTF-8.
#[verifier::external_body]
pub(crate) fn utf8_string(bytes: Vec<u8>) -> (r: Option<String>)
    ensures
        r is Some <==> valid_utf8(bytes@),
        r matches Some(s) ==> s@ == decode_utf8(bytes@),
{
    String::from_utf8(bytes).ok()
}

fn sextet_of(c: char) -> (r: Option<u8>)
    ensures
        r == sextet(c),
{
    if 'A' <= c && c <= 'Z' {
        Some(((c as u32) - ('A' as u32)) as u8)
    } else if 'a' <= c && c <= 'z' {
        Some(((c as u32) - ('a' as u32) + 26) as u8)
    } else if '0' <= c && c <= '9' {
        Some(((c as u32) - ('0' as u32) + 52) as u8)
    } else if c == '+' {
        Some(62)
    } else if c == '/' {
        Some(63)
    } else {
        None
    }
}

proof fn lemma_sextets_step(s: Seq<char>, i: int)
    requires
        0 <= i < s.len(),
        s[i] != '=',
    ensures
        sextets(s.subrange(i, s.len() as int)) == match sextet(s[i]) {
            None => None,
            Some(v) => match sextets(s.subrange(i + 1, s.len() as int)) {
                None => None,
                Some(rest) => Some(seq![v] + rest),
            },
        },
{
    let t = s.subrange(i, s.len() as int);
    assert(t[0] == s[i]);
    assert(t.drop_first() == s.subrange(i + 1, s.len() as int));
}

proof fn lemma_b64_concat(a: Seq<u8>, b: Seq<u8>)
    requires
        a.len() % 4 == 0,
    ensures
        b64_bytes(a + b) == b64_bytes(a) + b64_bytes(b),
    decreases a.len(),
{
    if a.len() > 0 {
        let ab = a + b;
        assert(ab.subrange(4, ab.len() as int) == a.subrange(4, a.len() as int) + b);
        lemma_b64_concat(a.subrange(4, a.len() as int), b);
        assert(ab[0] == a[0] && ab[1] == a[1] && ab[2] == a[2] && ab[3] == a[3]);
    } else {
        assert(a + b == b);
    }
}

/// Decodes a run of sextets to bytes.
fn sextets_to_bytes(v: &[u8]) -> (r: Vec<u8>)
    requires
        forall|k: int| 0 <= k < v@.len() ==> #[trigger] v@[k] < 64,
    ensures
        r@ == b64_bytes(v@),
{
    let mut out: Vec<u8> = Vec::new();
    let mut i: usize = 0;
    while v.len() - i >= 4
        invariant
            i % 4 == 0,
            i <= v@.len(),
            forall|k: int| 0 <= k < v@.len() ==> #[trigger] v@[k] < 64,
            out@ == b64_bytes(v@.subrange(0, i as int)),
        decreases v.len() - i,
    {
        let ghost before = out@;
        let a = v[i];
        let b = v[i + 1];
        let c = v[i + 2];
        let d = v[i + 3];
        proof {
            assert(v@[i as int] < 64 && v@[i + 1] < 64 && v@[i + 2] < 64 && v@[i + 3] < 64);
        }
        out.push(a * 4 + b / 16);
        out.push((b % 16) * 16 + c / 4);
        out.push((c % 4) * 64 + d);
        proof {
            let q = v@.subrange(i as int, i + 4);
            lemma_b64_concat(v@.subrange(0, i as int), q);
            assert(v@.subrange(0, i + 4) == v@.subrange(0, i as int) + q);
            assert(q.subrange(4, 4) == Seq::<u8>::empty());
            assert(q[0] == a && q[1] == b && q[2] == c && q[3] == d);
            assert(b64_bytes(q.subrange(4, 4)) == Seq::<u8>::empty());
            assert(b64_bytes(q) == seq![(a * 4 + b / 16) as u8, ((b % 16) * 16 + c / 4) as u8, ((c % 4) * 64 + d) as u8]);
        }
        i = i + 4;
    }
    let rem = v.len() - i;
    let ghost tail = v@.subrange(i as int, v@.len() as int);
    proof {
        lemma_b64_concat(v@.subrange(0, i as int), tail);
        assert(v@ == v@.subrange(0, i as int) + tail);
    }
    proof {
        if rem >= 1 { assert(v@[i as int] < 64); assert(tail[0] == v@[i as int]); }
        if rem >= 2 { assert(v@[i + 1] < 64); assert(tail[1] == v@[i + 1]); }
        if rem >= 3 { assert(v@[i + 2] < 64); assert(tail[2] == v@[i + 2]); }
    }
    if rem == 3 {
        let a = v[i];
        let b = v[i + 1];
        let c = v[i + 2];
        out.push(a * 4 + b / 16);
        out.push((b % 16) * 16 + c / 4);
    } else if rem == 2 {
        let a = v[i];
        let b = v[i + 1];
        out.push(a * 4 + b / 16);
    }
    out
}

/// Decodes standard base64 (padding optional) into text; `None` for a
/// character outside the alphabet before the first `=`, or for bytes that
/// are not UTF-8.
pub fn base64_decode(input: &str) -> (r: Option<String>)
    ensures
        match r {
            Some(s) => base64_text(input@) == Some(s@),
            None => base64_text(input@) is None,
        },
{
    let raw = chars_of(input);
    let t = trim_chars(raw.as_slice());
    let mut vals: Vec<u8> = Vec::new();
    let mut i: usize = 0;
    proof {
        assert(t@.subrange(0, t@.len() as int) == t@);
        match sextets(t@) {
            None => {},
            Some(rest) => { assert(vals@ + rest == rest); },
        }
    }
    while i < t.len()
        invariant_except_break
            i <= t@.len(),
            t@ == trim(input@),
            forall|k: int| 0 <= k < vals@.len() ==> #[trigger] vals@[k] < 64,
            sextets(t@) == match sextets(t@.subrange(i as int, t@.len() as int)) {
                None => None,
                Some(rest) => Some(vals@ + rest),
            },
        ensures
            t@ == trim(input@),
            forall|k: int| 0 <= k < vals@.len() ==> #[trigger] vals@[k] < 64,
            sextets(t@) == Some(vals@),
        decreases t.len() - i,
    {
        let c = t[i];
        if c == '=' {
            proof {
                let s = t@.subrange(i as int, t@.len() as int);
                assert(s[0] == '=');
                assert(vals@ + Seq::<u8>::empty() == vals@);
            }
            break;
        }
        proof {
            lemma_sextets_step(t@, i as int);
        }
        match sextet_of(c) {
            None => {
                return None;
            },
            Some(v) => {
                proof {
                    let old_vals = vals@;
                    match sextets(t@.subrange(i + 1, t@.len() as int)) {
                        None => {},
                        Some(rest) => {
                            assert(old_vals + (seq![v] + rest) == old_vals.push(v) + rest);
                        },
                    }
                }
                vals.push(v);
                i = i + 1;
            },
        }
    }
    proof {
        if i == t.len() && sextets(t@) != Some(vals@) {
            assert(t@.subrange(i as int, t@.len() as int).len() == 0);
            assert(vals@ + Seq::<u8>::empty() == vals@);
        }
    }
    let bytes = sextets_to_bytes(vals.as_slice());
    utf8_string(bytes)
}

/// Whether a request with the `Authorization` header text `header` passes:
/// always when no user is configured; otherwise the header must read
/// `Basic ` followed by base64 text that decodes to `user:password`, split
/// at its first `:`, matching the configured user and the configured
/// password (empty when none is configured).
pub open spec fn authorized(
    user: Option<Seq<char>>,
    pass: Option<Seq<char>>,
    header: Option<Seq<char>>,
) -> bool {
    match user {
        None => true,
        Some(u) => {
            let p = match pass {
                Some(p) => p,
                None => Seq::empty(),
            };
            match header {
                None => false,
                Some(h) => if is_prefix("Basic "@, h) {
                    match base64_text(h.subrange(6, h.len() as int)) {
                        None => false,
                        Some(d) => match index_of(d, ':') {
                            None => false,
                            Some(i) => d.subrange(0, i as int) == u && d.subrange(
                                i as int + 1,
                                d.len() as int,
                            ) == p,
                        },
                    }
                } else {
                    false
                },
            }
        },
    }
}

/// The base64 character of a sextet `v < 64`.
pub open spec fn b64_char(v: int) -> char {
    if v < 26 {
        (('A' as int) + v) as char
    } else if v < 52 {
        (('a' as int) + v - 26) as char
    } else if v < 62 {
        (('0' as int) + v - 52) as char
    } else if v == 62 {
        '+'
    } else {
        '/'
    }
}

proof fn lemma_b64_char(v: int)
    requires
        0 <= v < 64,
    ensures
        sextet(b64_char(v)) == Some(v as u8),
        b64_char(v) != '=',
        !crate::text::is_ws(b64_char(v)),
{
}

/// The sextets that standard base64 writes for bytes: four for every three
/// bytes; three for a trailing pair, two for a trailing byte.
pub open spec fn b64_sextets(b: Seq<u8>) -> Seq<u8>
    decreases b.len(),
{
    if b.len() >= 3 {
        seq![
            b[0] / 4,
            ((b[0] % 4) * 16 + b[1] / 16) as u8,
            ((b[1] % 16) * 4 + b[2] / 64) as u8,
            b[2] % 64,
        ] + b64_sextets(b.subrange(3, b.len() as int))
    } else if b.len() == 2 {
        seq![b[0] / 4, ((b[0] % 4) * 16 + b[1] / 16) as u8, ((b[1] % 16) * 4) as u8]
    } else if b.len() == 1 {
        seq![b[0] / 4, ((b[0] % 4) * 16) as u8]
    } else {
        Seq::empty()
    }
}

/// Standard base64 of bytes, padded with `=` to a multiple of four
/// characters.
pub open spec fn b64_encode(b: Seq<u8>) -> Seq<char>
    decreases b.len(),
{
    let v = b64_sextets(b);
    if b.len() >= 3 {
        seq![b64_char(v[0] as int), b64_char(v[1] as int), b64_char(v[2] as int), b64_char(v[3] as int)]
            + b64_encode(b.subrange(3, b.len() as int))
    } else if b.len() == 2 {
        seq![b64_char(v[0] as int), b64_char(v[1] as int), b64_char(v[2] as int), '=']
    } else if b.len() == 1 {
        seq![b64_char(v[0] as int), b64_char(v[1] as int), '=', '=']
    } else {
        Seq::empty()
    }
}

/// The `Authorization` header text a client sends for `user` and
/// `password`: `Basic ` and the base64 of `user:password` in UTF-8.
pub open spec fn basic_header(user: Seq<char>, password: Seq<char>) -> Seq<char> {
    "Basic "@ + b64_encode(vstd::utf8::encode_utf8(user + ":"@ + password))
}

proof fn lemma_group_bytes(b0: u8, b1: u8, b2: u8)
    ensures
        ({
            let s0 = b0 / 4;
            let s1 = ((b0 % 4) * 16 + b1 / 16) as u8;
            let s2 = ((b1 % 16) * 4 + b2 / 64) as u8;
            let s3 = b2 % 64;
            &&& s0 < 64 && s1 < 64 && s2 < 64 && s3 < 64
            &&& (s0 * 4 + s1 / 16) as u8 == b0
            &&& ((s1 % 16) * 16 + s2 / 4) as u8 == b1
            &&& ((s2 % 4) * 64 + s3) as u8 == b2
        }),
{
    assert(((b0 / 4) * 4 + (((b0 % 4) * 16 + b1 / 16) as u8) / 16) as u8 == b0) by (bit_vector);
    assert((((((b0 % 4) * 16 + b1 / 16) as u8) % 16) * 16 + (((b1 % 16) * 4 + b2 / 64) as u8) / 4)
        as u8 == b1) by (bit_vector);
    assert((((((b1 % 16) * 4 + b2 / 64) as u8) % 4) * 64 + b2 % 64) as u8 == b2) by (bit_vector);
    assert(((b0 % 4) * 16 + b1 / 16) < 64) by (bit_vector);
    assert(((b1 % 16) * 4 + b2 / 64) < 64) by (bit_vector);
}

proof fn lemma_tail_bytes(b0: u8, b1: u8)
    ensures
        ({
            let s0 = b0 / 4;
            let s1 = ((b0 % 4) * 16 + b1 / 16) as u8;
            let s2 = ((b1 % 16) * 4) as u8;
            &&& s0 < 64 && s1 < 64 && s2 < 64
            &&& (s0 * 4 + s1 / 16) as u8 == b0
            &&& ((s1 % 16) * 16 + s2 / 4) as u8 == b1
            &&& (((b0 % 4) * 16) as u8) < 64
            &&& ((b0 / 4) * 4 + (((b0 % 4) * 16) as u8) / 16) as u8 == b0
        }),
{
    assert(((b0 / 4) * 4 + (((b0 % 4) * 16 + b1 / 16) as u8) / 16) as u8 == b0) by (bit_vector);
    assert((((((b0 % 4) * 16 + b1 / 16) as u8) % 16) * 16 + (((b1 % 16) * 4) as u8) / 4) as u8
        == b1) by (bit_vector);
    assert(((b0 % 4) * 16 + b1 / 16) < 64) by (bit_vector);
    assert(((b1 % 16) * 4) < 64) by (bit_vector);
    assert(((b0 % 4) * 16) < 64) by (bit_vector);
    assert(((b0 / 4) * 4 + (((b0 % 4) * 16) as u8) / 16) as u8 == b0) by (bit_vector);
}

/// Decoding the sextets of bytes gives the bytes back.
proof fn lemma_b64_bytes_of_sextets(b: Seq<u8>)
    ensures
        b64_bytes(b64_sextets(b)) == b,
        forall|i: int| 0 <= i < b64_sextets(b).len() ==> #[trigger] b64_sextets(b)[i] < 64,
    decreases b.len(),
{
    let v = b64_sextets(b);
    if b.len() >= 3 {
        let rest = b.subrange(3, b.len() as int);
        lemma_b64_bytes_of_sextets(rest);
        lemma_group_bytes(b[0], b[1], b[2]);
        assert(v.subrange(4, v.len() as int) =~= b64_sextets(rest));
        assert(b =~= seq![b[0], b[1], b[2]] + rest);
    } else if b.len() == 2 {
        lemma_tail_bytes(b[0], b[1]);
        assert(b =~= seq![b[0], b[1]]);
    } else if b.len() == 1 {
        lemma_tail_bytes(b[0], 0);
        assert(b =~= seq![b[0]]);
    } else {
        assert(b =~= Seq::<u8>::empty());
    }
}

proof fn lemma_sextets_cons(c: char, t: Seq<char>)
    requires
        c != '=',
        sextet(c) is Some,
    ensures
        sextets(seq![c] + t) == match sextets(t) {
            None => None::<Seq<u8>>,
            Some(w) => Some(seq![sextet(c)->0] + w),
        },
{
    assert((seq![c] + t).drop_first() =~= t);
}

/// Reading the base64 of bytes gives their sextets.
proof fn lemma_sextets_of_encoding(b: Seq<u8>)
    ensures
        sextets(b64_encode(b)) == Some(b64_sextets(b)),
    decreases b.len(),
{
    lemma_b64_bytes_of_sextets(b);
    let v = b64_sextets(b);
    let e = b64_encode(b);
    if b.len() >= 3 {
        let rest = b.subrange(3, b.len() as int);
        lemma_sextets_of_encoding(rest);
        assert(v[0] < 64 && v[1] < 64 && v[2] < 64 && v[3] < 64);
        lemma_b64_char(v[0] as int);
        lemma_b64_char(v[1] as int);
        lemma_b64_char(v[2] as int);
        lemma_b64_char(v[3] as int);
        let t = b64_encode(rest);
        let w = b64_sextets(rest);
        let c0 = b64_char(v[0] as int);
        let c1 = b64_char(v[1] as int);
        let c2 = b64_char(v[2] as int);
        let c3 = b64_char(v[3] as int);
        lemma_sextets_cons(c3, t);
        lemma_sextets_cons(c2, seq![c3] + t);
        lemma_sextets_cons(c1, seq![c2] + (seq![c3] + t));
        lemma_sextets_cons(c0, seq![c1] + (seq![c2] + (seq![c3] + t)));
        assert(e =~= seq![c0] + (seq![c1] + (seq![c2] + (seq![c3] + t))));
        assert(v =~= seq![v[0]] + (seq![v[1]] + (seq![v[2]] + (seq![v[3]] + w))));
    } else if b.len() == 2 {
        assert(v[0] < 64 && v[1] < 64 && v[2] < 64);
        lemma_b64_char(v[0] as int);
        lemma_b64_char(v[1] as int);
        lemma_b64_char(v[2] as int);
        let c0 = b64_char(v[0] as int);
        let c1 = b64_char(v[1] as int);
        let c2 = b64_char(v[2] as int);
        assert(sextets(seq!['=']) == Some(Seq::<u8>::empty()));
        lemma_sextets_cons(c2, seq!['=']);
        lemma_sextets_cons(c1, seq![c2] + seq!['=']);
        lemma_sextets_cons(c0, seq![c1] + (seq![c2] + seq!['=']));
        assert(e =~= seq![c0] + (seq![c1] + (seq![c2] + seq!['='])));
        assert(v =~= seq![v[0]] + (seq![v[1]] + (seq![v[2]] + Seq::<u8>::empty())));
    } else if b.len() == 1 {
        assert(v[0] < 64 && v[1] < 64);
        lemma_b64_char(v[0] as int);
        lemma_b64_char(v[1] as int);
        let c0 = b64_char(v[0] as int);
        let c1 = b64_char(v[1] as int);
        assert(sextets(seq!['=', '=']) == Some(Seq::<u8>::empty()));
        lemma_sextets_cons(c1, seq!['=', '=']);
        lemma_sextets_cons(c0, seq![c1] + seq!['=', '=']);
        assert(e =~= seq![c0] + (seq![c1] + seq!['=', '=']));
        assert(v =~= seq![v[0]] + (seq![v[1]] + Seq::<u8>::empty()));
    } else {
        assert(e =~= Seq::<char>::empty());
    }
}

proof fn lemma_index_after_name(u: Seq<char>, rest: Seq<char>)
    requires
        index_of(u, ':') is None,
    ensures
        index_of(u + ":"@ + rest, ':') == Some(u.len()),
    decreases u.len(),
{
    reveal_strlit(":");
    if u.len() == 0 {
        assert(u + ":"@ + rest =~= seq![':'] + rest);
    } else {
        lemma_index_after_name(u.drop_first(), rest);
        assert((u + ":"@ + rest).drop_first() =~= u.drop_first() + ":"@ + rest);
    }
}

/// Base64 text decodes to what was encoded: the UTF-8 text `t` encoded
/// as base64 decodes to `t`.
pub proof fn base64_round_trip(t: Seq<char>)
    ensures
        base64_text(b64_encode(vstd::utf8::encode_utf8(t))) == Some(t),
{
    let e = b64_encode(vstd::utf8::encode_utf8(t));
    let z = Seq::<char>::empty();
    base64_round_trip_any_form(t, true, z, z);
    assert(z + e + z =~= e);
}

/// Base64 of bytes without `=` padding.
pub open spec fn b64_encode_unpadded(b: Seq<u8>) -> Seq<char>
    decreases b.len(),
{
    let v = b64_sextets(b);
    if b.len() >= 3 {
        seq![b64_char(v[0] as int), b64_char(v[1] as int), b64_char(v[2] as int), b64_char(v[3] as int)]
            + b64_encode_unpadded(b.subrange(3, b.len() as int))
    } else if b.len() == 2 {
        seq![b64_char(v[0] as int), b64_char(v[1] as int), b64_char(v[2] as int)]
    } else if b.len() == 1 {
        seq![b64_char(v[0] as int), b64_char(v[1] as int)]
    } else {
        Seq::empty()
    }
}

/// Base64 of bytes, padded or not.
pub open spec fn b64_encoding(b: Seq<u8>, padded: bool) -> Seq<char> {
    if padded {
        b64_encode(b)
    } else {
        b64_encode_unpadded(b)
    }
}

/// Whether every character of `s` is whitespace.
pub open spec fn all_ws(s: Seq<char>) -> bool {
    forall|i: int| 0 <= i < s.len() ==> crate::text::is_ws(#[trigger] s[i])
}

proof fn lemma_sextets_of_unpadded(b: Seq<u8>)
    ensures
        sextets(b64_encode_unpadded(b)) == Some(b64_sextets(b)),
    decreases b.len(),
{
    lemma_b64_bytes_of_sextets(b);
    let v = b64_sextets(b);
    let e = b64_encode_unpadded(b);
    let z = Seq::<char>::empty();
    assert(sextets(z) == Some(Seq::<u8>::empty()));
    if b.len() >= 3 {
        let rest = b.subrange(3, b.len() as int);
        lemma_sextets_of_unpadded(rest);
        assert(v[0] < 64 && v[1] < 64 && v[2] < 64 && v[3] < 64);
        lemma_b64_char(v[0] as int);
        lemma_b64_char(v[1] as int);
        lemma_b64_char(v[2] as int);
        lemma_b64_char(v[3] as int);
        let t = b64_encode_unpadded(rest);
        let w = b64_sextets(rest);
        let c0 = b64_char(v[0] as int);
        let c1 = b64_char(v[1] as int);
        let c2 = b64_char(v[2] as int);
        let c3 = b64_char(v[3] as int);
        lemma_sextets_cons(c3, t);
        lemma_sextets_cons(c2, seq![c3] + t);
        lemma_sextets_cons(c1, seq![c2] + (seq![c3] + t));
        lemma_sextets_cons(c0, seq![c1] + (seq![c2] + (seq![c3] + t)));
        assert(e =~= seq![c0] + (seq![c1] + (seq![c2] + (seq![c3] + t))));
        assert(v =~= seq![v[0]] + (seq![v[1]] + (seq![v[2]] + (seq![v[3]] + w))));
    } else if b.len() == 2 {
        assert(v[0] < 64 && v[1] < 64 && v[2] < 64);
        lemma_b64_char(v[0] as int);
        lemma_b64_char(v[1] as int);
        lemma_b64_char(v[2] as int);
        let c0 = b64_char(v[0] as int);
        let c1 = b64_char(v[1] as int);
        let c2 = b64_char(v[2] as int);
        lemma_sextets_cons(c2, z);
        lemma_sextets_cons(c1, seq![c2] + z);
        lemma_sextets_cons(c0, seq![c1] + (seq![c2] + z));
        assert(e =~= seq![c0] + (seq![c1] + (seq![c2] + z)));
        assert(v =~= seq![v[0]] + (seq![v[1]] + (seq![v[2]] + Seq::<u8>::empty())));
    } else if b.len() == 1 {
        assert(v[0] < 64 && v[1] < 64);
        lemma_b64_char(v[0] as int);
        lemma_b64_char(v[1] as int);
        let c0 = b64_char(v[0] as int);
        let c1 = b64_char(v[1] as int);
        lemma_sextets_cons(c1, z);
        lemma_sextets_cons(c0, seq![c1] + z);
        assert(e =~= seq![c0] + (seq![c1] + z));
        assert(v =~= seq![v[0]] + (seq![v[1]] + Seq::<u8>::empty()));
    } else {
        assert(e =~= z);
    }
}

/// Base64 text, padded or not, holds no whitespace.
proof fn lemma_encoding_has_no_ws(b: Seq<u8>, padded: bool)
    ensures
        forall|i: int|
            0 <= i < b64_encoding(b, padded).len() ==> !crate::text::is_ws(
                #[trigger] b64_encoding(b, padded)[i],
            ),
    decreases b.len(),
{
    lemma_b64_bytes_of_sextets(b);
    let v = b64_sextets(b);
    let e = b64_encoding(b, padded);
    if b.len() >= 3 {
        let rest = b.subrange(3, b.len() as int);
        lemma_encoding_has_no_ws(rest, padded);
        assert(v[0] < 64 && v[1] < 64 && v[2] < 64 && v[3] < 64);
        lemma_b64_char(v[0] as int);
        lemma_b64_char(v[1] as int);
        lemma_b64_char(v[2] as int);
        lemma_b64_char(v[3] as int);
        let t = b64_encoding(rest, padded);
        assert forall|i: int| 0 <= i < e.len() implies !crate::text::is_ws(#[trigger] e[i]) by {
            if i >= 4 {
                assert(e[i] == t[i - 4]);
            }
        }
    } else if b.len() == 2 {
        assert(v[0] < 64 && v[1] < 64 && v[2] < 64);
        lemma_b64_char(v[0] as int);
        lemma_b64_char(v[1] as int);
        lemma_b64_char(v[2] as int);
    } else if b.len() == 1 {
        assert(v[0] < 64 && v[1] < 64);
        lemma_b64_char(v[0] as int);
        lemma_b64_char(v[1] as int);
    }
}

proof fn lemma_trim_start_skips_ws(lead: Seq<char>, x: Seq<char>)
    requires
        all_ws(lead),
    ensures
        crate::text::trim_start(lead + x) == crate::text::trim_start(x),
    decreases lead.len(),
{
    if lead.len() > 0 {
        assert((lead + x)[0] == lead[0]);
        assert((lead + x).drop_first() =~= lead.drop_first() + x);
        assert(all_ws(lead.drop_first())) by {
            assert forall|i: int| 0 <= i < lead.drop_first().len() implies crate::text::is_ws(
                #[trigger] lead.drop_first()[i],
            ) by {
                assert(lead.drop_first()[i] == lead[i + 1]);
            }
        }
        lemma_trim_start_skips_ws(lead.drop_first(), x);
    } else {
        assert(lead + x =~= x);
    }
}

proof fn lemma_trim_end_skips_ws(x: Seq<char>, trail: Seq<char>)
    requires
        all_ws(trail),
    ensures
        crate::text::trim_end(x + trail) == crate::text::trim_end(x),
    decreases trail.len(),
{
    if trail.len() > 0 {
        assert((x + trail).last() == trail.last());
        assert((x + trail).drop_last() =~= x + trail.drop_last());
        assert(all_ws(trail.drop_last())) by {
            assert forall|i: int| 0 <= i < trail.drop_last().len() implies crate::text::is_ws(
                #[trigger] trail.drop_last()[i],
            ) by {
                assert(trail.drop_last()[i] == trail[i]);
            }
        }
        lemma_trim_end_skips_ws(x, trail.drop_last());
    } else {
        assert(x + trail =~= x);
    }
}

/// Base64 text of a UTF-8 text `t`, padded with `=` or not, and surrounded
/// by any whitespace, decodes to `t`.
pub proof fn base64_round_trip_any_form(t: Seq<char>, padded: bool, lead: Seq<char>, trail: Seq<char>)
    requires
        all_ws(lead),
        all_ws(trail),
    ensures
        base64_text(lead + b64_encoding(vstd::utf8::encode_utf8(t), padded) + trail) == Some(t),
{
    let b = vstd::utf8::encode_utf8(t);
    let e = b64_encoding(b, padded);
    lemma_encoding_has_no_ws(b, padded);
    lemma_trim_start_skips_ws(lead, e + trail);
    assert(lead + e + trail =~= lead + (e + trail));
    if e.len() > 0 {
        assert((e + trail)[0] == e[0]);
        assert(crate::text::trim_start(e + trail) == e + trail);
        lemma_trim_end_skips_ws(e, trail);
        assert(e.last() == e[e.len() - 1]);
        assert(crate::text::trim_end(e) == e);
    } else {
        assert(e + trail =~= trail);
        lemma_trim_start_skips_ws(trail, Seq::<char>::empty());
        assert(trail + Seq::<char>::empty() =~= trail);
        assert(crate::text::trim_start(Seq::<char>::empty()) == Seq::<char>::empty());
        assert(crate::text::trim_end(Seq::<char>::empty()) == Seq::<char>::empty());
    }
    if padded {
        lemma_sextets_of_encoding(b);
    } else {
        lemma_sextets_of_unpadded(b);
    }
    lemma_b64_bytes_of_sextets(b);
    vstd::utf8::encode_utf8_valid_utf8(t);
    vstd::utf8::encode_utf8_decode_utf8(t);
}

/// Whether position `i` of `t` holds a character outside the base64
/// alphabet before the first `=`.
pub open spec fn bad_char_at(t: Seq<char>, i: int) -> bool {
    &&& 0 <= i < t.len()
    &&& t[i] != '='
    &&& sextet(t[i]) is None
    &&& forall|j: int| 0 <= j < i ==> t[j] != '='
}

proof fn lemma_bad_char_refused(t: Seq<char>, i: int)
    requires
        bad_char_at(t, i),
    ensures
        sextets(t) is None,
    decreases i,
{
    if i > 0 {
        assert(t[0] != '=');
        if sextet(t[0]) is Some {
            assert(bad_char_at(t.drop_first(), i - 1)) by {
                assert forall|j: int| 0 <= j < i - 1 implies t.drop_first()[j] != '=' by {
                    assert(t.drop_first()[j] == t[j + 1]);
                }
            }
            lemma_bad_char_refused(t.drop_first(), i - 1);
        }
    }
}

/// Decoding refuses a character outside the alphabet before the first `=`
/// of the trimmed text, and bytes that are not UTF-8.
pub proof fn base64_refusals(s: Seq<char>)
    ensures
        (exists|i: int| #[trigger] bad_char_at(trim(s), i)) ==> base64_text(s) is None,
        (sextets(trim(s)) matches Some(v) && !valid_utf8(b64_bytes(v))) ==> base64_text(s) is None,
{
    if exists|i: int| #[trigger] bad_char_at(trim(s), i) {
        let i = choose|i: int| #[trigger] bad_char_at(trim(s), i);
        lemma_bad_char_refused(trim(s), i);
    }
}

/// A client that sends a user and password as Basic credentials is let in
/// exactly when they are the configured user and password (an empty
/// password where none is configured). A user name with a `:` cannot be
/// sent this way, since the decoded text is split at its first `:`.
pub proof fn basic_credentials_law(
    user: Seq<char>,
    pass: Option<Seq<char>>,
    sent_user: Seq<char>,
    sent_pass: Seq<char>,
)
    requires
        index_of(sent_user, ':') is None,
    ensures
        authorized(Some(user), pass, Some(basic_header(sent_user, sent_pass))) <==> (sent_user
            == user && sent_pass == match pass {
            Some(p) => p,
            None => Seq::<char>::empty(),
        }),
{
    reveal_strlit("Basic ");
    let d = sent_user + ":"@ + sent_pass;
    let tok = b64_encode(vstd::utf8::encode_utf8(d));
    let h = basic_header(sent_user, sent_pass);
    assert(h.subrange(0, 6) =~= "Basic "@);
    assert(h.subrange(6, h.len() as int) =~= tok);
    base64_round_trip(d);
    lemma_index_after_name(sent_user, sent_pass);
    reveal_strlit(":");
    assert(d.subrange(0, sent_user.len() as int) =~= sent_user);
    assert(d.subrange(sent_user.len() as int + 1, d.len() as int) =~= sent_pass);
}

/// Without a configured user every request passes; with one, a request
/// without an `Authorization` header, or whose header is not Basic, never
/// does.
pub proof fn authorization_law(user: Option<Seq<char>>, pass: Option<Seq<char>>, header: Option<Seq<char>>)
    ensures
        user is None ==> authorized(user, pass, header),
        user is Some && header is None ==> !authorized(user, pass, header),
        user is Some && (header matches Some(h) && !is_prefix("Basic "@, h)) ==> !authorized(
            user,
            pass,
            header,
        ),
{
}

/// Checks Basic credentials given as the `Authorization` header's text
/// against the configured `user` and `pass`.
pub fn credentials_ok(user: Option<&str>, pass: Option<&str>, header: Option<&str>) -> (ok: bool)
    ensures
        ok == authorized(
            match user {
                Some(u) => Some(u@),
                None => None,
            },
            match pass {
                Some(p) => Some(p@),
                None => None,
            },
            match header {
                Some(h) => Some(h@),
                None => None,
            },
        ),
{
    let expected_user = match user {
        None => return true,
        Some(u) => u,
    };
    let expected_pass: &str = match pass {
        Some(p) => p,
        None => "",
    };
    proof {
        reveal_strlit("");
        assert(""@ =~= Seq::<char>::empty());
    }
    let val = match header {
        None => return false,
        Some(h) => h,
    };
    let hv = chars_of(val);
    let basic = chars_of("Basic ");
    proof {
        reveal_strlit("Basic ");
    }
    if !starts_with(hv.as_slice(), basic.as_slice()) {
        return false;
    }
    let encoded = crate::text::string_from_chars(slice_chars(hv.as_slice(), 6, hv.len()).as_slice());
    let decoded = match base64_decode(encoded.as_str()) {
        None => return false,
        Some(d) => d,
    };
    let dc = chars_of(decoded.as_str());
    match find_char(dc.as_slice(), ':') {
        None => false,
        Some(i) => {
            assert(i < dc.len());
            let u = slice_chars(dc.as_slice(), 0, i);
            let p = slice_chars(dc.as_slice(), i + 1, dc.len());
            proof {
                assert(encoded@ == val@.subrange(6, val@.len() as int));
                assert(dc@ == decoded@);
            }
            chars_eq_str(u.as_slice(), expected_user) && chars_eq_str(p.as_slice(), expected_pass)
        },
    }
}

} // verus!

//! XML output for WebDAV: character escaping, a small element writer, and
//! the `<D:response>` block that describes one resource.
use vstd::prelude::*;
use crate::numeral::dec_chars;
use vstd::string::StringSliceAdditionalSpecFns;
use crate::text::{chars_of, dec, string_from_chars};

verus! {

/// The escaped form of one character: `&`, `<`, `>`, `"` and `'` become
/// entity references, every other character stands for itself.
pub open spec fn escape_char(c: char) -> Seq<char> {
    if c == '&' {
        seq!['&', 'a', 'm', 'p', ';']
    } else if c == '<' {
        seq!['&', 'l', 't', ';']
    } else if c == '>' {
        seq!['&', 'g', 't', ';']
    } else if c == '"' {
        seq!['&', 'q', 'u', 'o', 't', ';']
    } else if c == '\'' {
        seq!['&', 'a', 'p', 'o', 's', ';']
    } else {
        seq![c]
    }
}

/// The escaped form of a text: each character replaced by its escaped form.
pub open spec fn escape(s: Seq<char>) -> Seq<char>
    decreases s.len(),
{
    if s.len() == 0 {
        Seq::empty()
    } else {
        escape(s.drop_last()) + escape_char(s.last())
    }
}

/// Escaped text holds no `<`, `>`, `"` or `'`.
pub proof fn escape_has_no_markup(s: Seq<char>)
    ensures
        forall|i: int|
            0 <= i < escape(s).len() ==> {
                let c = #[trigger] escape(s)[i];
                c != '<' && c != '>' && c != '"' && c != '\''
            },
    decreases s.len(),
{
    if s.len() > 0 {
        escape_has_no_markup(s.drop_last());
        let a = escape(s.drop_last());
        let b = escape_char(s.last());
        assert(escape(s) == a + b);
        assert forall|i: int| 0 <= i < escape(s).len() implies {
            let c = #[trigger] escape(s)[i];
            c != '<' && c != '>' && c != '"' && c != '\''
        } by {
            if i < a.len() {
                assert(escape(s)[i] == a[i]);
            } else {
                assert(escape(s)[i] == b[i - a.len()]);
            }
        }
    }
}

/// Escaping keeps text without special characters as it is.
pub proof fn escape_plain_is_identity(s: Seq<char>)
    requires
        forall|i: int|
            0 <= i < s.len() ==> {
                let c = #[trigger] s[i];
                c != '&' && c != '<' && c != '>' && c != '"' && c != '\''
            },
    ensures
        escape(s) == s,
    decreases s.len(),
{
    if s.len() > 0 {
        let t = s.drop_last();
        assert forall|i: int| 0 <= i < t.len() implies {
            let c = #[trigger] t[i];
            c != '&' && c != '<' && c != '>' && c != '"' && c != '\''
        } by {
            assert(t[i] == s[i]);
        }
        escape_plain_is_identity(t);
        let c = s[s.len() - 1];
        assert(s.last() == c);
        assert(escape(s) == t + seq![c]);
        assert(t + seq![c] =~= s);
    } else {
        assert(escape(s) =~= s);
    }
}

/// The five entity references escaping writes.
pub open spec fn amp_ref() -> Seq<char> {
    seq!['&', 'a', 'm', 'p', ';']
}

pub open spec fn lt_ref() -> Seq<char> {
    seq!['&', 'l', 't', ';']
}

pub open spec fn gt_ref() -> Seq<char> {
    seq!['&', 'g', 't', ';']
}

pub open spec fn quot_ref() -> Seq<char> {
    seq!['&', 'q', 'u', 'o', 't', ';']
}

pub open spec fn apos_ref() -> Seq<char> {
    seq!['&', 'a', 'p', 'o', 's', ';']
}

/// Whether `e` stands in `t` at position `i`.
pub open spec fn occurs_at(t: Seq<char>, e: Seq<char>, i: int) -> bool {
    0 <= i && i + e.len() <= t.len() && t.subrange(i, i + e.len()) == e
}

/// Whether one of the five entity references begins at position `i` of `t`.
pub open spec fn entity_at(t: Seq<char>, i: int) -> bool {
    occurs_at(t, amp_ref(), i) || occurs_at(t, lt_ref(), i) || occurs_at(t, gt_ref(), i)
        || occurs_at(t, quot_ref(), i) || occurs_at(t, apos_ref(), i)
}

/// Standard left-to-right decoding of the five entity references; every
/// other character stands for itself.
pub open spec fn unescape(t: Seq<char>) -> Seq<char>
    decreases t.len(),
{
    if t.len() == 0 {
        Seq::empty()
    } else if occurs_at(t, amp_ref(), 0) {
        seq!['&'] + unescape(t.subrange(5, t.len() as int))
    } else if occurs_at(t, lt_ref(), 0) {
        seq!['<'] + unescape(t.subrange(4, t.len() as int))
    } else if occurs_at(t, gt_ref(), 0) {
        seq!['>'] + unescape(t.subrange(4, t.len() as int))
    } else if occurs_at(t, quot_ref(), 0) {
        seq!['"'] + unescape(t.subrange(6, t.len() as int))
    } else if occurs_at(t, apos_ref(), 0) {
        seq!['\''] + unescape(t.subrange(6, t.len() as int))
    } else {
        seq![t[0]] + unescape(t.drop_first())
    }
}

proof fn lemma_escape_concat(a: Seq<char>, b: Seq<char>)
    ensures
        escape(a + b) == escape(a) + escape(b),
    decreases b.len(),
{
    if b.len() == 0 {
        assert(a + b =~= a);
        assert(escape(b) =~= Seq::<char>::empty());
        assert(escape(a) + escape(b) =~= escape(a));
    } else {
        lemma_escape_concat(a, b.drop_last());
        assert((a + b).drop_last() =~= a + b.drop_last());
        assert((a + b).last() == b.last());
        assert(escape(a) + escape(b.drop_last()) + escape_char(b.last()) =~= escape(a) + (escape(
            b.drop_last(),
        ) + escape_char(b.last())));
    }
}

proof fn lemma_unescape_char(c: char, rest: Seq<char>)
    ensures
        unescape(escape_char(c) + rest) == seq![c] + unescape(rest),
{
    let t = escape_char(c) + rest;
    let n = escape_char(c).len() as int;
    assert(t.subrange(n, t.len() as int) =~= rest);
    assert(t.subrange(0, n) =~= escape_char(c));
    if c != '&' && c != '<' && c != '>' && c != '"' && c != '\'' {
        assert(t[0] == c);
        assert(t.drop_first() =~= rest);
    }
}

/// Unescaping escaped text gives the text back.
pub proof fn escape_round_trip(s: Seq<char>)
    ensures
        unescape(escape(s)) == s,
    decreases s.len(),
{
    if s.len() == 0 {
        assert(escape(s) =~= Seq::<char>::empty());
    } else {
        let rest = s.drop_first();
        escape_round_trip(rest);
        lemma_escape_concat(seq![s[0]], rest);
        assert(seq![s[0]] + rest =~= s);
        let one = seq![s[0]];
        assert(one.drop_last() =~= Seq::<char>::empty());
        assert(escape(one.drop_last()) =~= Seq::<char>::empty());
        assert(one.last() == s[0]);
        assert(escape(one) =~= escape_char(s[0]));
        lemma_unescape_char(s[0], escape(rest));
    }
}

/// Every `&` in escaped text begins one of the five entity references.
pub proof fn escape_ampersands_begin_entities(s: Seq<char>)
    ensures
        forall|i: int| 0 <= i < escape(s).len() && #[trigger] escape(s)[i] == '&' ==> entity_at(
            escape(s),
            i,
        ),
    decreases s.len(),
{
    if s.len() > 0 {
        escape_ampersands_begin_entities(s.drop_last());
        let a = escape(s.drop_last());
        let b = escape_char(s.last());
        let t = escape(s);
        assert(t == a + b);
        assert forall|i: int| 0 <= i < t.len() && #[trigger] t[i] == '&' implies entity_at(t, i) by {
            if i < a.len() {
                assert(a[i] == '&');
                assert(entity_at(a, i));
                assert forall|e: Seq<char>| occurs_at(a, e, i) implies occurs_at(t, e, i) by {
                    assert(t.subrange(i, i + e.len()) =~= a.subrange(i, i + e.len()));
                }
            } else {
                assert(b[i - a.len()] == '&');
                assert(i == a.len());
                assert(t.subrange(i, i + b.len()) =~= b);
            }
        }
    }
}

/// Escapes the XML special characters of `s`.
pub fn xml_escape(s: &str) -> (r: String)
    ensures
        r@ == escape(s@),
{
    let cs = chars_of(s);
    let mut out: Vec<char> = Vec::new();
    let mut i: usize = 0;
    while i < cs.len()
        invariant
            i <= cs@.len(),
            cs@ == s@,
            out@ == escape(cs@.subrange(0, i as int)),
        decreases cs.len() - i,
    {
        let c = cs[i];
        if c == '&' {
            out.push('&');
            out.push('a');
            out.push('m');
            out.push('p');
            out.push(';');
        } else if c == '<' {
            out.push('&');
            out.push('l');
            out.push('t');
            out.push(';');
        } else if c == '>' {
            out.push('&');
            out.push('g');
            out.push('t');
            out.push(';');
        } else if c == '"' {
            out.push('&');
            out.push('q');
            out.push('u');
            out.push('o');
            out.push('t');
            out.push(';');
        } else if c == '\'' {
            out.push('&');
            out.push('a');
            out.push('p');
            out.push('o');
            out.push('s');
            out.push(';');
        } else {
            out.push(c);
        }
        proof {
            let t = cs@.subrange(0, i + 1);
            assert(t.drop_last() == cs@.subrange(0, i as int));
            assert(t.last() == c);
        }
        i = i + 1;
    }
    proof {
        assert(cs@.subrange(0, cs@.len() as int) == cs@);
    }
    string_from_chars(out.as_slice())
}

/// `<tag>\n`
pub open spec fn open_text(tag: Seq<char>) -> Seq<char> {
    "<"@ + tag + ">\n"@
}

/// `<tag attrs>\n`
pub open spec fn open_attr_text(tag: Seq<char>, attrs: Seq<char>) -> Seq<char> {
    "<"@ + tag + " "@ + attrs + ">\n"@
}

/// `</tag>\n`
pub open spec fn close_text(tag: Seq<char>) -> Seq<char> {
    "</"@ + tag + ">\n"@
}

/// `<tag>escaped text</tag>\n`
pub open spec fn tag_text(tag: Seq<char>, text: Seq<char>) -> Seq<char> {
    "<"@ + tag + ">"@ + escape(text) + "</"@ + tag + ">\n"@
}

/// The element for a text, or nothing for an empty text.
pub open spec fn tag_if_text(tag: Seq<char>, text: Seq<char>) -> Seq<char> {
    if text.len() == 0 {
        Seq::empty()
    } else {
        tag_text(tag, text)
    }
}

/// `<tag/>\n`
pub open spec fn empty_text(tag: Seq<char>) -> Seq<char> {
    "<"@ + tag + "/>\n"@
}

/// The XML declaration line.
pub open spec fn declaration_text() -> Seq<char> {
    "<?xml version=\"1.0\" encoding=\"utf-8\"?>\n"@
}

/// A builder for XML documents; each method appends one piece of markup.
pub struct XmlWriter {
    buf: String,
}

impl View for XmlWriter {
    type V = Seq<char>;

    /// The text written so far.
    closed spec fn view(&self) -> Seq<char> {
        self.buf@
    }
}

impl XmlWriter {
    /// An empty document.
    pub fn new() -> (w: Self)
        ensures
            w@ == Seq::<char>::empty(),
    {
        XmlWriter { buf: String::new() }
    }

    /// Appends the XML declaration.
    pub fn declaration(&mut self) -> (r: &mut Self)
        ensures
            r@ == old(self)@ + declaration_text(),
            final(self)@ == final(r)@,
    {
        self.buf.append("<?xml version=\"1.0\" encoding=\"utf-8\"?>\n");
        self
    }

    /// Appends an opening tag on a line of its own.
    pub fn open(&mut self, tag: &str) -> (r: &mut Self)
        ensures
            r@ == old(self)@ + open_text(tag@),
            final(self)@ == final(r)@,
    {
        self.buf.append("<");
        self.buf.append(tag);
        self.buf.append(">\n");
        self
    }

    /// Appends an opening tag with attributes on a line of its own.
    pub fn open_attr(&mut self, tag: &str, attrs: &str) -> (r: &mut Self)
        ensures
            r@ == old(self)@ + open_attr_text(tag@, attrs@),
            final(self)@ == final(r)@,
    {
        self.buf.append("<");
        self.buf.append(tag);
        self.buf.append(" ");
        self.buf.append(attrs);
        self.buf.append(">\n");
        self
    }

    /// Appends a closing tag on a line of its own.
    pub fn close(&mut self, tag: &str) -> (r: &mut Self)
        ensures
            r@ == old(self)@ + close_text(tag@),
            final(self)@ == final(r)@,
    {
        self.buf.append("</");
        self.buf.append(tag);
        self.buf.append(">\n");
        self
    }

    /// Appends an element holding the escaped `text`.
    pub fn tag(&mut self, tag: &str, text: &str) -> (r: &mut Self)
        ensures
            r@ == old(self)@ + tag_text(tag@, text@),
            final(self)@ == final(r)@,
    {
        let escaped = xml_escape(text);
        self.buf.append("<");
        self.buf.append(tag);
        self.buf.append(">");
        self.buf.append(escaped.as_str());
        self.buf.append("</");
        self.buf.append(tag);
        self.buf.append(">\n");
        self
    }

    /// Appends an element holding the escaped `text`, unless `text` is empty.
    pub fn tag_if(&mut self, tag: &str, text: &str) -> (r: &mut Self)
        ensures
            r@ == old(self)@ + tag_if_text(tag@, text@),
            final(self)@ == final(r)@,
    {
        if !text.is_empty() {
            self.tag(tag, text);
        }
        self
    }

    /// Appends an empty element.
    pub fn empty(&mut self, tag: &str) -> (r: &mut Self)
        ensures
            r@ == old(self)@ + empty_text(tag@),
            final(self)@ == final(r)@,
    {
        self.buf.append("<");
        self.buf.append(tag);
        self.buf.append("/>\n");
        self
    }

    /// Appends `s` as it stands.
    pub fn raw(&mut self, s: &str) -> (r: &mut Self)
        ensures
            r@ == old(self)@ + s@,
            final(self)@ == final(r)@,
    {
        self.buf.append(s);
        self
    }

    /// The document written.
    pub fn finish(self) -> (s: String)
        ensures
            s@ == self@,
    {
        self.buf
    }
}

/// The `<D:supportedlock>` block advertised for every resource.
pub open spec fn supported_lock_text() -> Seq<char> {
    "<D:supportedlock>\n<D:lockentry>\n<D:lockscope><D:exclusive/></D:lockscope>\n<D:locktype><D:write/></D:locktype>\n</D:lockentry>\n</D:supportedlock>\n"@
}

/// One WebDAV resource as a PROPFIND answer lists it.
pub struct DavResource {
    pub href: String,
    pub display_name: String,
    pub is_dir: bool,
    pub size: u64,
    pub content_type: String,
    pub creation_date: String,
    pub last_modified: String,
    pub etag: String,
}

/// The `<D:response>` block of a resource: its href and display name, a
/// collection marker for a directory or the content length for a file, the
/// content type, dates and etag where they are not empty, the supported
/// locks and a `200 OK` status.
pub open spec fn resource_xml(r: DavResource) -> Seq<char> {
    open_text("D:response"@) + tag_text("D:href"@, r.href@) + open_text("D:propstat"@)
        + open_text("D:prop"@) + tag_text("D:displayname"@, r.display_name@) + (if r.is_dir {
        "<D:resourcetype><D:collection/></D:resourcetype>\n"@
    } else {
        empty_text("D:resourcetype"@) + tag_text("D:getcontentlength"@, dec(r.size as nat))
    }) + tag_if_text("D:getcontenttype"@, r.content_type@) + tag_if_text(
        "D:creationdate"@,
        r.creation_date@,
    ) + tag_if_text("D:getlastmodified"@, r.last_modified@) + tag_if_text(
        "D:getetag"@,
        r.etag@,
    ) + supported_lock_text() + close_text("D:prop"@) + tag_text(
        "D:status"@,
        "HTTP/1.1 200 OK"@,
    ) + close_text("D:propstat"@) + close_text("D:response"@)
}

/// Whether `x` stands somewhere in `s`.
pub open spec fn contains_text(s: Seq<char>, x: Seq<char>) -> bool {
    exists|i: int| occurs_at(s, x, i)
}

/// The pieces `ps` joined in order.
pub open spec fn joined(ps: Seq<Seq<char>>) -> Seq<char>
    decreases ps.len(),
{
    if ps.len() == 0 {
        Seq::empty()
    } else {
        joined(ps.drop_last()) + ps.last()
    }
}

/// Each piece of a joined text stands in it.
proof fn lemma_piece_in_joined(ps: Seq<Seq<char>>, k: int)
    requires
        0 <= k < ps.len(),
    ensures
        contains_text(joined(ps), ps[k]),
    decreases ps.len(),
{
    let init = ps.drop_last();
    if k == ps.len() - 1 {
        let p = joined(init);
        assert((p + ps[k]).subrange(p.len() as int, (p.len() + ps[k].len()) as int) =~= ps[k]);
        assert(occurs_at(joined(ps), ps[k], p.len() as int));
    } else {
        lemma_piece_in_joined(init, k);
        assert(init[k] == ps[k]);
        let i = choose|i: int| occurs_at(joined(init), ps[k], i);
        let t = joined(init);
        assert((t + ps.last()).subrange(i, i + ps[k].len()) =~= t.subrange(i, i + ps[k].len()));
        assert(occurs_at(joined(ps), ps[k], i));
    }
}

/// The `<D:response>` block of a resource names its href and display name,
/// marks a directory as a collection and gives a file's length, and holds
/// an element for each of the content type, creation date, last
/// modification date and etag that is not empty, with its (escaped) text.
pub proof fn resource_xml_lists_properties(r: DavResource)
    ensures
        contains_text(resource_xml(r), "<"@ + "D:href"@ + ">"@ + escape(r.href@) + "</"@ + "D:href"@ + ">\n"@),
        contains_text(resource_xml(r), "<"@ + "D:displayname"@ + ">"@ + escape(r.display_name@) + "</"@ + "D:displayname"@ + ">\n"@),
        r.is_dir ==> contains_text(resource_xml(r), "<D:resourcetype><D:collection/></D:resourcetype>\n"@),
        !r.is_dir ==> contains_text(resource_xml(r), "<"@ + "D:getcontentlength"@ + ">"@ + escape(dec(r.size as nat)) + "</"@ + "D:getcontentlength"@ + ">\n"@),
        r.content_type@.len() > 0 ==> contains_text(resource_xml(r), "<"@ + "D:getcontenttype"@ + ">"@ + escape(r.content_type@) + "</"@ + "D:getcontenttype"@ + ">\n"@),
        r.creation_date@.len() > 0 ==> contains_text(resource_xml(r), "<"@ + "D:creationdate"@ + ">"@ + escape(r.creation_date@) + "</"@ + "D:creationdate"@ + ">\n"@),
        r.last_modified@.len() > 0 ==> contains_text(resource_xml(r), "<"@ + "D:getlastmodified"@ + ">"@ + escape(r.last_modified@) + "</"@ + "D:getlastmodified"@ + ">\n"@),
        r.etag@.len() > 0 ==> contains_text(resource_xml(r), "<"@ + "D:getetag"@ + ">"@ + escape(r.etag@) + "</"@ + "D:getetag"@ + ">\n"@),
{
    let b = empty_text("D:resourcetype"@);
    let c = tag_text("D:getcontentlength"@, dec(r.size as nat));
    let kind = if r.is_dir {
        seq!["<D:resourcetype><D:collection/></D:resourcetype>\n"@]
    } else {
        seq![b, c]
    };
    let ps = seq![
        open_text("D:response"@),
        tag_text("D:href"@, r.href@),
        open_text("D:propstat"@),
        open_text("D:prop"@),
        tag_text("D:displayname"@, r.display_name@),
    ] + kind + seq![
        tag_if_text("D:getcontenttype"@, r.content_type@),
        tag_if_text("D:creationdate"@, r.creation_date@),
        tag_if_text("D:getlastmodified"@, r.last_modified@),
        tag_if_text("D:getetag"@, r.etag@),
        supported_lock_text(),
        close_text("D:prop"@),
        tag_text("D:status"@, "HTTP/1.1 200 OK"@),
        close_text("D:propstat"@),
        close_text("D:response"@),
    ];
    reveal_with_fuel(joined, 17);
    assert(resource_xml(r) =~= joined(ps));
    let n = kind.len() as int;
    lemma_piece_in_joined(ps, 1);
    lemma_piece_in_joined(ps, 4);
    lemma_piece_in_joined(ps, 5);
    if !r.is_dir {
        lemma_piece_in_joined(ps, 6);
    }
    lemma_piece_in_joined(ps, 5 + n);
    lemma_piece_in_joined(ps, 6 + n);
    lemma_piece_in_joined(ps, 7 + n);
    lemma_piece_in_joined(ps, 8 + n);
}

impl DavResource {
    /// The `<D:response>` block describing this resource.
    pub fn to_xml(&self) -> (x: String)
        ensures
            x@ == resource_xml(*self),
    {
        let mut w = XmlWriter::new();
        w.open("D:response");
        w.tag("D:href", self.href.as_str());
        w.open("D:propstat");
        w.open("D:prop");
        w.tag("D:displayname", self.display_name.as_str());
        if self.is_dir {
            w.raw("<D:resourcetype><D:collection/></D:resourcetype>\n");
        } else {
            w.empty("D:resourcetype");
            let size = string_from_chars(dec_chars(self.size).as_slice());
            w.tag("D:getcontentlength", size.as_str());
        }
        w.tag_if("D:getcontenttype", self.content_type.as_str());
        w.tag_if("D:creationdate", self.creation_date.as_str());
        w.tag_if("D:getlastmodified", self.last_modified.as_str());
        w.tag_if("D:getetag", self.etag.as_str());
        w.raw(
            "<D:supportedlock>\n<D:lockentry>\n<D:lockscope><D:exclusive/></D:lockscope>\n<D:locktype><D:write/></D:locktype>\n</D:lockentry>\n</D:supportedlock>\n",
        );
        w.close("D:prop");
        w.tag("D:status", "HTTP/1.1 200 OK");
        w.close("D:propstat");
        w.close("D:response");
        let x = w.finish();
        proof {
            assert(x@ =~= resource_xml(*self));
        }
        x
    }
}

/// The djb2 hash of a byte sequence: start from 5381, and for each byte
/// multiply by 33 and add the byte, both wrapping at 2^64.
pub open spec fn djb2(bytes: Seq<u8>) -> u64
    decreases bytes.len(),
{
    if bytes.len() == 0 {
        5381
    } else {
        djb2(bytes.drop_last()).wrapping_mul(33).wrapping_add(bytes.last() as u64)
    }
}

/// A non-cryptographic hash of the UTF-8 bytes of `s`, used for etags.
pub fn simple_hash(s: &str) -> (h: u64)
    ensures
        h == djb2(s.spec_bytes()),
{
    let bytes = s.as_bytes();
    let mut hash: u64 = 5381;
    let mut i: usize = 0;
    while i < bytes.len()
        invariant
            i <= bytes@.len(),
            bytes@ == s.spec_bytes(),
            hash == djb2(bytes@.subrange(0, i as int)),
        decreases bytes.len() - i,
    {
        proof {
            let t = bytes@.subrange(0, i + 1);
            assert(t.drop_last() == bytes@.subrange(0, i as int));
        }
        hash = hash.wrapping_mul(33).wrapping_add(bytes[i] as u64);
        i = i + 1;
    }
    proof {
        assert(bytes@.subrange(0, bytes@.len() as int) == bytes@);
    }
    hash
}

} // verus!

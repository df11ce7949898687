use echofs::auth::base64_decode;
use echofs::mime_utils::{detect_mime, media_kind_of};
use echofs::webdav::{
    entry_to_resource, listing_order, parse_depth, parse_overwrite, propfind_resources, DirEntry, ListOrder,
};
use echofs::xml::{simple_hash, xml_escape, DavResource, XmlWriter};

fn make_resource(href: &str, name: &str, is_dir: bool) -> DavResource {
    DavResource {
        href: href.to_string(),
        display_name: name.to_string(),
        is_dir,
        size: 0,
        content_type: String::new(),
        creation_date: String::new(),
        last_modified: String::new(),
        etag: String::new(),
    }
}

fn make_dir_entry(name: &str, is_dir: bool, size: u64, created_ts: i64, modified_ts: i64) -> DirEntry {
    DirEntry {
        name: name.to_string(),
        is_dir,
        size,
        size_display: "-".to_string(),
        created: String::new(),
        modified: String::new(),
        created_ts,
        modified_ts,
        icon: String::new(),
        href: format!("/{}", name),
        media_type: if is_dir { "directory" } else { "other" }.to_string(),
    }
}

#[test]
fn xml_escape_cases() {
    let cases = [
        ("a&b", "a&amp;b"),
        ("<tag>", "&lt;tag&gt;"),
        ("he said \"hi\"", "he said &quot;hi&quot;"),
        ("it's", "it&apos;s"),
        ("hello world", "hello world"),
    ];
    for (input, expected) in cases {
        assert_eq!(xml_escape(input), expected, "xml_escape({:?})", input);
    }
}

#[test]
fn parse_depth_cases() {
    let cases: Vec<(Option<&str>, u32)> = vec![(Some("0"), 0), (Some("1"), 1), (Some("infinity"), 1), (None, 1)];
    for (header_val, expected) in cases {
        assert_eq!(parse_depth(header_val), expected, "Depth: {:?}", header_val);
    }
}

#[test]
fn xml_writer_methods() {
    let mut w = XmlWriter::new();
    w.declaration();
    assert_eq!(w.finish(), "<?xml version=\"1.0\" encoding=\"utf-8\"?>\n");

    let mut w = XmlWriter::new();
    w.tag("name", "a&b<c>");
    assert_eq!(w.finish(), "<name>a&amp;b&lt;c&gt;</name>\n");

    let mut w = XmlWriter::new();
    w.tag_if("a", "").tag_if("b", "value");
    assert_eq!(w.finish(), "<b>value</b>\n");

    let mut w = XmlWriter::new();
    w.open("parent").tag("child", "text").close("parent");
    assert_eq!(w.finish(), "<parent>\n<child>text</child>\n</parent>\n");

    let mut w = XmlWriter::new();
    w.open_attr("root", "xmlns:D=\"DAV:\"");
    assert_eq!(w.finish(), "<root xmlns:D=\"DAV:\">\n");

    let mut w = XmlWriter::new();
    w.empty("D:resourcetype");
    assert_eq!(w.finish(), "<D:resourcetype/>\n");

    let mut w = XmlWriter::new();
    w.raw("<already>escaped</already>\n");
    assert_eq!(w.finish(), "<already>escaped</already>\n");
}

#[test]
fn dav_resource_directory_xml() {
    let mut res = make_resource("/test/", "test", true);
    res.creation_date = "2024-01-01T00:00:00Z".into();
    res.last_modified = "Mon, 01 Jan 2024 00:00:00 GMT".into();
    res.etag = "\"dir-123\"".into();

    let xml = res.to_xml();
    assert!(xml.contains("<D:collection/>"));
    assert!(xml.contains("<D:displayname>test</D:displayname>"));
    assert!(xml.contains("<D:href>/test/</D:href>"));
    assert!(!xml.contains("<D:getcontentlength>"));
    assert!(!xml.contains("<D:getcontenttype>"));
    assert!(xml.contains("<D:creationdate>"));
    assert!(xml.contains("<D:getetag>"));
    assert!(xml.contains("<D:supportedlock>"));
}

#[test]
fn dav_resource_file_xml() {
    let mut res = make_resource("/file.txt", "file.txt", false);
    res.size = 1024;
    res.content_type = "text/plain".into();
    res.creation_date = "2024-01-01T00:00:00Z".into();
    res.last_modified = "Mon, 01 Jan 2024 00:00:00 GMT".into();
    res.etag = "\"abc\"".into();

    let xml = res.to_xml();
    assert!(xml.contains("<D:resourcetype/>\n"));
    assert!(xml.contains("<D:getcontentlength>1024</D:getcontentlength>"));
    assert!(xml.contains("<D:getcontenttype>text/plain</D:getcontenttype>"));
    assert!(xml.contains("<D:displayname>file.txt</D:displayname>"));
    assert!(xml.contains("<D:creationdate>"));
    assert!(xml.contains("<D:getetag>"));
}

#[test]
fn dav_resource_escapes_special_chars() {
    let mut res = make_resource("/a&b.txt", "a&b.txt", false);
    res.size = 10;
    res.content_type = "text/plain".into();
    let xml = res.to_xml();
    assert!(xml.contains("<D:href>/a&amp;b.txt</D:href>"));
    assert!(xml.contains("<D:displayname>a&amp;b.txt</D:displayname>"));
}

#[test]
fn dav_resource_skips_empty_optional_fields() {
    let xml = make_resource("/test", "test", false).to_xml();
    assert!(!xml.contains("<D:getcontenttype>"));
    assert!(!xml.contains("<D:creationdate>"));
    assert!(!xml.contains("<D:getlastmodified>"));
    assert!(!xml.contains("<D:getetag>"));
}

#[test]
fn entry_to_resource_dir() {
    let entry = make_dir_entry("photos", true, 0, 1704067200, 1704067200);
    let xml = entry_to_resource(&entry, "/photos/").to_xml();
    assert!(xml.contains("<D:collection/>"));
    assert!(xml.contains("<D:href>/photos/</D:href>"));
    assert!(xml.contains("<D:creationdate>"));
    assert!(xml.contains("<D:supportedlock>"));
}

#[test]
fn entry_to_resource_file() {
    let entry = make_dir_entry("readme.txt", false, 256, 0, 1704067200);
    let xml = entry_to_resource(&entry, "/readme.txt").to_xml();
    assert!(xml.contains("<D:resourcetype/>"));
    assert!(xml.contains("<D:getcontentlength>256</D:getcontentlength>"));
    assert!(xml.contains("text/plain"));
    assert!(xml.contains("<D:getetag>"));
}

#[test]
fn simple_hash_deterministic() {
    assert_eq!(simple_hash("/test/"), simple_hash("/test/"));
    assert_ne!(simple_hash("/a/"), simple_hash("/b/"));
}

#[test]
fn base64_decode_valid() {
    assert_eq!(base64_decode("YWRtaW46c2VjcmV0"), Some("admin:secret".to_string()));
    assert_eq!(base64_decode("dXNlcjpwYXNz"), Some("user:pass".to_string()));
    assert_eq!(base64_decode(""), Some("".to_string()));
}

#[test]
fn parse_overwrite_header() {
    assert!(parse_overwrite(None));
    assert!(parse_overwrite(Some("T")));
    assert!(!parse_overwrite(Some("F")));
}

#[test]
fn listing_puts_folders_first_then_names_ignoring_case() {
    let dir_b = make_dir_entry("b", true, 0, 0, 0);
    let file_a = make_dir_entry("a.txt", false, 1, 0, 0);
    let file_cap = make_dir_entry("B.txt", false, 1, 0, 0);
    let file_low = make_dir_entry("b.txt", false, 1, 0, 0);
    assert_eq!(listing_order(&dir_b, &file_a), ListOrder::First);
    assert_eq!(listing_order(&file_a, &dir_b), ListOrder::Second);
    assert_eq!(listing_order(&file_a, &file_cap), ListOrder::First);
    assert_eq!(listing_order(&file_cap, &file_low), ListOrder::Equal);
    assert_eq!(listing_order(&make_dir_entry("ab", false, 0, 0, 0), &make_dir_entry("a", false, 0, 0, 0)), ListOrder::Second);
}

#[test]
fn listing_media_kinds() {
    assert_eq!(media_kind_of(&detect_mime("v.mp4")), "video");
    assert_eq!(media_kind_of(&detect_mime("s.mp3")), "audio");
    assert_eq!(media_kind_of(&detect_mime("p.png")), "image");
    assert_eq!(media_kind_of(&detect_mime("t.txt")), "text");
    assert_eq!(media_kind_of(&detect_mime("a.zip")), "");
}

#[test]
fn propfind_lists_target_then_children_at_depth_one() {
    let target = make_resource("/docs/", "docs", true);
    let children = vec![make_dir_entry("sub", true, 0, 0, 0), make_dir_entry("a.txt", false, 3, 0, 0)];
    let r = propfind_resources(target, true, 1, &children);
    assert_eq!(r.len(), 3);
    assert_eq!(r[0].href, "/docs/");
    assert_eq!(r[1].href, "/sub/");
    assert!(r[1].is_dir);
    assert_eq!(r[2].href, "/a.txt");
    assert_eq!(r[2].size, 3);
    let r = propfind_resources(make_resource("/docs/", "docs", true), true, 0, &children);
    assert_eq!(r.len(), 1);
    let r = propfind_resources(make_resource("/f.txt", "f.txt", false), false, 1, &children);
    assert_eq!(r.len(), 1);
}

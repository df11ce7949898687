use echofs::auth::{base64_decode, credentials_ok};
use echofs::error::AppError;
use echofs::handlers::{
    content_type_for, encode_path_segments, is_ajax, needs_webui_auth, plan_page_reply, wants_zip_download, zip_content_disposition,
    PageReply, PathKind,
};
use echofs::mime_utils::detect_mime;
use echofs::webdav::{
    check_delete, check_mkcol, checked_destination, child_href, copy_outcome, dav_method, dir_resource, entry_to_resource,
    error_reply, file_resource, is_destructive_destination, is_same_resource_alias, lock_body,
    lock_token_header, move_outcome, multistatus_body, normalize_rel_path, parse_destination,
    proppatch_body, put_status, resource_href, self_href, DavMethod, DirEntry,
};
use echofs::xml::simple_hash;

#[test]
fn base64_padding_invalid_and_non_utf8() {
    assert_eq!(base64_decode("YQ=="), Some("a".to_string()));
    assert_eq!(base64_decode("YWI="), Some("ab".to_string()));
    assert_eq!(base64_decode("  YWJj  "), Some("abc".to_string()));
    assert_eq!(base64_decode("YWJj=garbage!"), Some("abc".to_string()));
    assert_eq!(base64_decode("YW!j"), None);
    assert_eq!(base64_decode("/w=="), None); // 0xFF is not UTF-8
    assert_eq!(base64_decode("5Lit5paH"), Some("中文".to_string()));
}

#[test]
fn credentials_check() {
    let ok = Some("Basic YWRtaW46c2VjcmV0");
    assert!(credentials_ok(None, None, None));
    assert!(credentials_ok(Some("admin"), Some("secret"), ok));
    assert!(!credentials_ok(Some("admin"), Some("other"), ok));
    assert!(!credentials_ok(Some("admin"), Some("secret"), None));
    assert!(!credentials_ok(Some("admin"), Some("secret"), Some("Bearer YWRtaW46c2VjcmV0")));
    // no password configured: an empty password matches
    assert!(credentials_ok(Some("user"), None, Some("Basic dXNlcjo=")));
    // no colon in the decoded text
    assert!(!credentials_ok(Some("admin"), None, Some("Basic YWRtaW4=")));
}

#[test]
fn request_recognition() {
    assert!(is_ajax(Some("XMLHttpRequest")));
    assert!(!is_ajax(Some("xmlhttprequest")));
    assert!(!is_ajax(None));
    assert!(wants_zip_download(Some("download=zip")));
    assert!(wants_zip_download(Some("a=1&download=zip&b=2")));
    assert!(!wants_zip_download(Some("download=zipx")));
    assert!(!wants_zip_download(Some("xdownload=zip")));
    assert!(!wants_zip_download(None));
    assert!(needs_webui_auth(true, "GET"));
    assert!(needs_webui_auth(true, "HEAD"));
    assert!(!needs_webui_auth(true, "PROPFIND"));
    assert!(!needs_webui_auth(false, "GET"));
}

#[test]
fn content_disposition_values() {
    assert_eq!(
        zip_content_disposition("docs"),
        "attachment; filename=\"docs.zip\"; filename*=UTF-8''docs.zip"
    );
    assert_eq!(
        zip_content_disposition("文档"),
        "attachment; filename=\"__.zip\"; filename*=UTF-8''%E6%96%87%E6%A1%A3.zip"
    );
    assert_eq!(
        zip_content_disposition("my dir"),
        "attachment; filename=\"my_dir.zip\"; filename*=UTF-8''my%20dir.zip"
    );
    assert_eq!(zip_content_disposition(""), "attachment; filename=\"download.zip\"; filename*=UTF-8''.zip");
}

#[test]
fn page_replies_and_content_types() {
    assert_eq!(plan_page_reply(PathKind::Dir, true, true), PageReply::Zip);
    assert_eq!(plan_page_reply(PathKind::Dir, false, true), PageReply::Listing);
    assert_eq!(plan_page_reply(PathKind::Dir, false, false), PageReply::Page);
    assert_eq!(plan_page_reply(PathKind::File, true, false), PageReply::File);
    assert_eq!(plan_page_reply(PathKind::Missing, false, false), PageReply::NotFound);
    assert_eq!(content_type_for(&detect_mime("a.txt")), "text/plain; charset=utf-8");
    assert_eq!(content_type_for(&detect_mime("a.png")), "image/png");
}

#[test]
fn dav_methods_and_bodies() {
    assert_eq!(dav_method("PROPFIND"), DavMethod::Propfind);
    assert_eq!(dav_method("MKCOL"), DavMethod::Mkcol);
    assert_eq!(dav_method("propfind"), DavMethod::Other);
    let body = lock_body(None);
    assert!(body.contains("<D:timeout>Second-3600</D:timeout>"));
    assert!(body.contains("<D:locktoken><D:href>opaquelocktoken:echofs-readonly-lock</D:href></D:locktoken>"));
    assert!(lock_body(Some("Infinite")).contains("<D:timeout>Infinite</D:timeout>"));
    assert_eq!(lock_token_header(), "<opaquelocktoken:echofs-readonly-lock>");
    assert!(proppatch_body("").contains("<D:href>/</D:href>"));
    assert!(proppatch_body("//a/b").contains("<D:href>/a/b</D:href>"));
    let (status, body) = error_reply(&AppError::Conflict("x<y".into()));
    assert_eq!(status, 409);
    assert_eq!(
        body,
        "<?xml version=\"1.0\" encoding=\"utf-8\"?>\n<D:error xmlns:D=\"DAV:\">\n<D:message>x&lt;y</D:message>\n</D:error>\n"
    );
}

#[test]
fn destination_header() {
    assert_eq!(parse_destination(Some("http://host:8080/a%20b/c.txt")).unwrap(), "/a b/c.txt");
    assert_eq!(parse_destination(Some("/plain/path")).unwrap(), "/plain/path");
    assert!(matches!(parse_destination(None), Err(AppError::BadRequest(_))));
    assert!(matches!(parse_destination(Some("/x/../sub2")), Err(AppError::BadRequest(_))));
    assert!(matches!(parse_destination(Some("/x/%2e%2e/y")), Err(AppError::BadRequest(_))));
    assert_eq!(parse_destination(Some("/a..b/.c")).unwrap(), "/a..b/.c");
}

#[test]
fn paths_and_hrefs() {
    assert_eq!(normalize_rel_path("/sub//"), "sub");
    assert_eq!(normalize_rel_path("a//b/"), "a/b");
    assert_eq!(normalize_rel_path(""), "");
    assert_eq!(normalize_rel_path("///"), "");
    assert_eq!(self_href("", "", true), "/");
    assert_eq!(self_href("sub", "sub", true), "/sub/");
    assert_eq!(self_href("my dir/f", "my%20dir/f", false), "/my%20dir/f");
    assert_eq!(child_href("/a", true), "/a/");
    assert_eq!(child_href("/a", false), "/a");
}

#[test]
fn resources_and_multistatus() {
    let d = dir_resource("/sub/", Some("sub".into()), Some(1704067200), Some(1704067200));
    assert_eq!(d.creation_date, "2024-01-01T00:00:00Z");
    assert_eq!(d.last_modified, "Mon, 01 Jan 2024 00:00:00 GMT");
    assert_eq!(d.etag, format!("\"dir-{}\"", simple_hash("/sub/")));
    let root = dir_resource("/", None, None, None);
    assert_eq!(root.display_name, "/");
    assert_eq!(root.creation_date, "");
    let f = file_resource("/f.txt", "/srv/f.txt", Some("f.txt".into()), 255, None, Some(16));
    assert_eq!(f.content_type, "text/plain");
    assert_eq!(f.etag, "\"ff-10\"");
    let e = DirEntry {
        name: "x.bin".into(),
        is_dir: false,
        size: 1,
        size_display: String::new(),
        created: String::new(),
        modified: String::new(),
        created_ts: 0,
        modified_ts: -1,
        icon: String::new(),
        href: "/x.bin".into(),
        media_type: String::new(),
    };
    let r = entry_to_resource(&e, "/x.bin");
    assert_eq!(r.etag, "\"1-ffffffffffffffff\"");
    assert_eq!(r.last_modified, "");
    let body = multistatus_body(&vec![d, f]);
    assert!(body.starts_with("<?xml version=\"1.0\" encoding=\"utf-8\"?>\n<D:multistatus xmlns:D=\"DAV:\">\n<D:response>"));
    assert!(body.ends_with("</D:response>\n</D:multistatus>\n"));
    assert_eq!(body.matches("<D:response>").count(), 2);
}

#[test]
fn write_guards() {
    assert_eq!(put_status(true), 204);
    assert_eq!(put_status(false), 201);
    assert!(check_delete(b"/srv/", b"/srv").is_err());
    assert!(check_delete(b"/srv/a", b"/srv").is_ok());
    assert!(matches!(check_mkcol(true), Err(AppError::Conflict(_))));
    assert_eq!(check_mkcol(false).unwrap(), 201);
    // file onto itself, file onto a directory, directory into itself
    assert!(is_destructive_destination(b"/r/f", b"/r/f", true, false, Some(b"/r/f")));
    assert!(is_destructive_destination(b"/r/f", b"/r/d", true, true, Some(b"/r/d")));
    assert!(is_destructive_destination(b"/r/d", b"/r/d/x", false, false, None));
    assert!(is_destructive_destination(b"/r/d", b"/r", false, true, Some(b"/r")));
    assert!(!is_destructive_destination(b"/r/d", b"/r/dd", false, false, None));
    assert!(!is_destructive_destination(b"/r/f", b"/r/g", true, false, None));
    assert!(is_same_resource_alias(true, b"/r/file.txt", b"/r/FILE.TXT", Some(b"/r/file.txt")));
    assert!(!is_same_resource_alias(true, b"/r/a", b"/r/a", Some(b"/r/a")));
    assert_eq!(copy_outcome(false, true, true).unwrap(), 204);
    assert!(matches!(copy_outcome(false, true, false), Err(AppError::Conflict(_))));
    assert!(matches!(copy_outcome(true, false, true), Err(AppError::Conflict(_))));
    let p = move_outcome(true, true, true, true).unwrap();
    assert!(!p.remove_existing);
    assert_eq!(p.status, 204);
    let p = move_outcome(false, false, true, true).unwrap();
    assert!(p.remove_existing);
    assert!(move_outcome(false, true, false, true).is_err());
}

#[test]
fn decoded_destination_with_dot_segments_is_refused() {
    assert_eq!(checked_destination("/a/b.txt".to_string()).ok(), Some("/a/b.txt".to_string()));
    assert_eq!(checked_destination("/a/..b/.c".to_string()).ok(), Some("/a/..b/.c".to_string()));
    for bad in ["/a/../b", "/./x", "/a/..", ".", "/a/."] {
        match checked_destination(bad.to_string()) {
            Err(AppError::BadRequest(m)) => {
                assert_eq!(m, "Destination must not contain '.' or '..' path segments")
            }
            other => panic!("{bad:?} gave {:?}", other.map_err(|e| e.to_string())),
        }
    }
}

#[test]
fn base64_round_trips_padded_and_unicode_text() {
    // "你好" in UTF-8 is six bytes: two full groups, no padding.
    assert_eq!(base64_decode("5L2g5aW9"), Some("你好".to_string()));
    // One and two bytes left over: "==" and "=" padding.
    assert_eq!(base64_decode("YQ=="), Some("a".to_string()));
    assert_eq!(base64_decode("YWI="), Some("ab".to_string()));
    assert_eq!(base64_decode("YWJj"), Some("abc".to_string()));
    // The credentials a client sends for a user and password with a colon in it.
    assert!(credentials_ok(Some("u"), Some("p:q"), Some("Basic dTpwOnE=")));
}

#[test]
fn base64_accepts_unpadded_and_surrounded_text_and_refuses_bad_input() {
    assert_eq!(base64_decode("YQ"), Some("a".to_string()));
    assert_eq!(base64_decode("YWI"), Some("ab".to_string()));
    assert_eq!(base64_decode("  YWRtaW46c2VjcmV0\n"), Some("admin:secret".to_string()));
    assert_eq!(base64_decode("\tYQ== "), Some("a".to_string()));
    // A character outside the alphabet before the padding.
    assert_eq!(base64_decode("Y!Q="), None);
    // Anything after the first '=' is not read.
    assert_eq!(base64_decode("YQ==!!"), Some("a".to_string()));
    // 0xFF is not UTF-8.
    assert_eq!(base64_decode("/w=="), None);
}

#[test]
fn hrefs_encode_each_segment() {
    assert_eq!(encode_path_segments("a b/c%d.txt"), "a%20b/c%25d.txt");
    assert_eq!(encode_path_segments("文档/x#1?"), "%E6%96%87%E6%A1%A3/x%231%3F");
    assert_eq!(encode_path_segments("plain/name-1_2.txt"), "plain/name-1_2.txt");
    assert_eq!(resource_href("", true), "/");
    assert_eq!(resource_href("sub dir", true), "/sub%20dir/");
    assert_eq!(resource_href("sub/f.txt", false), "/sub/f.txt");
}

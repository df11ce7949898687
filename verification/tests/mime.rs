use echofs::mime_utils::{
    detect_mime, icon_for_extension, icon_for_path, is_audio, is_image, is_media, is_text, is_video,
    mime_or_default, MimeType,
};

#[test]
fn detect_mime_types() {
    let cases: Vec<(&str, &str)> = vec![
        ("video.mp4", "video"),
        ("image.png", "image"),
        ("file.txt", "text"),
        ("file.xyzabc", "application"),
        ("noext", "application"),
    ];
    for (file, expected_type) in cases {
        let m = detect_mime(file);
        assert_eq!(m.top, expected_type, "MIME type mismatch for {}", file);
    }
    assert_eq!(detect_mime("image.png").text, mime::IMAGE_PNG.to_string());
    assert_eq!(detect_mime("file.txt").text, mime::TEXT_PLAIN.to_string());
    assert_eq!(detect_mime("file.xyzabc").text, mime::APPLICATION_OCTET_STREAM.to_string());
}

#[test]
fn media_type_classification() {
    let cases = [
        ("video.mp4", true, false, false, false, true),
        ("song.mp3", false, true, false, false, true),
        ("photo.jpg", false, false, true, false, true),
        ("readme.txt", false, false, false, true, false),
    ];
    for (file, vid, aud, img, txt, med) in cases {
        let m = detect_mime(file);
        assert_eq!(is_video(&m), vid, "is_video mismatch for {}", file);
        assert_eq!(is_audio(&m), aud, "is_audio mismatch for {}", file);
        assert_eq!(is_image(&m), img, "is_image mismatch for {}", file);
        assert_eq!(is_text(&m), txt, "is_text mismatch for {}", file);
        assert_eq!(is_media(&m), med, "is_media mismatch for {}", file);
    }
}

#[test]
fn icon_mapping() {
    let cases = [
        ("anything", true, "folder"),
        ("v.mp4", false, "video"),
        ("a.mp3", false, "audio"),
        ("i.jpg", false, "image"),
        ("f.txt", false, "text"),
        ("main.go", false, "code"),
        ("data.zip", false, "archive"),
        ("doc.pdf", false, "pdf"),
        ("file.xyzabc", false, "file"),
    ];
    for (file, is_dir, expected) in cases {
        assert_eq!(icon_for_path(file, is_dir), expected, "icon mismatch for {} (is_dir={})", file, is_dir);
    }
}

#[test]
fn icon_uses_case_insensitive_extension_and_path_rules() {
    assert_eq!(icon_for_path("REPORT.DOCX", false), "document");
    assert_eq!(icon_for_path("dir/sheet.Xlsx", false), "spreadsheet");
    assert_eq!(icon_for_path("slides.pptx", false), "presentation");
    assert_eq!(icon_for_path(".bashrc", false), "file");
    assert_eq!(icon_for_path("archive.tar", false), "archive");
    assert_eq!(icon_for_path("noext", false), "file");
}

#[test]
fn missing_guess_falls_back_to_octet_stream() {
    let m = mime_or_default(None);
    assert_eq!(m.top, "application");
    assert_eq!(m.text, "application/octet-stream");
    let g = MimeType { top: "image".to_string(), text: "image/png".to_string() };
    let m = mime_or_default(Some(g));
    assert_eq!(m.top, "image");
    assert_eq!(m.text, "image/png");
}

#[test]
fn extension_icons() {
    let cases = [
        ("pdf", "pdf"),
        ("zip", "archive"),
        ("7z", "archive"),
        ("docx", "document"),
        ("csv", "spreadsheet"),
        ("pptx", "presentation"),
        ("rs", "code"),
        ("sql", "code"),
        ("PDF", "file"),
        ("", "file"),
        ("exe", "file"),
    ];
    for (ext, icon) in cases {
        assert_eq!(icon_for_extension(ext), icon, "extension {ext:?}");
    }
}

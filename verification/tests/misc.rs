use echofs::cli::Args;
use echofs::config::ServerConfig;
use echofs::logging::{log_choice, request_kind, LogChoice};
use echofs::netinfo::{collect_local_ips, listen_urls, IfaceAddr, Ip, ShownIp};
use echofs::paths::{path_extension, path_file_name, same_path, starts_with_path};
use echofs::server::{bind_error_text, StartError};
use echofs::throttle::speed_parts;
use echofs::zip_stream::{
    admit_entry, archive_name, base_depth, is_already_compressed, link_stays_inside, plan_entry,
    refuse_dot_segments, resolve_verdict, top_folder_name, EntryKind, VisitedDirs,
};

fn args() -> Args {
    Args {
        root: ".".to_string(),
        port: 8080,
        bind: "0.0.0.0".to_string(),
        open: false,
        show_hidden: false,
        max_depth: -1,
        log: "stdout".to_string(),
        speed_limit: None,
        no_webdav: false,
        webdav_user: None,
        webdav_pass: None,
        webui_auth: false,
    }
}

#[test]
fn from_arg_stdout() {
    assert!(matches!(log_choice("stdout"), LogChoice::Stdout));
}

#[test]
fn from_arg_off() {
    assert!(matches!(log_choice("off"), LogChoice::Off));
}

#[test]
fn from_arg_file() {
    let path = "access.log".to_string();
    assert!(matches!(log_choice(&path), LogChoice::File(_)));
    assert_eq!(request_kind(true), 'A');
    assert_eq!(request_kind(false), 'P');
}

#[test]
fn args_and_config() {
    let mut a = args();
    assert_eq!(a.bind_addr(), "0.0.0.0:8080");
    assert!(a.validate().is_ok());
    a.webui_auth = true;
    assert_eq!(
        a.validate().unwrap_err(),
        "--webui-auth requires --webdav-user to be set (web UI shares WebDAV credentials)"
    );
    a.webdav_user = Some("u".into());
    assert!(a.validate().is_ok());
    let c = ServerConfig::from_args(&a, std::path::PathBuf::from("/srv"), Some(1024));
    assert_eq!(c.bind_addr(), "0.0.0.0:8080");
    assert!(c.is_wildcard_bind());
    assert!(c.webdav);
    assert_eq!(c.speed_limit, Some(1024));
    let mut c2 = c.clone();
    c2.bind = "127.0.0.1".into();
    c2.port = 0;
    assert!(!c2.is_wildcard_bind());
    assert_eq!(c2.bind_addr(), "127.0.0.1:0");
    c2.bind = "::".into();
    assert!(c2.is_wildcard_bind());
}

#[test]
fn speed_texts_split() {
    assert_eq!(speed_parts(" 500k "), Some(("500".to_string(), 1024)));
    assert_eq!(speed_parts("1.5M"), Some(("1.5".to_string(), 1024 * 1024)));
    assert_eq!(speed_parts("2g"), Some(("2".to_string(), 1024 * 1024 * 1024)));
    assert_eq!(speed_parts("1024"), Some(("1024".to_string(), 1)));
    assert_eq!(speed_parts("k"), Some(("".to_string(), 1024)));
    assert_eq!(speed_parts("   "), None);
}

#[test]
fn path_rules() {
    assert!(starts_with_path(b"/a/b/c", b"/a/b"));
    assert!(starts_with_path(b"/a/b/", b"/a//b"));
    assert!(!starts_with_path(b"/a/bc", b"/a/b"));
    assert!(!starts_with_path(b"a/b", b"/a"));
    assert!(same_path(b"/a/./b/", b"/a/b"));
    assert!(!same_path(b"/a/../b", b"/b"));
    assert_eq!(path_file_name(b"/a/b.txt"), Some(b"b.txt".to_vec()));
    assert_eq!(path_file_name(b"/a/.."), None);
    assert_eq!(path_file_name(b"/"), None);
    assert_eq!(path_extension(b"x/archive.tar.gz"), Some(b"gz".to_vec()));
    assert_eq!(path_extension(b".bashrc"), None);
    assert_eq!(path_extension(b"a."), Some(b"".to_vec()));
}

#[test]
fn archive_rules() {
    assert!(is_already_compressed("docs/photo.JPG"));
    assert!(!is_already_compressed("docs/hello.txt"));
    assert!(!is_already_compressed("zip"));
    assert!(is_already_compressed("ZIP"));
    assert_eq!(top_folder_name(Some("docs".into())), "docs");
    assert_eq!(top_folder_name(Some("".into())), "archive");
    assert_eq!(top_folder_name(None), "archive");
    assert_eq!(base_depth(""), 0);
    assert_eq!(base_depth("/a//b/"), 2);
    assert!(admit_entry("a.txt", false, true, EntryKind::File, 1, -1));
    assert!(!admit_entry(".secret", false, true, EntryKind::File, 1, -1));
    assert!(admit_entry(".secret", true, true, EntryKind::File, 1, -1));
    assert!(!admit_entry("link", false, false, EntryKind::File, 1, -1));
    assert!(!admit_entry("fifo", false, true, EntryKind::Other, 1, -1));
    assert!(admit_entry("x.txt", false, true, EntryKind::File, 2, 1));
    assert!(!admit_entry("deep", false, true, EntryKind::Dir, 2, 1));
    assert!(admit_entry("top.txt", false, true, EntryKind::File, 1, 0));
    assert!(link_stays_inside(b"/root/docs/f", b"/root"));
    assert!(!link_stays_inside(b"/outside/secret.txt", b"/root"));
    assert_eq!(archive_name("docs", "a.txt"), "docs/a.txt");
    let p = plan_entry("docs/sub", true, 0);
    assert_eq!(p.name, "docs/sub/");
    assert!(p.stored && p.dir_mode);
    let p = plan_entry("docs/a.png", false, 0x1_0000_0000);
    assert!(p.stored && p.large && !p.dir_mode);
}

#[test]
fn local_addresses_and_urls() {
    let probe = Some(Ip::V4(0xC0A8_0105));
    let ifaces = vec![
        IfaceAddr { name: "lo".into(), ip: Ip::V4(0x7F00_0001) },
        IfaceAddr { name: "eth0".into(), ip: Ip::V4(0xC0A8_0105) },
        IfaceAddr { name: "eth0".into(), ip: Ip::V4(0x0A00_0002) },
        IfaceAddr { name: "eth1".into(), ip: Ip::V6(1) },
        IfaceAddr { name: "eth1".into(), ip: Ip::V6(0xfe80 << 112) },
    ];
    let ips = collect_local_ips(probe, &ifaces);
    assert_eq!(ips, vec![Ip::V4(0xC0A8_0105), Ip::V4(0x0A00_0002), Ip::V6(0xfe80 << 112)]);
    let shown = vec![
        ShownIp { ip: Ip::V4(0x0A00_0002), v6_text: String::new() },
        ShownIp { ip: Ip::V6(0xfe80 << 112), v6_text: "fe80::".into() },
    ];
    assert_eq!(
        listen_urls("0.0.0.0", 8080, &shown),
        vec!["http://127.0.0.1:8080", "http://10.0.0.2:8080", "http://[fe80::]:8080"]
    );
    assert_eq!(listen_urls("192.168.1.5", 80, &shown), vec!["http://192.168.1.5:80"]);
}

#[test]
fn start_error_text() {
    let e = StartError::Bind(std::io::Error::new(std::io::ErrorKind::AddrInUse, "in use"));
    assert_eq!(e.to_string(), "failed to bind listener: in use");
}

#[test]
fn looser_options_never_drop_entries() {
    let kinds = [EntryKind::Dir, EntryKind::File];
    for kind in kinds {
        for depth in 0..5u32 {
            for limit in 0..4i32 {
                if admit_entry("docs", false, true, kind, depth, limit) {
                    assert!(admit_entry("docs", true, true, kind, depth, limit + 1));
                    assert!(admit_entry("docs", true, true, kind, depth, -1));
                }
            }
        }
    }
    // A directory two levels down needs a limit of at least 2; a file, at least 1.
    assert!(!admit_entry("d", false, true, EntryKind::Dir, 2, 1));
    assert!(admit_entry("d", false, true, EntryKind::Dir, 2, 2));
    assert!(admit_entry("f", false, true, EntryKind::File, 2, 1));
    assert!(!admit_entry(".h", false, true, EntryKind::File, 1, -1));
    assert!(admit_entry(".h", true, true, EntryKind::File, 1, -1));
}

#[test]
fn failed_or_loopback_probe_is_not_listed() {
    let ifaces = vec![
        IfaceAddr { name: "eth0".into(), ip: Ip::V4(0) },
        IfaceAddr { name: "eth0".into(), ip: Ip::V6(0) },
        IfaceAddr { name: "eth0".into(), ip: Ip::V4(0x0A00_0002) },
    ];
    // A probe that could not connect reports 0.0.0.0.
    assert_eq!(collect_local_ips(Some(Ip::V4(0)), &ifaces), vec![Ip::V4(0x0A00_0002)]);
    assert_eq!(collect_local_ips(Some(Ip::V4(0x7F00_0001)), &vec![]), vec![]);
    assert_eq!(collect_local_ips(Some(Ip::V6(1)), &ifaces), vec![Ip::V4(0x0A00_0002)]);
    assert_eq!(collect_local_ips(None, &vec![]), vec![]);
}

#[test]
fn a_directory_is_entered_once() {
    let mut v = VisitedDirs::new(b"/srv/docs");
    assert!(v.first_visit(b"/srv/docs/sub"));
    // The same paths, spelled with extra separators.
    assert!(!v.first_visit(b"/srv/docs/sub/"));
    assert!(!v.first_visit(b"/srv//docs"));
    assert!(v.first_visit(b"/srv/other"));
    assert!(!v.first_visit(b"/srv/other"));
}

#[test]
fn request_paths_are_split_checked_and_judged() {
    let segs = echofs::webdav::request_segments("/a//b/c.txt/");
    assert_eq!(segs, vec!["a".to_string(), "b".to_string(), "c.txt".to_string()]);
    assert!(echofs::webdav::request_segments("///").is_empty());

    assert!(refuse_dot_segments(&segs).is_ok());
    let dotted = echofs::webdav::request_segments("a/../b");
    match refuse_dot_segments(&dotted) {
        Err(echofs::error::AppError::Forbidden(m)) => assert_eq!(m, "路径不允许包含 . 或 .."),
        other => panic!("{:?}", other.map_err(|e| e.to_string())),
    }
    assert!(refuse_dot_segments(&vec!["..a".to_string(), ".h".to_string()]).is_ok());

    // A file two levels down is served with a limit of 1; a directory there is forbidden.
    let two = vec!["d".to_string(), "f".to_string()];
    assert!(resolve_verdict(&two, false, 1, true, EntryKind::File).is_ok());
    match resolve_verdict(&two, false, 1, true, EntryKind::Dir) {
        Err(echofs::error::AppError::Forbidden(m)) => assert_eq!(m, "禁止访问"),
        other => panic!("{:?}", other.map_err(|e| e.to_string())),
    }
    // A hidden segment anywhere is forbidden unless hidden names are shown.
    let hidden = vec![".git".to_string(), "config".to_string()];
    assert!(matches!(resolve_verdict(&hidden, false, -1, true, EntryKind::File), Err(echofs::error::AppError::Forbidden(_))));
    assert!(resolve_verdict(&hidden, true, -1, true, EntryKind::File).is_ok());
    // Something that is neither a file nor a directory is not found.
    assert!(matches!(resolve_verdict(&two, false, -1, true, EntryKind::Other), Err(echofs::error::AppError::NotFound(_))));
    // Outside the root is forbidden.
    match resolve_verdict(&two, false, -1, false, EntryKind::File) {
        Err(echofs::error::AppError::Forbidden(m)) => assert_eq!(m, "禁止访问根目录之外的路径"),
        other => panic!("{:?}", other.map_err(|e| e.to_string())),
    }
    assert!(matches!(resolve_verdict(&vec![], false, -1, false, EntryKind::Dir), Err(echofs::error::AppError::Forbidden(_))));
    assert!(resolve_verdict(&vec![], false, 0, true, EntryKind::Dir).is_ok());
}

#[test]
fn bind_error_text_joins_prefix_and_io_text() {
    assert_eq!(bind_error_text("Address already in use (os error 98)"), "failed to bind listener: Address already in use (os error 98)");
    assert_eq!(bind_error_text(""), "failed to bind listener: ");
}

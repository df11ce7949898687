use echofs::cli::Args;
use echofs::panel::{
    build_config, form_from_args, locale_from_vars, qr_color_image, qr_raster, tr, Lang, LogBuffer, RootCheck, MAX_LOG_LINES,
};

#[test]
fn locale_chinese_variants_select_zh() {
    for loc in ["zh", "zh_CN", "zh_CN.UTF-8", "zh-Hans", "zh_TW", "ZH_cn", " zh_CN"] {
        assert_eq!(Lang::from_locale(Some(loc)), Lang::Zh, "locale {loc:?}");
    }
}

#[test]
fn locale_non_chinese_selects_en() {
    for loc in ["en_US.UTF-8", "en", "fr_FR", "ja_JP", "C", "POSIX", ""] {
        assert_eq!(Lang::from_locale(Some(loc)), Lang::En, "locale {loc:?}");
    }
}

#[test]
fn locale_missing_defaults_to_en() {
    assert_eq!(Lang::from_locale(None), Lang::En);
}

#[test]
fn tr_picks_the_active_language() {
    assert_eq!(tr(Lang::En, "Start", "启动"), "Start");
    assert_eq!(tr(Lang::Zh, "Start", "启动"), "启动");
}

#[test]
fn every_language_has_a_native_name() {
    for lang in Lang::ALL {
        assert!(!lang.native_name().is_empty());
    }
}

fn args() -> Args {
    Args {
        root: ".".to_string(),
        port: 8080,
        bind: "0.0.0.0".to_string(),
        open: false,
        show_hidden: false,
        max_depth: -1,
        log: "stdout".to_string(),
        speed_limit: None,
        no_webdav: false,
        webdav_user: None,
        webdav_pass: None,
        webui_auth: false,
    }
}

#[test]
fn form_prefill_from_args() {
    let mut a = args();
    a.max_depth = 3;
    a.speed_limit = Some("1m".into());
    a.webdav_user = Some("admin".into());
    let f = form_from_args(&a, "/srv".into());
    assert_eq!(f.port, "8080");
    assert_eq!(f.max_depth, "3");
    assert_eq!(f.speed_limit, "1m");
    assert_eq!(f.webdav_user, "admin");
    assert_eq!(f.webdav_pass, "");
    let f = form_from_args(&args(), "/srv".into());
    assert_eq!(f.max_depth, "");
}

#[test]
fn build_config_validates_in_order() {
    let dir = || RootCheck::Dir(std::path::PathBuf::from("/srv"));
    let mut f = form_from_args(&args(), "/srv".into());
    assert_eq!(
        build_config(&f, Lang::En, RootCheck::Missing, None).unwrap_err(),
        "Root directory does not exist: /srv"
    );
    assert_eq!(
        build_config(&f, Lang::Zh, RootCheck::NotDir, None).unwrap_err(),
        "根路径不是目录: /srv"
    );
    f.port = " 99999 ".into();
    assert_eq!(build_config(&f, Lang::En, dir(), None).unwrap_err(), "Invalid port:  99999 ");
    f.port = " 8081 ".into();
    f.max_depth = "x".into();
    assert_eq!(build_config(&f, Lang::En, dir(), None).unwrap_err(), "Invalid max depth: x");
    f.max_depth = " 2".into();
    f.speed_limit = "fast".into();
    assert_eq!(
        build_config(&f, Lang::En, dir(), None).unwrap_err(),
        "Invalid speed limit: fast (examples: 500k, 1m, 10m)"
    );
    f.speed_limit = "".into();
    f.webui_auth = true;
    f.webdav_user = "  ".into();
    assert_eq!(
        build_config(&f, Lang::En, dir(), None).unwrap_err(),
        "Configuration error: --webui-auth requires --webdav-user"
    );
    f.webdav_user = " admin ".into();
    f.bind = " 127.0.0.1 ".into();
    let c = build_config(&f, Lang::En, dir(), None).unwrap();
    assert_eq!(c.port, 8081);
    assert_eq!(c.max_depth, 2);
    assert_eq!(c.bind, "127.0.0.1");
    assert_eq!(c.webdav_user.as_deref(), Some("admin"));
    assert_eq!(c.webdav_pass, None);
    assert_eq!(c.speed_limit, None);
    f.bind = "   ".into();
    assert_eq!(
        build_config(&f, Lang::Zh, dir(), None).unwrap_err(),
        "绑定地址不能为空"
    );
}

#[test]
fn log_buffer_keeps_newest_lines() {
    let mut b = LogBuffer::new();
    for i in 0..(MAX_LOG_LINES + 5) {
        b.push_line(format!("line {}", i));
    }
    assert_eq!(b.len(), MAX_LOG_LINES);
    assert_eq!(b.line(0), "line 5");
    assert_eq!(b.line(MAX_LOG_LINES - 1), &format!("line {}", MAX_LOG_LINES + 4));
}

#[test]
fn qr_image_draws_code_with_quiet_zone() {
    let img = qr_color_image("hello").expect("short text fits");
    // Five bytes fit a version-1 code: 21 modules, 4 quiet modules each side, 6 px per module.
    assert_eq!(img.side, (21 + 8) * 6);
    assert_eq!(img.rgba.len(), img.side * img.side * 4);
    let px = |x: usize, y: usize| &img.rgba[(y * img.side + x) * 4..(y * img.side + x) * 4 + 4];
    // The quiet zone is white.
    assert_eq!(px(0, 0), &[255, 255, 255, 255]);
    assert_eq!(px(23, 23), &[255, 255, 255, 255]);
    // The top-left finder pattern starts with a dark module.
    assert_eq!(px(24, 24), &[0, 0, 0, 255]);
    assert_eq!(px(29, 29), &[0, 0, 0, 255]);
    // Its second ring is light.
    assert_eq!(px(30, 30), &[255, 255, 255, 255]);
}

#[test]
fn qr_image_refuses_oversized_text() {
    let long = "x".repeat(8000);
    assert!(qr_color_image(&long).is_none());
}

#[test]
fn qr_raster_scales_modules_inside_quiet_zone() {
    // A 1-module code: one dark module, 4 quiet modules around, 6 px each.
    let img = qr_raster(1, &vec![true]);
    assert_eq!(img.side, 54);
    assert_eq!(img.rgba.len(), 54 * 54 * 4);
    let px = |x: usize, y: usize| img.rgba[(y * 54 + x) * 4..(y * 54 + x) * 4 + 4].to_vec();
    assert_eq!(px(23, 24), vec![255, 255, 255, 255]);
    assert_eq!(px(24, 24), vec![0, 0, 0, 255]);
    assert_eq!(px(29, 29), vec![0, 0, 0, 255]);
    assert_eq!(px(30, 29), vec![255, 255, 255, 255]);

    // A 2-module code with only the bottom-left module dark.
    let img = qr_raster(2, &vec![false, false, true, false]);
    assert_eq!(img.side, 60);
    let px = |x: usize, y: usize| img.rgba[(y * 60 + x) * 4..(y * 60 + x) * 4 + 4].to_vec();
    assert_eq!(px(24, 24), vec![255, 255, 255, 255]);
    assert_eq!(px(24, 30), vec![0, 0, 0, 255]);
    assert_eq!(px(30, 30), vec![255, 255, 255, 255]);
}

#[test]
fn locale_comes_from_first_usable_variable() {
    let v = |x: &str| Some(x.to_string());
    assert_eq!(locale_from_vars(&vec![None, v(" zh_CN.UTF-8 "), v("en_US")]), Some("zh_CN.UTF-8".to_string()));
    assert_eq!(locale_from_vars(&vec![v("C"), v(""), v("POSIX"), v("fr_FR")]), Some("fr_FR".to_string()));
    assert_eq!(locale_from_vars(&vec![v("C"), None, v("  "), v("POSIX")]), None);
    assert_eq!(locale_from_vars(&vec![]), None);
    let picked = locale_from_vars(&vec![None, v("zh_TW")]);
    assert_eq!(Lang::from_locale(picked.as_deref()), Lang::Zh);
}

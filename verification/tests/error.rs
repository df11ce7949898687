use axum::http::StatusCode;
use std::io::{Error, ErrorKind};
use echofs::error::AppError;

#[test]
fn error_status_codes() {
    let cases: Vec<(AppError, StatusCode)> = vec![
        (AppError::NotFound("gone".into()), StatusCode::NOT_FOUND),
        (AppError::Forbidden("nope".into()), StatusCode::FORBIDDEN),
        (AppError::BadRequest("bad".into()), StatusCode::BAD_REQUEST),
        (AppError::Internal("oops".into()), StatusCode::INTERNAL_SERVER_ERROR),
    ];
    for (err, expected) in cases {
        assert_eq!(err.status(), expected.as_u16());
    }
}

#[test]
fn display_format() {
    let cases = [
        (AppError::NotFound("test".into()), "未找到: test"),
        (AppError::Forbidden("test".into()), "禁止访问: test"),
        (AppError::BadRequest("test".into()), "请求错误: test"),
    ];
    for (err, expected) in cases {
        assert_eq!(err.to_string(), expected);
    }
}

#[test]
fn from_io_error() {
    let cases: Vec<(ErrorKind, fn(&AppError) -> bool)> = vec![
        (ErrorKind::NotFound, |e| matches!(e, AppError::NotFound(_))),
        (ErrorKind::PermissionDenied, |e| matches!(e, AppError::Forbidden(_))),
        (ErrorKind::BrokenPipe, |e| matches!(e, AppError::Internal(_))),
    ];
    for (kind, check) in cases {
        let app_err = AppError::from_io_error(Error::new(kind, "msg"));
        assert!(check(&app_err), "wrong variant for {:?}", kind);
    }
}

#[test]
fn conflict_has_status_409_and_title() {
    let e = AppError::Conflict("x".into());
    assert_eq!(e.status(), 409);
    assert_eq!(e.to_string(), "冲突: x");
    let internal = AppError::Internal("boom".into());
    let (status, title, msg) = internal.status_and_message();
    assert_eq!((status, title, msg), (500, "服务器内部错误", "boom"));
}

#[test]
fn io_error_message_is_kept() {
    let e = AppError::from_io_error(std::io::Error::new(std::io::ErrorKind::NotFound, "no such file"));
    match e {
        AppError::NotFound(m) => assert_eq!(m, "no such file"),
        other => panic!("unexpected {:?}", other),
    }
    let e = AppError::from_io(echofs::error::IoErrorKind::Other, "disk".to_string());
    assert!(matches!(e, AppError::Internal(ref m) if m == "disk"));
}

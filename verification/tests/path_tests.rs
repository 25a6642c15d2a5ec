use haske_core::path::{compile_path, match_path, PathError};

#[test]
fn compile_single_param() {
    assert_eq!(
        compile_path("/user/:id").unwrap(),
        "^/user/(?P<id>[^/]+)$"
    );
}

#[test]
fn compile_escapes_meta_characters() {
    assert_eq!(compile_path("/a.b").unwrap(), "^/a\\.b$");
    assert_eq!(compile_path("/v1+x").unwrap(), "^/v1\\+x$");
}

#[test]
fn compile_plain_path() {
    assert_eq!(compile_path("/health").unwrap(), "^/health$");
}

#[test]
fn compile_rejects_relative_path() {
    assert_eq!(compile_path("user/:id"), Err(PathError::NotAbsolute));
    assert_eq!(compile_path(""), Err(PathError::NotAbsolute));
}

#[test]
fn compile_rejects_invalid_runs() {
    assert_eq!(compile_path("/a//b"), Err(PathError::InvalidPattern));
    assert_eq!(compile_path("/a/::b"), Err(PathError::InvalidPattern));
}

#[test]
fn compile_rejects_empty_param_name() {
    assert_eq!(compile_path("/a/:/b"), Err(PathError::EmptyParamName));
}

#[test]
fn compile_rejects_too_many_params() {
    let mut path = String::new();
    for i in 0..21 {
        path.push_str(&format!("/:p{}", i));
    }
    assert_eq!(compile_path(&path), Err(PathError::TooManyParams));
    let mut ok_path = String::new();
    for i in 0..20 {
        ok_path.push_str(&format!("/:q{}", i));
    }
    assert!(compile_path(&ok_path).is_ok());
}

#[test]
fn match_extracts_params() {
    let pattern = compile_path("/user/:id/post/:pid").unwrap();
    let captured = match_path(&pattern, "/user/7/post/99").unwrap().unwrap();
    assert_eq!(
        captured,
        vec![
            ("id".to_string(), "7".to_string()),
            ("pid".to_string(), "99".to_string()),
        ]
    );
    assert_eq!(match_path(&pattern, "/user/7").unwrap(), None);
}

#[test]
fn match_rejects_invalid_pattern() {
    assert_eq!(match_path("(unclosed", "/x"), Err(PathError::RegexRejected));
}

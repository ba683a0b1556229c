use shareplay::AdminPasswordReq;
use shareplay::ApiError;
use shareplay::ChangePasswordReq;
use shareplay::Config;
use shareplay::RegisterReq;
use shareplay::UpdateMeReq;

#[test]
fn status_codes_follow_the_taxonomy() {
    assert_eq!(ApiError::BadRequest("x".to_string()).status_code(), 400);
    assert_eq!(ApiError::Unauthorized.status_code(), 401);
    assert_eq!(ApiError::Forbidden.status_code(), 403);
    assert_eq!(ApiError::NotFound.status_code(), 404);
    assert_eq!(ApiError::Conflict("x".to_string()).status_code(), 409);
    assert_eq!(ApiError::Internal.status_code(), 500);
}

#[test]
fn register_validation_bounds_username_and_password() {
    let ok = RegisterReq {
        username: "abc".to_string(),
        email: None,
        password: "12345678".to_string(),
        invite_code: None,
    };
    assert!(ok.validate().is_ok());
    let short_name = RegisterReq {
        username: "ab".to_string(),
        email: None,
        password: "12345678".to_string(),
        invite_code: None,
    };
    assert!(matches!(
        short_name.validate(),
        Err(ApiError::BadRequest(_))
    ));
    let short_pw = RegisterReq {
        username: "abc".to_string(),
        email: None,
        password: "1234567".to_string(),
        invite_code: None,
    };
    assert!(short_pw.validate().is_err());
}

#[test]
fn password_change_requires_eight_characters() {
    let ok = ChangePasswordReq {
        current_password: "old".to_string(),
        new_password: "12345678".to_string(),
    };
    assert!(ok.validate().is_ok());
    let bad = AdminPasswordReq {
        new_password: "1234567".to_string(),
    };
    assert!(bad.validate().is_err());
}

#[test]
fn profile_update_checks_username_only_when_given() {
    let none = UpdateMeReq {
        username: None,
        email: Some("a@example.org".to_string()),
    };
    assert!(none.validate().is_ok());
    let short = UpdateMeReq {
        username: Some("ab".to_string()),
        email: None,
    };
    assert!(short.validate().is_err());
}

#[test]
fn jwt_secret_bytes_are_the_secret_characters() {
    let cfg = Config {
        listen: "example.org:22800".to_string(),
        database_path: "./db.sqlite3".to_string(),
        uploads_dir: "./uploads".to_string(),
        jwt_secret: Some("test-signing-key".to_string()),
        allowed_origins: vec![],
        max_upload_size: 1024,
        presence_timeout_secs: 60,
        invite_only: false,
    };
    assert_eq!(cfg.jwt_secret_bytes(), b"test-signing-key");
}

#[test]
fn default_config_matches_the_shipped_values() {
    let cfg = Config::default();
    assert_eq!(cfg.listen, "example.org:22800");
    assert_eq!(cfg.database_path, "./stuffchat.sqlite3");
    assert_eq!(cfg.uploads_dir, "./uploads");
    assert!(cfg.jwt_secret.is_none());
    assert_eq!(cfg.allowed_origins, vec!["example.org".to_string()]);
    assert_eq!(cfg.max_upload_size, 500 * 1024 * 1024);
    assert_eq!(cfg.presence_timeout_secs, 60);
    assert!(!cfg.invite_only);
}

//! The HTTP-facing data model: request and response shapes, the service
//! configuration, the authenticated caller, and the error taxonomy.
//!
//! The transport itself lives outside the library; these types carry the
//! plain values that cross its edge, and the validation rules on them are
//! verified here.

use vstd::prelude::*;

use crate::external::chars_vec;
use vstd::utf8::is_ascii_chars;

verus! {

/// The claims carried by an access token.
#[derive(Clone, Debug)]
pub struct Claims {
    pub sub: String,
    pub exp: usize,
}

/// The authenticated caller of a request.
#[derive(Clone, Debug)]
pub struct AuthUser {
    pub user_id: String,
}

/// The error taxonomy of the service's edge.
#[derive(Clone, Debug)]
pub enum ApiError {
    BadRequest(String),
    Unauthorized,
    Forbidden,
    NotFound,
    Conflict(String),
    Internal,
}

impl ApiError {
    /// The HTTP status code each error maps to.
    pub fn status_code(&self) -> (code: u16)
        ensures
            code == (match self {
                ApiError::BadRequest(_) => 400u16,
                ApiError::Unauthorized => 401u16,
                ApiError::Forbidden => 403u16,
                ApiError::NotFound => 404u16,
                ApiError::Conflict(_) => 409u16,
                ApiError::Internal => 500u16,
            }),
    {
        match self {
            ApiError::BadRequest(_) => 400,
            ApiError::Unauthorized => 401,
            ApiError::Forbidden => 403,
            ApiError::NotFound => 404,
            ApiError::Conflict(_) => 409,
            ApiError::Internal => 500,
        }
    }
}

/// The service configuration.
#[derive(Clone, Debug)]
pub struct Config {
    pub listen: String,
    pub database_path: String,
    pub uploads_dir: String,
    pub jwt_secret: Option<String>,
    pub allowed_origins: Vec<String>,
    pub max_upload_size: usize,
    pub presence_timeout_secs: i64,
    pub invite_only: bool,
}

impl Config {
    /// The signing key bytes; the secret must have been set. For an
    /// ASCII secret the bytes are exactly its characters.
    pub fn jwt_secret_bytes(&self) -> (r: &[u8])
        requires
            self.jwt_secret is Some,
        ensures
            is_ascii_chars((self.jwt_secret->0)@) ==> r@ == Seq::new(
                (self.jwt_secret->0)@.len(),
                |i: int| (self.jwt_secret->0)@[i] as u8,
            ),
    {
        match &self.jwt_secret {
            Some(s) => {
                let st = s.as_str();
                let b = st.as_bytes();
                proof {
                    broadcast use vstd::string::is_ascii_spec_bytes;

                    if is_ascii_chars(s@) {
                        assert(vstd::string::is_ascii(st));
                        assert(b@ =~= Seq::new(s@.len(), |i: int| s@[i] as u8));
                    }
                }
                b
            },
            None => {
                proof {
                    assert(false);
                }
                &[]
            },
        }
    }
}

impl Default for Config {
    /// The configuration the service starts from when none is stored.
    fn default() -> (c: Config)
        ensures
            c.listen@ == "example.org:22800"@,
            c.database_path@ == "./stuffchat.sqlite3"@,
            c.uploads_dir@ == "./uploads"@,
            c.jwt_secret is None,
            c.allowed_origins@.len() == 1,
            c.allowed_origins@[0]@ == "example.org"@,
            c.max_upload_size == 524288000,
            c.presence_timeout_secs == 60,
            c.invite_only == false,
    {
        let mut origins: Vec<String> = Vec::new();
        origins.push("example.org".to_owned());
        Config {
            listen: "example.org:22800".to_owned(),
            database_path: "./stuffchat.sqlite3".to_owned(),
            uploads_dir: "./uploads".to_owned(),
            jwt_secret: None,
            allowed_origins: origins,
            max_upload_size: 524288000,
            presence_timeout_secs: 60,
            invite_only: false,
        }
    }
}

/// Admin request: change a user's profile fields.
#[derive(Clone, Debug)]
pub struct UpdateUserReq {
    pub username: Option<String>,
    pub email: Option<String>,
}

/// Admin request: set a user's password.
#[derive(Clone, Debug)]
pub struct AdminPasswordReq {
    pub new_password: String,
}

/// Admin request: create a role.
#[derive(Clone, Debug)]
pub struct CreateRoleReq {
    pub name: String,
    pub permissions: Option<i64>,
}

/// Admin request: replace a user's role set.
#[derive(Clone, Debug)]
pub struct UpdateUserRolesReq {
    pub role_ids: Vec<String>,
}

/// Request: create an account.
#[derive(Clone, Debug)]
pub struct RegisterReq {
    pub username: String,
    pub email: Option<String>,
    pub password: String,
    pub invite_code: Option<String>,
}

/// Response: the token set handed out on register, login and refresh.
#[derive(Clone, Debug)]
pub struct AuthResp {
    pub access_token: String,
    pub refresh_token_id: String,
    pub refresh_token: String,
    pub user_id: String,
}

/// Request: log in by username or email.
#[derive(Clone, Debug)]
pub struct LoginReq {
    pub username_or_email: String,
    pub password: String,
}

/// Request: rotate a refresh token.
#[derive(Clone, Debug)]
pub struct RefreshReq {
    pub refresh_token_id: String,
    pub refresh_token: String,
}

/// Request: revoke a refresh token.
#[derive(Clone, Debug)]
pub struct LogoutReq {
    pub refresh_token_id: String,
}

/// Request: create a channel.
#[derive(Clone, Debug)]
pub struct CreateChannelReq {
    pub name: String,
    pub is_voice: Option<bool>,
    pub is_private: Option<bool>,
}

/// Request: add and remove channel members.
#[derive(Clone, Debug)]
pub struct ModifyMembersReq {
    pub add: Option<Vec<String>>,
    pub remove: Option<Vec<String>>,
}

/// A custom emoji record.
#[derive(Clone, Debug)]
pub struct Emoji {
    pub name: String,
    pub created_at: String,
    pub created_by: String,
}

/// Response: the id of an uploaded file.
#[derive(Clone, Debug)]
pub struct UploadResp {
    pub file_id: String,
}

/// A stored upload: its id and the name it was stored under.
#[derive(Clone, Debug)]
pub struct SavedFile {
    pub file_id: String,
    pub stored_name: String,
}

/// Query: paging for message listings.
#[derive(Clone, Debug)]
pub struct ListQuery {
    pub before: Option<String>,
    pub limit: Option<i64>,
}

/// Request: post a message with text and/or an attachment.
#[derive(Clone, Debug)]
pub struct PostMessageReq {
    pub content: Option<String>,
    pub file_id: Option<String>,
}

/// Request: edit a message's text.
#[derive(Clone, Debug)]
pub struct EditMessageReq {
    pub content: String,
}

/// Request: presence heartbeat with an optional status word.
#[derive(Clone, Debug)]
pub struct HeartbeatReq {
    pub status: Option<String>,
}

/// Query: which users' presence to report.
#[derive(Clone, Debug)]
pub struct UsersQuery {
    pub ids: Option<String>,
}

/// Request: change the caller's own profile fields.
#[derive(Clone, Debug)]
pub struct UpdateMeReq {
    pub username: Option<String>,
    pub email: Option<String>,
}

/// Request: change the caller's own password.
#[derive(Clone, Debug)]
pub struct ChangePasswordReq {
    pub current_password: String,
    pub new_password: String,
}

impl RegisterReq {
    /// Accept the request exactly when the username has at least three
    /// bytes and the password at least eight.
    pub fn validate(&self) -> (r: Result<(), ApiError>)
        ensures
            r is Ok <==> self.username@.len() >= 3 && self.password@.len() >= 8,
            r is Err ==> r->Err_0 is BadRequest,
    {
        if chars_vec(self.username.as_str()).len() < 3 || chars_vec(self.password.as_str()).len()
            < 8 {
            Err(ApiError::BadRequest("username or password too short".to_owned()))
        } else {
            Ok(())
        }
    }
}

impl AdminPasswordReq {
    /// Accept the request exactly when the new password has at least
    /// eight bytes.
    pub fn validate(&self) -> (r: Result<(), ApiError>)
        ensures
            r is Ok <==> self.new_password@.len() >= 8,
            r is Err ==> r->Err_0 is BadRequest,
    {
        if chars_vec(self.new_password.as_str()).len() < 8 {
            Err(ApiError::BadRequest("new password too short".to_owned()))
        } else {
            Ok(())
        }
    }
}

impl ChangePasswordReq {
    /// Accept the request exactly when the new password has at least
    /// eight bytes.
    pub fn validate(&self) -> (r: Result<(), ApiError>)
        ensures
            r is Ok <==> self.new_password@.len() >= 8,
            r is Err ==> r->Err_0 is BadRequest,
    {
        if chars_vec(self.new_password.as_str()).len() < 8 {
            Err(ApiError::BadRequest("new password too short".to_owned()))
        } else {
            Ok(())
        }
    }
}

impl UpdateMeReq {
    /// Accept the request exactly when the new username, if one is given,
    /// has at least three bytes.
    pub fn validate(&self) -> (r: Result<(), ApiError>)
        ensures
            r is Ok <==> (match self.username {
                Some(u) => u@.len() >= 3,
                None => true,
            }),
            r is Err ==> r->Err_0 is BadRequest,
    {
        match &self.username {
            Some(u) => {
                if chars_vec(u.as_str()).len() < 3 {
                    Err(ApiError::BadRequest("username too short".to_owned()))
                } else {
                    Ok(())
                }
            },
            None => Ok(()),
        }
    }
}

} // verus!

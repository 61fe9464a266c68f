//! The administrator-facing forms; authentication itself (password
//! hashing, cookies) lives outside this crate.

use vstd::prelude::*;

use crate::model::form::{DisplayName, Email, Password};
use crate::model::Message;

verus! {

/// An authenticated administrator.
pub struct Admin {
    pub id: String,
}

/// An invitation request.
pub struct InviteForm {
    pub email: Result<Email, Vec<Message>>,
}

/// A registration request against an invitation token.
pub struct RegisterForm {
    pub email: Result<Email, Vec<Message>>,
    pub display_name: Result<DisplayName, Vec<Message>>,
    pub password: Result<Password, Vec<Message>>,
    pub token: String,
}

/// A login request.
pub struct LoginForm {
    pub email: Result<Email, Vec<Message>>,
    pub password: Result<Password, Vec<Message>>,
    pub remember: bool,
}

/// A request for a password-reset link.
pub struct RequestPasswordResetForm {
    pub email: Result<Email, Vec<Message>>,
}

/// A password reset against a reset token.
pub struct PasswordResetForm {
    pub token: String,
    pub password: Result<Password, Vec<Message>>,
}

} // verus!

//! Users.

use std::collections::HashMap;

use vstd::prelude::*;
use vstd::string::StringExecFns;

use crate::client::MattermostClient;

verus! {

/// A user, as the server describes it.
#[derive(Debug, Clone)]
pub struct User {
    pub id: String,
    pub create_at: i64,
    pub update_at: i64,
    pub delete_at: i64,
    pub username: String,
    pub first_name: String,
    pub last_name: String,
    pub nickname: String,
    pub email: String,
    pub email_verified: bool,
    pub auth_service: String,
    pub roles: String,
    pub locale: String,
    pub notify_props: UserNotifyProps,
    pub props: HashMap<String, serde_json::Value>,
    pub last_password_update: i64,
    pub last_picture_update: i64,
    pub failed_attempts: i64,
    pub mfa_active: bool,
    pub timezone: Timezone,
    pub terms_of_service_id: Option<String>,
    pub terms_of_service_create_at: Option<i64>,
}

/// The notification settings of a user, field by field.
#[derive(Debug, Clone)]
pub struct NotifyProps {
    pub auto_responder_active: String,
    pub auto_responder_message: String,
    pub calls_desktop_sound: String,
    pub calls_notification_sound: String,
    pub channel: String,
    pub comments: String,
    pub desktop: String,
    pub desktop_notification_sound: String,
    pub desktop_sound: String,
    pub desktop_threads: String,
    pub email: String,
    pub email_threads: String,
    pub first_name: String,
    pub highlight_keys: String,
    pub mention_keys: String,
    pub push: String,
    pub push_status: String,
    pub push_threads: String,
}

/// The notification settings of a user, as the server sends them.
#[derive(Debug, Clone)]
pub struct UserNotifyProps {
    pub values: HashMap<String, serde_json::Value>,
}

impl Default for UserNotifyProps {
    fn default() -> (r: Self)
        ensures
            r.values@ == Map::<String, serde_json::Value>::empty(),
    {
        UserNotifyProps { values: HashMap::new() }
    }
}

/// The time zone settings of a user.
#[derive(Debug, Clone)]
pub struct Timezone {
    pub use_automatic_timezone: Option<bool>,
    pub manual_timezone: Option<String>,
    pub automatic_timezone: Option<String>,
}

impl Default for Timezone {
    fn default() -> (r: Self)
        ensures
            r.use_automatic_timezone is None,
            r.manual_timezone is None,
            r.automatic_timezone is None,
    {
        Timezone { use_automatic_timezone: None, manual_timezone: None, automatic_timezone: None }
    }
}

/// Why a user could not be loaded. A status code is held as its number.
#[derive(Debug)]
pub enum UserLoadError {
    RequestError(reqwest::Error),
    ParseError(serde_json::Error),
    ResponseError(u16),
}

impl From<reqwest::Error> for UserLoadError {
    fn from(e: reqwest::Error) -> (r: Self) {
        UserLoadError::RequestError(e)
    }
}

impl vstd::std_specs::convert::FromSpecImpl<reqwest::Error> for UserLoadError {
    open spec fn obeys_from_spec() -> bool {
        true
    }

    open spec fn from_spec(e: reqwest::Error) -> UserLoadError {
        UserLoadError::RequestError(e)
    }
}

impl From<serde_json::Error> for UserLoadError {
    fn from(e: serde_json::Error) -> (r: Self) {
        UserLoadError::ParseError(e)
    }
}

impl vstd::std_specs::convert::FromSpecImpl<serde_json::Error> for UserLoadError {
    open spec fn obeys_from_spec() -> bool {
        true
    }

    open spec fn from_spec(e: serde_json::Error) -> UserLoadError {
        UserLoadError::ParseError(e)
    }
}

impl MattermostClient {
    /// The address of a user.
    pub fn user_url(&self, user_id: &str) -> (r: String)
        ensures
            r@ == self@.base_url + "/api/v4/users/"@ + user_id@,
    {
        let mut s = self.base_url.clone();
        s.append("/api/v4/users/");
        s.append(user_id);
        s
    }
}

} // verus!

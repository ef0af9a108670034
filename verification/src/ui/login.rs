//! The login form: checking its fields and following the login it starts.

use vstd::prelude::*;

use crate::client::MattermostClient;
use crate::text::trim;
use crate::text::trim_spec;

verus! {

/// The message shown when a field of the login form is empty.
pub open spec fn missing_field_message() -> Seq<char> {
    "Please fill in the server, username and password."@
}

/// The state of the login form: the error it shows and whether a login is
/// under way.
pub struct LoginPage {
    error: Option<String>,
    loading: bool,
}

/// What the login form shows: its error and whether a login is under way.
pub struct LoginModel {
    pub error: Option<Seq<char>>,
    pub loading: bool,
}

impl View for LoginPage {
    type V = LoginModel;

    closed spec fn view(&self) -> LoginModel {
        LoginModel {
            error: match self.error {
                Some(e) => Some(e@),
                None => None,
            },
            loading: self.loading,
        }
    }
}

/// The fields of a login to start: the server address and user name
/// without surrounding white space, and the password as typed.
pub struct LoginFields {
    pub base_url: String,
    pub username: String,
    pub password: String,
}

impl LoginPage {
    /// A form with no error and no login under way.
    pub fn new() -> (r: Self)
        ensures
            r@.error is None,
            !r@.loading,
    {
        LoginPage { error: None, loading: false }
    }

    /// The error shown, if any.
    pub fn error(&self) -> (r: Option<&String>)
        ensures
            match self@.error {
                Some(e) => r matches Some(x) && x@ == e,
                None => r is None,
            },
    {
        self.error.as_ref()
    }

    /// Whether a login is under way.
    pub fn loading(&self) -> (r: bool)
        ensures
            r == self@.loading,
    {
        self.loading
    }

    /// Submits the form. Nothing happens while a login is under way. Where the
    /// trimmed server or user name, or the password, is empty, the form shows
    /// `missing_field_message`. Otherwise a login starts with the returned
    /// fields and the error is cleared.
    pub fn submit(&mut self, server: &str, username: &str, password: &str) -> (r: Option<LoginFields>)
        ensures
            old(self)@.loading ==> r is None && final(self)@ == old(self)@,
            !old(self)@.loading && (trim_spec(server@).len() == 0 || trim_spec(username@).len() == 0
                || password@.len() == 0) ==> r is None && final(self)@ == (LoginModel {
                error: Some(missing_field_message()),
                loading: false,
            }),
            !old(self)@.loading && !(trim_spec(server@).len() == 0 || trim_spec(username@).len() == 0
                || password@.len() == 0) ==> (r matches Some(f) && f.base_url@ == trim_spec(server@)
                && f.username@ == trim_spec(username@) && f.password@ == password@) && final(self)@
                == (LoginModel { error: None, loading: true }),
    {
        if self.loading {
            return None;
        }
        let base_url = trim(server);
        let user = trim(username);
        let pass = password.to_owned();
        if base_url.as_str().is_empty() || user.as_str().is_empty() || pass.as_str().is_empty() {
            self.error = Some("Please fill in the server, username and password.".to_owned());
            return None;
        }
        self.loading = true;
        self.error = None;
        Some(LoginFields { base_url, username: user, password: pass })
    }

    /// Ends the login under way: a client is handed on to be used; a failure
    /// is shown as the form's error.
    pub fn finish(&mut self, outcome: Result<MattermostClient, String>) -> (r: Option<MattermostClient>)
        ensures
            !final(self)@.loading,
            match outcome {
                Ok(c) => r == Some(c) && final(self)@.error == old(self)@.error,
                Err(e) => r is None && final(self)@.error == Some(e@),
            },
    {
        self.loading = false;
        match outcome {
            Ok(c) => Some(c),
            Err(e) => {
                self.error = Some(e);
                None
            },
        }
    }
}

} // verus!

//! The general error of the client.

use vstd::prelude::*;

verus! {

/// An error of a request to the server.
#[derive(Debug)]
pub enum MattermostError {
    Http(reqwest::Error),
    Json(serde_json::Error),
    Api(String),
}

impl From<reqwest::Error> for MattermostError {
    fn from(err: reqwest::Error) -> (r: Self) {
        MattermostError::Http(err)
    }
}

impl vstd::std_specs::convert::FromSpecImpl<reqwest::Error> for MattermostError {
    open spec fn obeys_from_spec() -> bool {
        true
    }

    open spec fn from_spec(err: reqwest::Error) -> MattermostError {
        MattermostError::Http(err)
    }
}

impl From<serde_json::Error> for MattermostError {
    fn from(err: serde_json::Error) -> (r: Self) {
        MattermostError::Json(err)
    }
}

impl vstd::std_specs::convert::FromSpecImpl<serde_json::Error> for MattermostError {
    open spec fn obeys_from_spec() -> bool {
        true
    }

    open spec fn from_spec(err: serde_json::Error) -> MattermostError {
        MattermostError::Json(err)
    }
}

impl From<String> for MattermostError {
    fn from(err: String) -> (r: Self) {
        MattermostError::Api(err)
    }
}

impl vstd::std_specs::convert::FromSpecImpl<String> for MattermostError {
    open spec fn obeys_from_spec() -> bool {
        true
    }

    open spec fn from_spec(err: String) -> MattermostError {
        MattermostError::Api(err)
    }
}

} // verus!

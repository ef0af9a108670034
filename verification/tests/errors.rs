use mattermost::client::channel::ChannelLoadError;
use mattermost::client::error::MattermostError;
use mattermost::client::post::PostLoadError;
use mattermost::client::team::TeamLoadError;
use mattermost::client::user::UserLoadError;
use mattermost::client::LoginError;

fn request_error() -> reqwest::Error {
    reqwest::Client::new().get("not a url").build().unwrap_err()
}

fn json_error() -> serde_json::Error {
    serde_json::from_str::<Vec<u8>>("{").unwrap_err()
}

#[test]
fn request_errors_convert() {
    assert!(matches!(LoginError::from(request_error()), LoginError::RequestError(_)));
    assert!(matches!(ChannelLoadError::from(request_error()), ChannelLoadError::RequestError(_)));
    assert!(matches!(TeamLoadError::from(request_error()), TeamLoadError::RequestError(_)));
    assert!(matches!(UserLoadError::from(request_error()), UserLoadError::RequestError(_)));
    assert!(matches!(PostLoadError::from(request_error()), PostLoadError::RequestError(_)));
    assert!(matches!(MattermostError::from(request_error()), MattermostError::Http(_)));
}

#[test]
fn json_errors_convert() {
    assert!(matches!(ChannelLoadError::from(json_error()), ChannelLoadError::ParseError(_)));
    assert!(matches!(UserLoadError::from(json_error()), UserLoadError::ParseError(_)));
    assert!(matches!(PostLoadError::from(json_error()), PostLoadError::ParseError(_)));
    assert!(matches!(MattermostError::from(json_error()), MattermostError::Json(_)));
}

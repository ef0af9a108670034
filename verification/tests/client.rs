use mattermost::client::error::MattermostError;
use mattermost::client::{
    csrf_from_cookie_header, login_accepted, login_rejected, login_request, reply_for_status,
    status_is_success, BuilderError, LoginError, MattermostClient, Reply, Session,
};

#[test]
fn new_with_token_keeps_the_credentials() {
    let c = MattermostClient::new_with_token("https://chat.example.com", "tok", "u1", "csrf1").unwrap();
    assert_eq!(c.base_url, "https://chat.example.com");
    assert_eq!(c.token, "tok");
    assert_eq!(c.get_token(), "tok");
    assert_eq!(c.get_user_id(), "u1");
    assert_eq!(c.get_csrf_token(), "csrf1");
}

#[test]
fn new_with_token_rejects_an_invalid_url() {
    let r = MattermostClient::new_with_token("not a url", "tok", "u1", "csrf1");
    assert!(matches!(r, Err(BuilderError::InvalidUrl)));
    let r = MattermostClient::new_with_token("", "tok", "u1", "csrf1");
    assert!(matches!(r, Err(BuilderError::InvalidUrl)));
}

#[test]
fn session_cookies_carry_the_credentials() {
    let c = MattermostClient::new_with_token("https://chat.example.com", "tok", "u1", "c1").unwrap();
    assert_eq!(
        c.session_cookies(),
        vec!["MMAUTHTOKEN=tok".to_string(), "MMUSERID=u1".to_string(), "MMCSRF=c1".to_string()]
    );
}

#[test]
fn session_round_trip() {
    let c = MattermostClient::new_with_token("https://chat.example.com", "tok", "u1", "c1").unwrap();
    let s: Session = (&c).into();
    assert_eq!(s.base_url, "https://chat.example.com");
    assert_eq!(s.token, "tok");
    assert_eq!(s.user_id, "u1");
    assert_eq!(s.csrf_token, "c1");
    let d = MattermostClient::try_from(s).unwrap();
    assert_eq!(d.base_url, c.base_url);
    assert_eq!(d.get_token(), c.get_token());
    assert_eq!(d.get_user_id(), c.get_user_id());
    assert_eq!(d.get_csrf_token(), c.get_csrf_token());
}

#[test]
fn session_with_bad_url_is_refused() {
    let s = Session {
        base_url: "::".to_string(),
        token: "t".to_string(),
        user_id: "u".to_string(),
        csrf_token: "c".to_string(),
    };
    assert!(matches!(MattermostClient::try_from(s), Err(BuilderError::InvalidUrl)));
}

#[test]
fn login_url_formula() {
    assert_eq!(
        MattermostClient::login_url("https://chat.example.com"),
        "https://chat.example.com/api/v4/users/login"
    );
}

#[test]
fn csrf_is_read_from_the_cookie_header() {
    assert_eq!(csrf_from_cookie_header("MMAUTHTOKEN=a; MMCSRF=xyz; MMUSERID=u").as_deref(), Some("xyz"));
    assert_eq!(csrf_from_cookie_header("MMCSRF=first;MMCSRF=second").as_deref(), Some("first"));
    assert_eq!(csrf_from_cookie_header("  MMCSRF=padded  ").as_deref(), Some("padded"));
    assert_eq!(csrf_from_cookie_header("MMCSRF=MMCSRF=v").as_deref(), Some("v"));
    assert_eq!(csrf_from_cookie_header("MMCSRF=").as_deref(), Some(""));
    assert_eq!(csrf_from_cookie_header("a=1; b=2"), None);
    assert_eq!(csrf_from_cookie_header(""), None);
    assert_eq!(csrf_from_cookie_header("XMMCSRF=1"), None);
    assert_eq!(csrf_from_cookie_header(";;MMCSRF=z;"), Some("z".to_string()));
}

#[test]
fn success_statuses() {
    assert!(status_is_success(200));
    assert!(status_is_success(201));
    assert!(status_is_success(299));
    assert!(!status_is_success(199));
    assert!(!status_is_success(300));
    assert!(!status_is_success(401));
}

#[test]
fn rejected_login_errors() {
    assert!(matches!(login_rejected(401, Some("x".into())), LoginError::InvalidCredentials));
    match login_rejected(500, Some("boom".into())) {
        LoginError::ResponseError(t) => assert_eq!(t, "boom"),
        _ => panic!("expected a response error"),
    }
    match login_rejected(403, None) {
        LoginError::ResponseError(t) => assert_eq!(t, "Unknown error"),
        _ => panic!("expected a response error"),
    }
}

fn response_text(r: Result<MattermostClient, LoginError>) -> String {
    match r {
        Err(LoginError::ResponseError(t)) => t,
        _ => panic!("expected a response error"),
    }
}

#[test]
fn accepted_login_errors() {
    let base = "https://chat.example.com";
    assert_eq!(
        response_text(login_accepted(base, None, "u1", Some("MMCSRF=c".into()))),
        "Token not found in response headers"
    );
    assert_eq!(
        response_text(login_accepted("no url", Some("t".into()), "u1", Some("MMCSRF=c".into()))),
        "Invalid base URL"
    );
    assert_eq!(
        response_text(login_accepted(base, Some("t".into()), "u1", None)),
        "MMCSRF token not found in cookies"
    );
    assert_eq!(
        response_text(login_accepted(base, Some("t".into()), "u1", Some("a=b".into()))),
        "MMCSRF token not found in cookies"
    );
}

#[test]
fn accepted_login_builds_the_client() {
    let c = login_accepted(
        "https://chat.example.com",
        Some("tok".into()),
        "user9",
        Some("MMAUTHTOKEN=tok; MMCSRF=c9".into()),
    )
    .unwrap();
    assert_eq!(c.base_url, "https://chat.example.com");
    assert_eq!(c.get_token(), "tok");
    assert_eq!(c.get_user_id(), "user9");
    assert_eq!(c.get_csrf_token(), "c9");
}

#[test]
fn login_request_fields() {
    let r = login_request("alice".into(), "pw".into());
    assert_eq!(r.login_id, "alice");
    assert_eq!(r.password, "pw");
    assert_eq!(r.device_id, "");
    assert_eq!(r.token, "");
}

#[test]
fn login_error_from_builder_error() {
    let e: LoginError = BuilderError::InvalidUrl.into();
    assert!(matches!(e, LoginError::BuildError(BuilderError::InvalidUrl)));
}

#[test]
fn resource_urls() {
    let c = MattermostClient::new_with_token("https://m.example.org", "t", "u", "c").unwrap();
    assert_eq!(c.teams_url(), "https://m.example.org/api/v4/users/me/teams");
    assert_eq!(c.user_url("abc"), "https://m.example.org/api/v4/users/abc");
    assert_eq!(
        c.channels_for_team_url("t1"),
        "https://m.example.org/api/v4/users/me/teams/t1/channels?include_deleted=false"
    );
    assert_eq!(
        c.channel_categories_for_team_url("t1"),
        "https://m.example.org/api/v4/users/me/teams/t1/channels/categories"
    );
    assert_eq!(c.posts_base_url("ch"), "https://m.example.org/api/v4/channels/ch/posts");
}

#[test]
fn mattermost_error_conversions() {
    let e: MattermostError = String::from("bad").into();
    assert!(matches!(e, MattermostError::Api(ref t) if t == "bad"));
    let json_err = serde_json::from_str::<u8>("x").unwrap_err();
    let e: MattermostError = json_err.into();
    assert!(matches!(e, MattermostError::Json(_)));
}

#[test]
fn a_saved_session_rebuilds_the_same_session() {
    let s = Session {
        base_url: "http://localhost:8065".to_string(),
        token: "t".to_string(),
        user_id: "u".to_string(),
        csrf_token: "c".to_string(),
    };
    let c = MattermostClient::try_from(s.clone()).unwrap();
    let back: Session = (&c).into();
    assert_eq!(back.base_url, s.base_url);
    assert_eq!(back.token, s.token);
    assert_eq!(back.user_id, s.user_id);
    assert_eq!(back.csrf_token, s.csrf_token);
}

#[test]
fn answers_are_read_only_on_success() {
    assert_eq!(reply_for_status(200), Reply::Decode);
    assert_eq!(reply_for_status(204), Reply::Decode);
    assert_eq!(reply_for_status(299), Reply::Decode);
    assert_eq!(reply_for_status(300), Reply::Refuse(300));
    assert_eq!(reply_for_status(404), Reply::Refuse(404));
    assert_eq!(reply_for_status(199), Reply::Refuse(199));
}

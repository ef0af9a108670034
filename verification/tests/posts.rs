use mattermost::client::post::{
    posts_query_params, GetPostsAt, GetPostsOptions, Post, PostLoadError, PostMetadata,
    PostsCursor, PostsResponse,
};
use mattermost::client::MattermostClient;

fn post(id: &str, user: &str, message: &str) -> Post {
    Post {
        id: id.to_string(),
        create_at: 1,
        update_at: 2,
        delete_at: 0,
        edit_at: 0,
        user_id: user.to_string(),
        channel_id: "ch".to_string(),
        root_id: String::new(),
        original_id: String::new(),
        message: message.to_string(),
        post_type: String::new(),
        props: serde_json::Value::Null,
        hashtag: String::new(),
        file_ids: vec![],
        pending_post_id: String::new(),
        metadata: PostMetadata::default(),
    }
}

fn pairs(v: &[(&str, &str)]) -> Vec<(String, String)> {
    v.iter().map(|(a, b)| (a.to_string(), b.to_string())).collect()
}

#[test]
fn default_options_have_no_query() {
    let o = GetPostsOptions::default();
    assert_eq!(o.channel_id, "");
    assert!(o.include_deleted.is_none());
    assert!(posts_query_params(&o).is_empty());
    match o.at {
        GetPostsAt::Cursor(c) => {
            assert!(c.after.is_none() && c.before.is_none());
            assert_eq!((c.page, c.per_page), (0, 0));
        }
        GetPostsAt::Since(_) => panic!("default is a cursor"),
    }
}

#[test]
fn cursor_query_pairs_in_order() {
    let o = GetPostsOptions {
        channel_id: "c".into(),
        at: GetPostsAt::Cursor(PostsCursor {
            after: Some("a1".into()),
            before: Some("b1".into()),
            page: 2,
            per_page: 30,
        }),
        include_deleted: Some(true),
    };
    assert_eq!(
        posts_query_params(&o),
        pairs(&[
            ("after", "a1"),
            ("before", "b1"),
            ("page", "2"),
            ("per_page", "30"),
            ("include_deleted", "true")
        ])
    );
}

#[test]
fn zero_page_and_size_are_left_out() {
    let o = GetPostsOptions {
        channel_id: "c".into(),
        at: GetPostsAt::Cursor(PostsCursor { after: None, before: Some("p".into()), page: 0, per_page: 0 }),
        include_deleted: Some(false),
    };
    assert_eq!(posts_query_params(&o), pairs(&[("before", "p"), ("include_deleted", "false")]));
}

#[test]
fn since_query() {
    let o = GetPostsOptions {
        channel_id: "c".into(),
        at: GetPostsAt::Since(1700000000000),
        include_deleted: None,
    };
    assert_eq!(posts_query_params(&o), pairs(&[("since", "1700000000000")]));
}

#[test]
fn posts_url_with_query() {
    let c = MattermostClient::new_with_token("https://m.example.org", "t", "u", "c").unwrap();
    let o = GetPostsOptions {
        channel_id: "chan1".into(),
        at: GetPostsAt::Cursor(PostsCursor { after: None, before: Some("p9".into()), page: 0, per_page: 30 }),
        include_deleted: None,
    };
    assert_eq!(
        c.posts_url(&o).unwrap(),
        "https://m.example.org/api/v4/channels/chan1/posts?before=p9&per_page=30"
    );
    let plain = GetPostsOptions { channel_id: "x".into(), ..Default::default() };
    // An empty query still leaves its `?`, as `Url::parse_with_params` writes it.
    assert_eq!(c.posts_url(&plain).unwrap(), "https://m.example.org/api/v4/channels/x/posts?");
}

#[test]
fn posts_url_error_for_unparsable_base() {
    let c = MattermostClient::new_with_token("https://m.example.org", "t", "u", "c").unwrap();
    let mut bad = c.clone();
    bad.base_url = "nonsense".into();
    let o = GetPostsOptions::default();
    assert!(matches!(bad.posts_url(&o), Err(PostLoadError::UrlParserError(_))));
}

#[test]
fn posts_are_ordered_by_order() {
    let r = PostsResponse {
        posts: vec![
            ("p1".into(), post("p1", "u1", "one")),
            ("p2".into(), post("p2", "u2", "two")),
            ("p3".into(), post("p3", "u1", "three")),
        ],
        order: vec!["p3".into(), "p1".into(), "p2".into()],
    };
    let ids: Vec<String> = r.into_ordered_posts().into_iter().map(|p| p.id).collect();
    assert_eq!(ids, vec!["p3", "p1", "p2"]);
}

#[test]
fn missing_and_repeated_ids_give_nothing() {
    let r = PostsResponse {
        posts: vec![("p1".into(), post("p1", "u1", "one")), ("p2".into(), post("p2", "u2", "two"))],
        order: vec!["p2".into(), "ghost".into(), "p2".into(), "p1".into()],
    };
    let posts = r.into_ordered_posts();
    let msgs: Vec<&str> = posts.iter().map(|p| p.message.as_str()).collect();
    assert_eq!(msgs, vec!["two", "one"]);
}

#[test]
fn empty_response_gives_no_posts() {
    let r = PostsResponse { posts: vec![], order: vec![] };
    assert!(r.into_ordered_posts().is_empty());
    let r = PostsResponse { posts: vec![("p".into(), post("p", "u", "m"))], order: vec![] };
    assert!(r.into_ordered_posts().is_empty());
}

#[test]
fn posts_are_equal_by_id() {
    assert!(post("p1", "u1", "a") == post("p1", "u2", "b"));
    assert!(post("p1", "u1", "a") != post("p2", "u1", "a"));
}

#[test]
fn post_load_error_from_url_error() {
    let e: PostLoadError = url::ParseError::EmptyHost.into();
    assert!(matches!(e, PostLoadError::UrlParserError(url::ParseError::EmptyHost)));
}

#[test]
fn a_repeated_key_keeps_its_last_post() {
    let r = PostsResponse {
        posts: vec![("p".into(), post("p", "u", "old")), ("p".into(), post("p", "u", "new"))],
        order: vec!["p".into()],
    };
    let got = r.into_ordered_posts();
    assert_eq!(got.len(), 1);
    assert_eq!(got[0].message, "new");
}

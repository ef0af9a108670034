use std::collections::HashMap;

use mattermost::client::post::{GetPostsAt, Post, PostMetadata};
use mattermost::client::user::{Timezone, User, UserNotifyProps};
use mattermost::ui::post::{
    first_page_options, page_has_more, PostListDelegate, PostRow, LOAD_MORE_THRESHOLD,
    POSTS_PER_PAGE,
};
use mattermost::ui::ListIndex;

fn post(id: &str, user: &str, message: &str) -> Post {
    post_at(id, user, message, 0)
}

fn post_at(id: &str, user: &str, message: &str, create_at: u64) -> Post {
    Post {
        id: id.to_string(),
        create_at,
        update_at: 0,
        delete_at: 0,
        edit_at: 0,
        user_id: user.to_string(),
        channel_id: "ch".to_string(),
        root_id: String::new(),
        original_id: String::new(),
        message: message.to_string(),
        post_type: String::new(),
        props: serde_json::Value::Null,
        hashtag: String::new(),
        file_ids: vec![],
        pending_post_id: String::new(),
        metadata: PostMetadata::default(),
    }
}

fn user(id: &str, username: &str) -> User {
    User {
        id: id.to_string(),
        create_at: 0,
        update_at: 0,
        delete_at: 0,
        username: username.to_string(),
        first_name: String::new(),
        last_name: String::new(),
        nickname: String::new(),
        email: String::new(),
        email_verified: false,
        auth_service: String::new(),
        roles: String::new(),
        locale: String::new(),
        notify_props: UserNotifyProps::default(),
        props: HashMap::new(),
        last_password_update: 0,
        last_picture_update: 0,
        failed_attempts: 0,
        mfa_active: false,
        timezone: Timezone::default(),
        terms_of_service_id: None,
        terms_of_service_create_at: None,
    }
}

#[test]
fn a_new_list_is_loading() {
    let d = PostListDelegate::new();
    assert!(d.loading());
    assert!(d.has_more());
    assert!(d.should_load_more());
    assert_eq!(d.items_count(), 0);
    assert_eq!(d.oldest_post_id(), None);
    assert_eq!(d.empty_message(), "No messages yet");
    assert_eq!(d.load_more_threshold(), LOAD_MORE_THRESHOLD);
    assert_eq!(LOAD_MORE_THRESHOLD, 10);
}

#[test]
fn pages_are_appended_after_the_loaded_posts() {
    let mut d = PostListDelegate::new();
    d.set_posts(vec![post_at("p2", "u2", "two", 20), post_at("p1", "u1", "one", 10)], true);
    assert!(!d.loading());
    assert_eq!(d.oldest_post_id().as_deref(), Some("p1"));
    d.set_loading_more(true);
    assert!(!d.should_load_more());
    d.append_posts(vec![post_at("p0", "u1", "zero", 5)], false);
    assert_eq!(d.items_count(), 3);
    assert_eq!(d.oldest_post_id().as_deref(), Some("p0"));
    assert!(!d.should_load_more());
    assert_eq!(d.row_at(ListIndex { section: 0, row: 2 }).unwrap().id, "p0");
    assert_eq!(d.row_at(ListIndex { section: 0, row: 0 }).unwrap().id, "p2");
    assert!(d.row_at(ListIndex { section: 0, row: 3 }).is_none());
}

#[test]
fn missing_authors_sorted_once_each() {
    let mut d = PostListDelegate::new();
    d.set_posts(
        vec![post("a", "zed", ""), post("b", "amy", ""), post("c", "zed", ""), post("d", "bob", "")],
        true,
    );
    assert_eq!(d.missing_author_ids(), vec!["amy", "bob", "zed"]);
    d.set_author("zed", user("zed", "Zed"));
    assert_eq!(d.missing_author_ids(), vec!["amy", "bob"]);
    let row = d.row_at(ListIndex { section: 0, row: 2 }).unwrap();
    assert_eq!(row.author_name, "Zed");
    let row = d.row_at(ListIndex { section: 0, row: 1 }).unwrap();
    assert_eq!(row.author_name, "amy");
    d.set_author("amy", user("amy", "Amy"));
    d.set_author("bob", user("bob", "Bob"));
    assert!(d.missing_author_ids().is_empty());
}

#[test]
fn rows_show_selection_and_message() {
    let mut d = PostListDelegate::new();
    d.set_posts(vec![post("p1", "u1", "hello")], false);
    d.set_selected_index(Some(ListIndex { section: 0, row: 0 }));
    let row = d.row_at(ListIndex { section: 0, row: 0 }).unwrap();
    assert!(row.is_selected());
    assert_eq!(row.message, "hello");
    assert_eq!(row.author_name, "u1");
    assert_eq!(row.author_avatar, "");
}

#[test]
fn errors_end_loading() {
    let mut d = PostListDelegate::new();
    d.set_loading_more(true);
    d.set_error("Failed to load messages: down".to_string());
    assert!(!d.loading());
    assert!(d.should_load_more());
    assert_eq!(d.empty_message(), "Failed to load messages: Failed to load messages: down");
}

#[test]
fn paging_options() {
    let o = first_page_options("ch".to_string());
    assert_eq!(o.channel_id, "ch");
    match o.at {
        GetPostsAt::Cursor(c) => {
            assert_eq!(c.per_page, POSTS_PER_PAGE);
            assert!(c.before.is_none());
        }
        _ => panic!("cursor expected"),
    }
    assert!(page_has_more(30));
    assert!(!page_has_more(29));
    let mut d = PostListDelegate::new();
    assert!(d.next_page_options("ch".to_string()).is_none());
    d.set_posts(vec![post_at("new", "u", "", 200), post_at("old", "u", "", 100)], true);
    let next = d.next_page_options("ch".to_string()).unwrap();
    match next.at {
        GetPostsAt::Cursor(c) => {
            assert_eq!(c.before.as_deref(), Some("old"));
            assert_eq!(c.per_page, 30);
        }
        _ => panic!("cursor expected"),
    }
    d.set_loading_more(true);
    assert!(d.next_page_options("ch".to_string()).is_none());
}

#[test]
fn the_oldest_post_is_the_least_recent_one() {
    let mut d = PostListDelegate::new();
    d.set_posts(vec![post_at("b", "u", "", 2), post_at("a", "u", "", 1)], true);
    assert_eq!(d.oldest_post_id().as_deref(), Some("a"));
    d.set_posts(vec![post_at("x", "u", "", 7), post_at("y", "u", "", 7)], true);
    assert_eq!(d.oldest_post_id().as_deref(), Some("y"));
    d.set_posts(vec![post_at("early", "u", "", 1), post_at("late", "u", "", 9)], true);
    assert_eq!(d.oldest_post_id().as_deref(), Some("early"));
}

#[test]
fn post_row_builders() {
    let r = PostRow::new("p").author_name("Ann").author_avatar("img").message("hi").selected(true);
    assert_eq!(r.id, "p");
    assert_eq!(r.author_name, "Ann");
    assert_eq!(r.author_avatar, "img");
    assert_eq!(r.message, "hi");
    assert!(r.is_selected());
}

#[test]
fn the_next_page_is_begun_and_finished() {
    let mut d = PostListDelegate::new();
    assert!(d.begin_next_page("ch".to_string()).is_none());
    d.finish_first_page(Ok(vec![post_at("b", "u", "", 2), post_at("a", "u", "", 1)]));
    assert!(!d.loading());
    assert!(!d.has_more());
    let mut d = PostListDelegate::new();
    let full: Vec<Post> = (0..30).map(|i| post_at(&format!("p{}", i), "u", "", 100 - i)).collect();
    d.finish_first_page(Ok(full));
    assert!(d.has_more());
    let options = d.begin_next_page("ch".to_string()).unwrap();
    match options.at {
        GetPostsAt::Cursor(c) => assert_eq!(c.before.as_deref(), Some("p29")),
        _ => panic!("cursor expected"),
    }
    assert!(!d.should_load_more());
    assert!(d.begin_next_page("ch".to_string()).is_none());
    d.finish_next_page::<String>(Ok(vec![post_at("older", "u", "", 1)]));
    assert_eq!(d.items_count(), 31);
    assert!(!d.has_more());
    assert_eq!(d.oldest_post_id().as_deref(), Some("older"));
}

#[test]
fn a_failed_page_stops_loading_more() {
    let mut d = PostListDelegate::new();
    let full: Vec<Post> = (0..30).map(|i| post_at(&format!("p{}", i), "u", "", 100 - i)).collect();
    d.finish_first_page(Ok(full));
    assert!(d.begin_next_page("ch".to_string()).is_some());
    d.finish_next_page(Err("timeout".to_string()));
    assert!(d.should_load_more());
    assert_eq!(d.items_count(), 30);
}

#[test]
fn a_failed_first_page_shows_the_error() {
    let mut d = PostListDelegate::new();
    d.finish_first_page(Err("timeout".to_string()));
    assert!(!d.loading());
    assert_eq!(d.items_count(), 0);
    assert_eq!(d.empty_message(), "Failed to load messages: Failed to load messages: timeout");
}

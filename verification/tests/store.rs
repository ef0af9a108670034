use std::path::PathBuf;

use mattermost::client::post::{GetPostsAt, GetPostsOptions, PostsCursor};
use mattermost::client::team::Team;
use mattermost::store::{
    AllChannelCategories, AllChannels, AllTeams, ChannelPosts, LoadStep, Resource, Store,
    UserById,
};

fn team(id: &str) -> Team {
    Team {
        allow_open_invite: true,
        allowed_domains: String::new(),
        cloud_limits_archived: false,
        company_name: String::new(),
        create_at: 0,
        delete_at: 0,
        description: String::new(),
        display_name: id.to_string(),
        email: String::new(),
        group_constrained: false,
        id: id.to_string(),
        invite_id: String::new(),
        last_team_icon_update: 0,
        name: id.to_string(),
        policy_id: None,
        scheme_id: String::new(),
        team_type: "O".to_string(),
        update_at: 0,
    }
}

#[test]
fn read_after_write() {
    let mut s = Store::new(PathBuf::from("/tmp/cache"));
    assert!(s.memory_get::<Vec<Team>>("teams").is_none());
    s.memory_insert("teams".to_string(), vec![team("a"), team("b")]);
    let got = s.memory_get::<Vec<Team>>("teams").unwrap();
    assert_eq!(got.len(), 2);
    assert_eq!(got[1].id, "b");
    assert!(s.memory_get::<Vec<Team>>("other").is_none());
}

#[test]
fn a_value_of_another_type_is_not_found() {
    let mut s = Store::new(PathBuf::from("/tmp/cache"));
    s.memory_insert("teams".to_string(), vec![team("a")]);
    assert!(s.memory_get::<Vec<mattermost::client::channel::Channel>>("teams").is_none());
}

#[test]
fn a_write_replaces_the_earlier_value() {
    let mut s = Store::new(PathBuf::from("/tmp/cache"));
    s.memory_insert("teams".to_string(), vec![team("a")]);
    s.memory_insert("teams".to_string(), vec![team("z"), team("y")]);
    let got = s.memory_get::<Vec<Team>>("teams").unwrap();
    assert_eq!(got.iter().map(|t| t.id.as_str()).collect::<Vec<_>>(), vec!["z", "y"]);
}

#[test]
fn cache_dir_is_kept() {
    let s = Store::new(PathBuf::from("/var/cache/mm"));
    assert_eq!(s.cache_dir(), PathBuf::from("/var/cache/mm"));
}

#[test]
fn load_steps_memory_then_disk_then_network() {
    let mut s = Store::new(PathBuf::from("/tmp/cache"));
    let first: LoadStep<Vec<Team>, String> = s.begin_load("teams");
    assert!(matches!(first, LoadStep::ReadDisk));
    let after_disk: LoadStep<Vec<Team>, String> = s.after_disk_read("teams".to_string(), None);
    assert!(matches!(after_disk, LoadStep::Fetch));
    let fetched = s.after_fetch::<Vec<Team>, String>("teams".to_string(), Err("offline".to_string()));
    assert_eq!(fetched.unwrap_err(), "offline");
    assert!(s.memory_get::<Vec<Team>>("teams").is_none());
    let fetched = s.after_fetch::<Vec<Team>, String>("teams".to_string(), Ok(vec![team("t")]));
    assert_eq!(fetched.unwrap()[0].id, "t");
    match s.begin_load::<Vec<Team>, String>("teams") {
        LoadStep::Done(Ok(v)) => assert_eq!(v[0].id, "t"),
        _ => panic!("expected a memory hit"),
    }
}

#[test]
fn a_disk_hit_is_kept_in_memory() {
    let mut s = Store::new(PathBuf::from("/tmp/cache"));
    match s.after_disk_read::<Vec<Team>, String>("teams".to_string(), Some(vec![team("d")])) {
        LoadStep::Done(Ok(v)) => assert_eq!(v[0].id, "d"),
        _ => panic!("expected the disk value"),
    }
    assert_eq!(s.memory_get::<Vec<Team>>("teams").unwrap()[0].id, "d");
}

#[test]
fn fixed_cache_keys() {
    assert_eq!(AllChannels.cache_key(), "channels");
    assert_eq!(AllChannelCategories.cache_key(), "channel_categories");
    assert_eq!(AllTeams.cache_key(), "teams");
    assert_eq!(UserById("u42".to_string()).cache_key(), "user_u42");
}

#[test]
fn channel_posts_cache_keys() {
    let o = GetPostsOptions {
        channel_id: "ch1".into(),
        at: GetPostsAt::Cursor(PostsCursor { after: None, before: Some("p5".into()), page: 0, per_page: 30 }),
        include_deleted: None,
    };
    let r = ChannelPosts::new(o);
    assert_eq!(r.cache_key(), "ch1__p5_0_30_false");
    assert_eq!(r.get_options().channel_id, "ch1");
    let o = GetPostsOptions {
        channel_id: "ch2".into(),
        at: GetPostsAt::Since(99),
        include_deleted: Some(true),
    };
    assert_eq!(ChannelPosts::new(o).cache_key(), "ch2_99_true");
    let o = GetPostsOptions {
        channel_id: "c".into(),
        at: GetPostsAt::Cursor(PostsCursor { after: Some("a".into()), before: None, page: 3, per_page: 0 }),
        include_deleted: Some(false),
    };
    assert_eq!(ChannelPosts::new(o).cache_key(), "c_a__3_0_false");
}

fn page(channel: &str, at: GetPostsAt, deleted: Option<bool>) -> String {
    ChannelPosts::new(GetPostsOptions { channel_id: channel.into(), at, include_deleted: deleted }).cache_key()
}

fn cursor(after: Option<&str>, before: Option<&str>, page: u64, per_page: u64) -> GetPostsAt {
    GetPostsAt::Cursor(PostsCursor { after: after.map(String::from), before: before.map(String::from), page, per_page })
}

#[test]
fn different_pages_have_different_cache_keys() {
    let a = page("ch", cursor(None, Some("p1"), 0, 30), None);
    assert_eq!(a, page("ch", cursor(None, Some("p1"), 0, 30), Some(false)));
    assert_ne!(a, page("ch", cursor(None, Some("p1"), 0, 30), Some(true)));
    assert_ne!(a, page("ch", cursor(Some("p1"), None, 0, 30), None));
    assert_ne!(a, page("ch", cursor(None, Some("p1"), 1, 30), None));
    assert_ne!(a, page("ch", cursor(None, Some("p1"), 0, 3), None));
    assert_ne!(a, page("cx", cursor(None, Some("p1"), 0, 30), None));
    assert_ne!(page("ch", GetPostsAt::Since(10), None), page("ch", GetPostsAt::Since(1), None));
    assert_ne!(page("ch", GetPostsAt::Since(0), None), page("ch", cursor(None, None, 0, 0), None));
    assert_ne!(page("ch", cursor(Some("a_b"), Some("c"), 0, 1), None), page("ch", cursor(Some("a"), Some("c"), 0, 1), None));
}

#[test]
fn an_underscore_in_the_before_cursor_can_share_a_key() {
    assert_eq!(
        page("ch", cursor(Some("a_b"), Some("c"), 0, 1), None),
        page("ch", cursor(Some("a"), Some("b_c"), 0, 1), None)
    );
}

#[test]
fn an_empty_cursor_text_reads_as_no_cursor() {
    assert_eq!(page("ch", cursor(Some(""), None, 0, 30), None), page("ch", cursor(None, None, 0, 30), None));
}

#[test]
fn a_key_never_written_reads_nothing() {
    let s = Store::new(PathBuf::from("/tmp/cache"));
    assert!(s.memory_get::<Vec<Team>>("teams").is_none());
    assert!(s.memory_get::<mattermost::client::user::User>("user_x").is_none());
}

use mattermost::client::channel::ChannelType;
use mattermost::client::MattermostClient;
use mattermost::ui::login::LoginPage;
use mattermost::ui::{sidebar_channel_types, Layout};

#[test]
fn empty_fields_are_refused() {
    let mut page = LoginPage::new();
    assert!(page.submit("  ", "alice", "pw").is_none());
    assert_eq!(
        page.error().map(|s| s.as_str()),
        Some("Please fill in the server, username and password.")
    );
    assert!(!page.loading());
    assert!(page.submit("https://m.example.org", "alice", "").is_none());
}

#[test]
fn submit_trims_and_starts_a_login() {
    let mut page = LoginPage::new();
    let fields = page.submit(" https://m.example.org ", " alice\t", " pw ").unwrap();
    assert_eq!(fields.base_url, "https://m.example.org");
    assert_eq!(fields.username, "alice");
    assert_eq!(fields.password, " pw ");
    assert!(page.loading());
    assert!(page.error().is_none());
    assert!(page.submit("https://x", "b", "c").is_none());
}

#[test]
fn finishing_a_login() {
    let mut page = LoginPage::new();
    page.submit("https://m.example.org", "alice", "pw").unwrap();
    assert!(page.finish(Err("invalid credentials provided".to_string())).is_none());
    assert!(!page.loading());
    assert_eq!(page.error().map(|s| s.as_str()), Some("invalid credentials provided"));
    page.submit("https://m.example.org", "alice", "pw").unwrap();
    let c = MattermostClient::new_with_token("https://m.example.org", "t", "u", "c").unwrap();
    let got = page.finish(Ok(c)).unwrap();
    assert_eq!(got.get_user_id(), "u");
    assert!(!page.loading());
}

#[test]
fn selecting_the_same_channel_again_does_nothing() {
    let mut layout = Layout::new();
    assert!(layout.channel_selected().is_none());
    assert!(layout.select_channel("a".to_string()));
    assert!(!layout.select_channel("a".to_string()));
    assert!(layout.select_channel("b".to_string()));
    assert_eq!(layout.channel_selected().map(|s| s.as_str()), Some("b"));
}

#[test]
fn sidebar_lists_all_kinds() {
    assert_eq!(
        sidebar_channel_types(),
        vec![ChannelType::Open, ChannelType::Private, ChannelType::Direct, ChannelType::Group]
    );
}

use mattermost::client::channel::{
    current_team_id, visible_channels, Channel, ChannelCategory, ChannelCategoryType,
    ChannelLoadError, ChannelType,
};
use mattermost::client::team::{current_team, Team, TeamLoadError};
use mattermost::ui::channel::{
    channel_type_to_icon, category_order_of, ChannelIcon, ChannelListDelegate, ChannelRow,
};
use mattermost::ui::ListIndex;

fn channel(id: &str, team: &str, name: &str, t: ChannelType) -> Channel {
    Channel {
        id: id.to_string(),
        create_at: 0,
        update_at: 0,
        delete_at: 0,
        team_id: team.to_string(),
        channel_type: t,
        display_name: name.to_string(),
        name: name.to_lowercase(),
        header: String::new(),
        purpose: String::new(),
        last_post_at: 0,
        total_msg_count: 0,
        extra_update_at: 0,
        creator_id: String::new(),
        scheme_id: serde_json::Value::Null,
        props: serde_json::Value::Null,
        group_constrained: serde_json::Value::Null,
        autotranslation: false,
        shared: None,
        total_msg_count_root: 0,
        policy_id: serde_json::Value::Null,
        last_root_post_at: 0,
        banner_info: serde_json::Value::Null,
        policy_enforced: false,
        policy_is_active: false,
        default_category_name: String::new(),
    }
}

fn category(id: &str, name: &str, order: i64, ids: &[&str]) -> ChannelCategory {
    ChannelCategory {
        id: id.to_string(),
        display_name: name.to_string(),
        sort_order: order,
        channel_ids: ids.iter().map(|s| s.to_string()).collect(),
        ..Default::default()
    }
}

fn team(id: &str) -> Team {
    Team {
        allow_open_invite: false,
        allowed_domains: String::new(),
        cloud_limits_archived: false,
        company_name: String::new(),
        create_at: 0,
        delete_at: 0,
        description: String::new(),
        display_name: id.to_uppercase(),
        email: String::new(),
        group_constrained: false,
        id: id.to_string(),
        invite_id: String::new(),
        last_team_icon_update: 0,
        name: id.to_string(),
        policy_id: None,
        scheme_id: String::new(),
        team_type: "O".to_string(),
        update_at: 0,
    }
}

#[test]
fn only_channels_of_the_team_are_visible() {
    let cs = vec![
        channel("a", "t1", "A", ChannelType::Open),
        channel("b", "", "B", ChannelType::Direct),
        channel("c", "t1", "C", ChannelType::Private),
        channel("d", "t2", "D", ChannelType::Open),
    ];
    let ids: Vec<String> = visible_channels(cs, "t1").into_iter().map(|c| c.id).collect();
    assert_eq!(ids, vec!["a", "c"]);
}

#[test]
fn current_team_is_the_first() {
    let t = current_team(Ok(vec![team("t1"), team("t2")])).unwrap();
    assert_eq!(t.id, "t1");
    assert!(current_team(Ok(vec![])).is_none());
    assert!(current_team(Err(TeamLoadError::NoTeams)).is_none());
}

#[test]
fn team_id_or_not_found() {
    assert_eq!(current_team_id(Some(team("t7"))).unwrap(), "t7");
    assert!(matches!(current_team_id(None), Err(ChannelLoadError::ResponseError(404))));
}

#[test]
fn category_defaults() {
    let c = ChannelCategory::default();
    assert_eq!(c.category_type, ChannelCategoryType::Custom);
    assert_eq!(ChannelCategoryType::default(), ChannelCategoryType::Custom);
    assert!(c.channel_ids.is_empty());
    assert_eq!(c.sort_order, 0);
    assert!(!c.muted && !c.collapsed);
}

#[test]
fn categories_sorted_stably_by_sort_order() {
    let cats = vec![
        category("x", "X", 20, &[]),
        category("y", "Y", 10, &[]),
        category("z", "Z", 20, &[]),
        category("w", "W", -5, &[]),
    ];
    assert_eq!(category_order_of(&cats), vec![3, 1, 0, 2]);
    assert!(category_order_of(&vec![]).is_empty());
}

fn sample_list() -> ChannelListDelegate {
    let mut d = ChannelListDelegate::new(vec![ChannelType::Open, ChannelType::Private]);
    d.set_channels(vec![
        channel("town", "t1", "Town Square", ChannelType::Open),
        channel("off", "t1", "Off-Topic", ChannelType::Open),
        channel("dm", "", "alice", ChannelType::Direct),
        channel("sec", "t1", "Secret Plans", ChannelType::Private),
    ]);
    d.set_channel_categories(vec![
        category("cat-ch", "Channels", 20, &["town", "off", "sec"]),
        category("cat-dm", "Direct Messages", 30, &["dm"]),
        category("cat-fav", "Favorites", 10, &["sec"]),
    ]);
    d
}

#[test]
fn sections_follow_category_order() {
    let d = sample_list();
    assert_eq!(d.sections_count(), 3);
    assert_eq!(d.section_header(0), Some(("cat-fav".to_string(), "FAVORITES".to_string())));
    assert_eq!(d.section_header(1), Some(("cat-ch".to_string(), "CHANNELS".to_string())));
    assert_eq!(d.section_header(2), Some(("cat-dm".to_string(), "DIRECT MESSAGES".to_string())));
    assert_eq!(d.section_header(3), None);
    assert_eq!(d.items_count(0), 1);
    assert_eq!(d.items_count(1), 3);
    assert_eq!(d.items_count(2), 0);
    assert_eq!(d.items_count(9), 0);
}

#[test]
fn items_of_a_section() {
    let mut d = sample_list();
    d.set_selected_index(Some(ListIndex { section: 1, row: 1 }));
    let first = d.item_at(ListIndex { section: 1, row: 0 }).unwrap();
    assert_eq!(first.id, "town");
    assert_eq!(first.name, "Town Square");
    assert!(!first.selected);
    let second = d.item_at(ListIndex { section: 1, row: 1 }).unwrap();
    assert_eq!(second.id, "off");
    assert!(second.selected);
    assert!(second.is_selected());
    assert_eq!(second.channel_type, ChannelType::Open);
    assert!(d.item_at(ListIndex { section: 1, row: 3 }).is_none());
    assert!(d.item_at(ListIndex { section: 5, row: 0 }).is_none());
    assert_eq!(d.channel_at(ListIndex { section: 0, row: 0 }).unwrap().id, "sec");
    assert_eq!(d.visible(), vec![0, 1, 3]);
}

#[test]
fn search_is_case_insensitive() {
    let mut d = sample_list();
    d.perform_search("SQUARE");
    assert_eq!(d.visible(), vec![0]);
    assert_eq!(d.items_count(1), 1);
    assert_eq!(d.item_at(ListIndex { section: 1, row: 0 }).unwrap().id, "town");
    d.perform_search("");
    assert_eq!(d.items_count(1), 3);
}

#[test]
fn list_loading_and_errors() {
    let mut d = ChannelListDelegate::new(vec![ChannelType::Open]);
    assert!(d.loading());
    assert_eq!(d.empty_message(), "No channels");
    d.set_error("boom".to_string());
    assert!(!d.loading());
    assert_eq!(d.empty_message(), "Failed to load channels: boom");
    d.set_channels(vec![]);
    assert_eq!(d.empty_message(), "No channels");
}

#[test]
fn icons_of_channel_types() {
    assert_eq!(channel_type_to_icon(ChannelType::Open), ChannelIcon::Globe);
    assert_eq!(channel_type_to_icon(ChannelType::Private), ChannelIcon::Star);
    assert_eq!(channel_type_to_icon(ChannelType::Direct), ChannelIcon::User);
    assert_eq!(channel_type_to_icon(ChannelType::Group), ChannelIcon::CircleUser);
}

#[test]
fn channel_row_builders() {
    let r = ChannelRow::new("id1").name("General").channel_type(ChannelType::Group);
    assert_eq!(r.id, "id1");
    assert_eq!(r.name, "General");
    assert!(!r.selected);
    assert_eq!(r.channel_type, ChannelType::Group);
    let e = mattermost::ui::channel::Channel::new("id2").selected(true);
    assert!(e.selected);
    assert_eq!(e.name, "");
    assert_eq!(e.channel_type, ChannelType::Open);
}

#[test]
fn categories_are_equal_field_by_field() {
    let a = category("c", "C", 1, &["x", "y"]);
    let b = category("c", "C", 1, &["x", "y"]);
    let c = category("c", "C", 1, &["x"]);
    let d = category("c", "C", 2, &["x", "y"]);
    assert!(a == b);
    assert!(a != c);
    assert!(a != d);
}

#[test]
fn an_empty_search_shows_every_channel_of_the_listed_kinds() {
    let d = sample_list();
    assert_eq!(d.visible(), vec![0, 1, 3]);
    let mut d = ChannelListDelegate::new(vec![ChannelType::Direct]);
    d.set_channels(vec![
        channel("a", "t1", "A", ChannelType::Open),
        channel("dm", "", "bob", ChannelType::Direct),
    ]);
    assert_eq!(d.visible(), vec![1]);
}

#[test]
fn finished_loading_takes_channels_and_categories() {
    let mut d = ChannelListDelegate::new(vec![ChannelType::Open]);
    d.finish_loading::<String>(
        Ok(vec![channel("town", "t1", "Town Square", ChannelType::Open)]),
        Ok(vec![category("cat", "Channels", 1, &["town"])]),
    );
    assert!(!d.loading());
    assert_eq!(d.sections_count(), 1);
    assert_eq!(d.items_count(0), 1);
}

#[test]
fn finished_loading_without_categories_shows_no_section() {
    let mut d = ChannelListDelegate::new(vec![ChannelType::Open]);
    d.finish_loading::<String>(
        Ok(vec![channel("town", "t1", "Town Square", ChannelType::Open)]),
        Err("no categories".to_string()),
    );
    assert!(!d.loading());
    assert_eq!(d.sections_count(), 0);
    assert_eq!(d.visible(), vec![0]);
    assert_eq!(d.empty_message(), "No channels");
}

#[test]
fn failed_loading_shows_the_error() {
    let mut d = ChannelListDelegate::new(vec![ChannelType::Open]);
    d.finish_loading::<String>(Err("timeout".to_string()), Ok(vec![]));
    assert!(!d.loading());
    assert_eq!(d.empty_message(), "Failed to load channels: Failed to load channels: timeout");
}

//! Channels and channel categories.

use vstd::prelude::*;
use vstd::string::StringExecFns;

use crate::client::team::Team;
use crate::client::MattermostClient;
use crate::client::NOT_FOUND;

verus! {

/// The kind of a channel.
#[derive(Clone, Copy, Debug, PartialEq, Eq, Structural, PartialOrd, Ord)]
pub enum ChannelType {
    Direct,
    Open,
    Private,
    Group,
}

/// A channel, as the server describes it.
#[derive(Clone, Debug)]
pub struct Channel {
    pub id: String,
    pub create_at: i64,
    pub update_at: i64,
    pub delete_at: i64,
    pub team_id: String,
    pub channel_type: ChannelType,
    pub display_name: String,
    pub name: String,
    pub header: String,
    pub purpose: String,
    pub last_post_at: i64,
    pub total_msg_count: i64,
    pub extra_update_at: i64,
    pub creator_id: String,
    pub scheme_id: serde_json::Value,
    pub props: serde_json::Value,
    pub group_constrained: serde_json::Value,
    pub autotranslation: bool,
    pub shared: Option<bool>,
    pub total_msg_count_root: i64,
    pub policy_id: serde_json::Value,
    pub last_root_post_at: i64,
    pub banner_info: serde_json::Value,
    pub policy_enforced: bool,
    pub policy_is_active: bool,
    pub default_category_name: String,
}

/// The kind of a channel category.
#[derive(Clone, Copy, Debug, PartialEq, Eq, Structural)]
pub enum ChannelCategoryType {
    DirectMessages,
    Favorites,
    Custom,
    Channels,
}

impl Default for ChannelCategoryType {
    fn default() -> (r: Self)
        ensures
            r == ChannelCategoryType::Custom,
    {
        ChannelCategoryType::Custom
    }
}

/// A category of the sidebar, with the ids of the channels it holds.
#[derive(Clone, Debug)]
pub struct ChannelCategory {
    pub id: String,
    pub user_id: String,
    pub team_id: String,
    pub sort_order: i64,
    pub sorting: String,
    pub category_type: ChannelCategoryType,
    pub display_name: String,
    pub muted: bool,
    pub collapsed: bool,
    pub channel_ids: Vec<String>,
}

/// Whether two lists of texts hold the same texts in the same order.
fn same_texts(a: &Vec<String>, b: &Vec<String>) -> (r: bool)
    ensures
        r == (a.deep_view() == b.deep_view()),
{
    if a.len() != b.len() {
        assert(a.deep_view().len() != b.deep_view().len());
        return false;
    }
    let mut k: usize = 0;
    while k < a.len()
        invariant
            a@.len() == b@.len(),
            k <= a@.len(),
            forall|q: int| 0 <= q < k ==> a@[q]@ == b@[q]@,
        decreases a@.len() - k,
    {
        if a[k] != b[k] {
            assert(a.deep_view()[k as int] != b.deep_view()[k as int]);
            return false;
        }
        k = k + 1;
    }
    assert(a.deep_view() =~= b.deep_view());
    true
}

/// Two categories are equal when all their fields are.
impl PartialEq for ChannelCategory {
    fn eq(&self, other: &Self) -> (r: bool) {
        self.id == other.id && self.user_id == other.user_id && self.team_id == other.team_id
            && self.sort_order == other.sort_order && self.sorting == other.sorting
            && self.category_type == other.category_type && self.display_name == other.display_name
            && self.muted == other.muted && self.collapsed == other.collapsed && same_texts(
            &self.channel_ids,
            &other.channel_ids,
        )
    }
}

impl vstd::std_specs::cmp::PartialEqSpecImpl for ChannelCategory {
    open spec fn obeys_eq_spec() -> bool {
        true
    }

    open spec fn eq_spec(&self, other: &ChannelCategory) -> bool {
        &&& self.id@ == other.id@
        &&& self.user_id@ == other.user_id@
        &&& self.team_id@ == other.team_id@
        &&& self.sort_order == other.sort_order
        &&& self.sorting@ == other.sorting@
        &&& self.category_type == other.category_type
        &&& self.display_name@ == other.display_name@
        &&& self.muted == other.muted
        &&& self.collapsed == other.collapsed
        &&& self.channel_ids.deep_view() == other.channel_ids.deep_view()
    }
}

impl Default for ChannelCategory {
    fn default() -> (r: Self)
        ensures
            r.id@ == Seq::<char>::empty(),
            r.user_id@ == Seq::<char>::empty(),
            r.team_id@ == Seq::<char>::empty(),
            r.sort_order == 0,
            r.sorting@ == Seq::<char>::empty(),
            r.category_type == ChannelCategoryType::Custom,
            r.display_name@ == Seq::<char>::empty(),
            !r.muted,
            !r.collapsed,
            r.channel_ids@ == Seq::<String>::empty(),
    {
        ChannelCategory {
            id: String::new(),
            user_id: String::new(),
            team_id: String::new(),
            sort_order: 0,
            sorting: String::new(),
            category_type: ChannelCategoryType::Custom,
            display_name: String::new(),
            muted: false,
            collapsed: false,
            channel_ids: Vec::new(),
        }
    }
}

/// Why channels or categories could not be loaded. A status code is held as
/// its number.
#[derive(Debug)]
pub enum ChannelLoadError {
    RequestError(reqwest::Error),
    ParseError(serde_json::Error),
    ResponseError(u16),
}

impl From<reqwest::Error> for ChannelLoadError {
    fn from(e: reqwest::Error) -> (r: Self) {
        ChannelLoadError::RequestError(e)
    }
}

impl vstd::std_specs::convert::FromSpecImpl<reqwest::Error> for ChannelLoadError {
    open spec fn obeys_from_spec() -> bool {
        true
    }

    open spec fn from_spec(e: reqwest::Error) -> ChannelLoadError {
        ChannelLoadError::RequestError(e)
    }
}

impl From<serde_json::Error> for ChannelLoadError {
    fn from(e: serde_json::Error) -> (r: Self) {
        ChannelLoadError::ParseError(e)
    }
}

impl vstd::std_specs::convert::FromSpecImpl<serde_json::Error> for ChannelLoadError {
    open spec fn obeys_from_spec() -> bool {
        true
    }

    open spec fn from_spec(e: serde_json::Error) -> ChannelLoadError {
        ChannelLoadError::ParseError(e)
    }
}

impl MattermostClient {
    /// The address of the channels of a team, deleted ones left out.
    pub fn channels_for_team_url(&self, team_id: &str) -> (r: String)
        ensures
            r@ == self@.base_url + "/api/v4/users/me/teams/"@ + team_id@ + "/channels?include_deleted=false"@,
    {
        let mut s = self.base_url.clone();
        s.append("/api/v4/users/me/teams/");
        s.append(team_id);
        s.append("/channels?include_deleted=false");
        s
    }

    /// The address of the channel categories of a team.
    pub fn channel_categories_for_team_url(&self, team_id: &str) -> (r: String)
        ensures
            r@ == self@.base_url + "/api/v4/users/me/teams/"@ + team_id@ + "/channels/categories"@,
    {
        let mut s = self.base_url.clone();
        s.append("/api/v4/users/me/teams/");
        s.append(team_id);
        s.append("/channels/categories");
        s
    }
}

/// The id of the team that channels are loaded for: that of the current
/// team, or a `ResponseError` of 404 where there is no current team.
pub fn current_team_id(current: Option<Team>) -> (r: Result<String, ChannelLoadError>)
    ensures
        match current {
            Some(t) => r == Ok::<String, ChannelLoadError>(t.id),
            None => r matches Err(ChannelLoadError::ResponseError(code)) && code == NOT_FOUND,
        },
{
    match current {
        Some(t) => Ok(t.id),
        None => Err(ChannelLoadError::ResponseError(NOT_FOUND)),
    }
}

/// Whether a channel belongs to the team with id `team_id`; channels the
/// server hides carry an empty team id.
pub open spec fn in_team(c: Channel, team_id: Seq<char>) -> bool {
    c.team_id@ == team_id
}

/// The channels of `channels` in the team `team_id`, in their order.
pub open spec fn team_channels(channels: Seq<Channel>, team_id: Seq<char>) -> Seq<Channel> {
    channels.filter(|c: Channel| in_team(c, team_id))
}

/// The channels kept for a team are those whose team id is the team's:
/// each kept channel has it, and each channel that has it is kept.
pub proof fn law_visible_channels_of_team(channels: Seq<Channel>, team_id: Seq<char>)
    ensures
        forall|k: int| 0 <= k < team_channels(channels, team_id).len()
            ==> (#[trigger] team_channels(channels, team_id)[k]).team_id@ == team_id,
        forall|i: int| 0 <= i < channels.len() && (#[trigger] channels[i]).team_id@ == team_id
            ==> team_channels(channels, team_id).contains(channels[i]),
{
    channels.filter_lemma(|c: Channel| in_team(c, team_id));
}

/// The channels of the team `team_id`, in their order.
pub fn visible_channels(channels: Vec<Channel>, team_id: &str) -> (r: Vec<Channel>)
    ensures
        r@ == team_channels(channels@, team_id@),
{
    let ghost orig = channels@;
    let ghost f = |c: Channel| in_team(c, team_id@);
    let n = channels.len();
    let mut rest = channels;
    let mut r: Vec<Channel> = Vec::new();
    let mut k: usize = 0;
    let wanted = team_id.to_owned();
    assert(orig.take(0) =~= Seq::<Channel>::empty());
    while k < n
        invariant
            n == orig.len(),
            k <= n,
            rest@ == orig.subrange(k as int, n as int),
            r@ == orig.take(k as int).filter(f),
            wanted@ == team_id@,
            f == (|c: Channel| in_team(c, team_id@)),
        decreases n - k,
    {
        let c = rest.remove(0);
        proof {
            assert(c == orig[k as int]);
            assert(orig.take(k + 1).drop_last() =~= orig.take(k as int));
            reveal(Seq::filter);
        }
        if c.team_id == wanted {
            r.push(c);
        }
        k = k + 1;
        proof {
            assert(rest@ =~= orig.subrange(k as int, n as int));
        }
    }
    assert(orig.take(n as int) =~= orig);
    r
}

} // verus!

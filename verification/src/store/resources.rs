//! The resources the application loads, and their cache keys.

use vstd::prelude::*;
use vstd::string::StringExecFns;

use crate::client::channel::Channel;
use crate::client::channel::ChannelCategory;
use crate::client::post::GetPostsAt;
use crate::client::post::GetPostsOptions;
use crate::client::post::Post;
use crate::client::team::Team;
use crate::client::user::User;
use crate::store::Resource;
use crate::client::post::PostsCursor;
use crate::text::bool_text;
use crate::text::lemma_bool_text_plain;
use crate::text::lemma_decimal_injective;
use crate::text::lemma_decimal_plain;
use crate::text::lemma_split_at_first_underscore;
use crate::text::lemma_split_at_last_underscore;
use crate::text::no_underscore;
use crate::text::opt_text;
use crate::text::bool_to_string;
use crate::text::decimal;
use crate::text::u64_to_string;

verus! {

/// The channels of the current team.
pub struct AllChannels;

impl Resource for AllChannels {
    type Value = Vec<Channel>;

    open spec fn key(&self) -> Seq<char> {
        "channels"@
    }

    fn cache_key(&self) -> (k: String) {
        "channels".to_owned()
    }
}

/// The channel categories of the current team.
pub struct AllChannelCategories;

impl Resource for AllChannelCategories {
    type Value = Vec<ChannelCategory>;

    open spec fn key(&self) -> Seq<char> {
        "channel_categories"@
    }

    fn cache_key(&self) -> (k: String) {
        "channel_categories".to_owned()
    }
}

/// The teams of the logged-in user.
pub struct AllTeams;

impl Resource for AllTeams {
    type Value = Vec<Team>;

    open spec fn key(&self) -> Seq<char> {
        "teams"@
    }

    fn cache_key(&self) -> (k: String) {
        "teams".to_owned()
    }
}

/// A page of the posts of a channel.
pub struct ChannelPosts(GetPostsOptions);

impl ChannelPosts {
    /// The options the page is loaded with.
    pub closed spec fn options(&self) -> GetPostsOptions {
        self.0
    }

    /// The page of posts that `options` selects.
    pub fn new(options: GetPostsOptions) -> (r: Self)
        ensures
            r.options() == options,
    {
        ChannelPosts(options)
    }

    /// The options the page is loaded with.
    pub fn get_options(&self) -> (r: &GetPostsOptions)
        ensures
            *r == self.options(),
    {
        &self.0
    }
}

/// An optional text, or the empty text where it is absent.
pub open spec fn text_or_empty(t: Option<String>) -> Seq<char> {
    match t {
        Some(s) => s@,
        None => Seq::empty(),
    }
}

/// The part of a page's cache key that says where in the history it is:
/// `after_before_page_perpage` for a cursor, the timestamp for `since`.
pub open spec fn position_key(at: GetPostsAt) -> Seq<char> {
    match at {
        GetPostsAt::Cursor(c) => text_or_empty(c.after) + "_"@ + text_or_empty(c.before) + "_"@ + decimal(
            c.page as nat,
        ) + "_"@ + decimal(c.per_page as nat),
        GetPostsAt::Since(t) => decimal(t as nat),
    }
}

/// Whether a page includes deleted posts (`false` where unset).
pub open spec fn includes_deleted(o: GetPostsOptions) -> bool {
    match o.include_deleted {
        Some(b) => b,
        None => false,
    }
}

/// The cache key of a page of posts: the channel id, the position and
/// whether deleted posts are included, joined by `_`.
pub open spec fn posts_key(o: GetPostsOptions) -> Seq<char> {
    o.channel_id@ + "_"@ + position_key(o.at) + "_"@ + bool_text(includes_deleted(o))
}

/// Options whose cache key can be read back: a channel id without `'_'`,
/// and cursor texts that are not empty where given, the `before` one
/// without `'_'`.
pub open spec fn key_readable(o: GetPostsOptions) -> bool {
    &&& no_underscore(o.channel_id@)
    &&& (o.at matches GetPostsAt::Cursor(c) ==> {
        &&& (c.after matches Some(a) ==> a@.len() > 0)
        &&& (c.before matches Some(b) ==> b@.len() > 0 && no_underscore(b@))
    })
}

/// Two positions in a channel's history are the same: cursors with the
/// same texts and numbers, or the same `since` time.
pub open spec fn same_position(a1: GetPostsAt, a2: GetPostsAt) -> bool {
    match a1 {
        GetPostsAt::Cursor(c1) => match a2 {
            GetPostsAt::Cursor(c2) => {
                &&& opt_text(c1.after) == opt_text(c2.after)
                &&& opt_text(c1.before) == opt_text(c2.before)
                &&& c1.page == c2.page
                &&& c1.per_page == c2.per_page
            },
            GetPostsAt::Since(_) => false,
        },
        GetPostsAt::Since(t1) => match a2 {
            GetPostsAt::Since(t2) => t1 == t2,
            GetPostsAt::Cursor(_) => false,
        },
    }
}

/// Two options select the same page: same channel, same position, and the
/// same choice about deleted posts.
pub open spec fn same_page(o1: GetPostsOptions, o2: GetPostsOptions) -> bool {
    &&& o1.channel_id@ == o2.channel_id@
    &&& same_position(o1.at, o2.at)
    &&& includes_deleted(o1) == includes_deleted(o2)
}

proof fn lemma_cursor_key_split(c1: PostsCursor, c2: PostsCursor)
    requires
        position_key(GetPostsAt::Cursor(c1)) == position_key(GetPostsAt::Cursor(c2)),
        no_underscore(text_or_empty(c1.before)),
        no_underscore(text_or_empty(c2.before)),
    ensures
        text_or_empty(c1.after) == text_or_empty(c2.after),
        text_or_empty(c1.before) == text_or_empty(c2.before),
        c1.page == c2.page,
        c1.per_page == c2.per_page,
{
    let a1 = text_or_empty(c1.after);
    let b1 = text_or_empty(c1.before);
    let p1 = decimal(c1.page as nat);
    let q1 = decimal(c1.per_page as nat);
    let a2 = text_or_empty(c2.after);
    let b2 = text_or_empty(c2.before);
    let p2 = decimal(c2.page as nat);
    let q2 = decimal(c2.per_page as nat);
    lemma_decimal_plain(c1.page as nat);
    lemma_decimal_plain(c1.per_page as nat);
    lemma_decimal_plain(c2.page as nat);
    lemma_decimal_plain(c2.per_page as nat);
    lemma_split_at_last_underscore(a1 + "_"@ + b1 + "_"@ + p1, q1, a2 + "_"@ + b2 + "_"@ + p2, q2);
    lemma_split_at_last_underscore(a1 + "_"@ + b1, p1, a2 + "_"@ + b2, p2);
    lemma_split_at_last_underscore(a1, b1, a2, b2);
    lemma_decimal_injective(c1.page as nat, c2.page as nat);
    lemma_decimal_injective(c1.per_page as nat, c2.per_page as nat);
}

/// Pages of posts whose options can be read back from their cache keys
/// share a cache key exactly when they are the same page: the same channel,
/// the same position in its history and the same choice about deleted
/// posts.
pub proof fn law_posts_key_identifies_page(p1: &ChannelPosts, p2: &ChannelPosts)
    requires
        key_readable(p1.options()),
        key_readable(p2.options()),
    ensures
        p1.key() == p2.key() <==> same_page(p1.options(), p2.options()),
{
    let o1 = p1.options();
    let o2 = p2.options();
    if p1.key() == p2.key() {
        let pos1 = position_key(o1.at);
        let pos2 = position_key(o2.at);
        let bt1 = bool_text(includes_deleted(o1));
        let bt2 = bool_text(includes_deleted(o2));
        lemma_bool_text_plain(includes_deleted(o1), includes_deleted(o2));
        lemma_bool_text_plain(includes_deleted(o2), includes_deleted(o1));
        assert(posts_key(o1) =~= o1.channel_id@ + "_"@ + (pos1 + "_"@ + bt1));
        assert(posts_key(o2) =~= o2.channel_id@ + "_"@ + (pos2 + "_"@ + bt2));
        lemma_split_at_first_underscore(o1.channel_id@, pos1 + "_"@ + bt1, o2.channel_id@, pos2 + "_"@ + bt2);
        lemma_split_at_last_underscore(pos1, bt1, pos2, bt2);
        match o1.at {
            GetPostsAt::Cursor(c1) => match o2.at {
                GetPostsAt::Cursor(c2) => {
                    lemma_cursor_key_split(c1, c2);
                },
                GetPostsAt::Since(t2) => {
                    lemma_cursor_has_underscore(c1);
                    lemma_decimal_plain(t2 as nat);
                },
            },
            GetPostsAt::Since(t1) => match o2.at {
                GetPostsAt::Cursor(c2) => {
                    lemma_cursor_has_underscore(c2);
                    lemma_decimal_plain(t1 as nat);
                },
                GetPostsAt::Since(t2) => {
                    lemma_decimal_injective(t1 as nat, t2 as nat);
                },
            },
        }
    }
}

proof fn lemma_cursor_has_underscore(c: PostsCursor)
    ensures
        !no_underscore(position_key(GetPostsAt::Cursor(c))),
{
    reveal_strlit("_");
    let a = text_or_empty(c.after);
    let k = position_key(GetPostsAt::Cursor(c));
    assert(k[a.len() as int] == '_');
}

fn append_optional(s: &mut String, t: &Option<String>)
    ensures
        final(s)@ == old(s)@ + text_or_empty(*t),
{
    match t {
        Some(x) => s.append(x.as_str()),
        None => {
            assert(old(s)@ + Seq::<char>::empty() =~= old(s)@);
        },
    }
}

impl Resource for ChannelPosts {
    type Value = Vec<Post>;

    open spec fn key(&self) -> Seq<char> {
        posts_key(self.options())
    }

    fn cache_key(&self) -> (k: String) {
        let o = &self.0;
        let mut k = o.channel_id.clone();
        k.append("_");
        match &o.at {
            GetPostsAt::Cursor(c) => {
                append_optional(&mut k, &c.after);
                k.append("_");
                append_optional(&mut k, &c.before);
                k.append("_");
                let page = u64_to_string(c.page);
                k.append(page.as_str());
                k.append("_");
                let per_page = u64_to_string(c.per_page);
                k.append(per_page.as_str());
            },
            GetPostsAt::Since(t) => {
                let ts = u64_to_string(*t);
                k.append(ts.as_str());
            },
        }
        k.append("_");
        let deleted = match o.include_deleted {
            Some(b) => b,
            None => false,
        };
        let d = bool_to_string(deleted);
        k.append(d.as_str());
        k
    }
}

/// A user, by id.
pub struct UserById(pub String);

impl Resource for UserById {
    type Value = User;

    open spec fn key(&self) -> Seq<char> {
        "user_"@ + self.0@
    }

    fn cache_key(&self) -> (k: String) {
        let mut k = "user_".to_owned();
        k.append(self.0.as_str());
        k
    }
}

} // verus!

//! Posts of a channel: the query that pages through them and the assembly
//! of the server's answer into an ordered list.

use vstd::prelude::*;
use vstd::string::StringExecFns;

use crate::client::MattermostClient;
use crate::outside::parse_url_with_params;
use crate::outside::parses_as_url;
use crate::outside::url_with_query;
use crate::text::bool_text;
use crate::text::bool_to_string;
use crate::text::decimal;
use crate::text::u64_to_string;

verus! {

/// A post, as the server describes it.
#[derive(Clone, Debug)]
pub struct Post {
    pub id: String,
    pub create_at: u64,
    pub update_at: u64,
    pub delete_at: u64,
    pub edit_at: u64,
    pub user_id: String,
    pub channel_id: String,
    pub root_id: String,
    pub original_id: String,
    pub message: String,
    pub post_type: String,
    pub props: serde_json::Value,
    pub hashtag: String,
    pub file_ids: Vec<String>,
    pub pending_post_id: String,
    pub metadata: PostMetadata,
}

/// Two posts are the same post exactly when their ids are equal.
impl PartialEq for Post {
    fn eq(&self, other: &Self) -> (r: bool) {
        self.id == other.id
    }
}

impl vstd::std_specs::cmp::PartialEqSpecImpl for Post {
    open spec fn obeys_eq_spec() -> bool {
        true
    }

    open spec fn eq_spec(&self, other: &Post) -> bool {
        self.id@ == other.id@
    }
}

impl Eq for Post {

}

/// The metadata of a post; none of it is read yet.
#[derive(Clone, Debug, PartialEq, Eq, Structural)]
pub struct PostMetadata {}

impl Default for PostMetadata {
    fn default() -> (r: Self)
        ensures
            r == (PostMetadata {  }),
    {
        PostMetadata {  }
    }
}

/// Which posts of a channel to load.
#[derive(Clone, Debug)]
pub struct GetPostsOptions {
    pub channel_id: String,
    pub at: GetPostsAt,
    pub include_deleted: Option<bool>,
}

/// Where in a channel's history to load posts from.
#[derive(Clone, Debug)]
pub enum GetPostsAt {
    Cursor(PostsCursor),
    /// Using `since` removes all ordering on the server's side.
    Since(u64),
}

/// A page of a channel's history.
#[derive(Clone, Debug)]
pub struct PostsCursor {
    pub after: Option<String>,
    pub before: Option<String>,
    pub page: u64,
    pub per_page: u64,
}

impl Default for PostsCursor {
    fn default() -> (r: Self)
        ensures
            r.after is None,
            r.before is None,
            r.page == 0,
            r.per_page == 0,
    {
        PostsCursor { after: None, before: None, page: 0, per_page: 0 }
    }
}

impl Default for GetPostsAt {
    fn default() -> (r: Self)
        ensures
            r matches GetPostsAt::Cursor(c) && c.after is None && c.before is None && c.page == 0
                && c.per_page == 0,
    {
        GetPostsAt::Cursor(PostsCursor::default())
    }
}

impl Default for GetPostsOptions {
    fn default() -> (r: Self)
        ensures
            r.channel_id@ == Seq::<char>::empty(),
            r.at matches GetPostsAt::Cursor(c) && c.after is None && c.before is None && c.page == 0
                && c.per_page == 0,
            r.include_deleted is None,
    {
        GetPostsOptions { channel_id: String::new(), at: GetPostsAt::default(), include_deleted: None }
    }
}

/// Why posts could not be loaded. A status code is held as its number.
#[derive(Debug)]
pub enum PostLoadError {
    RequestError(reqwest::Error),
    ParseError(serde_json::Error),
    ResponseError(u16),
    UrlParserError(url::ParseError),
}

impl From<reqwest::Error> for PostLoadError {
    fn from(e: reqwest::Error) -> (r: Self) {
        PostLoadError::RequestError(e)
    }
}

impl vstd::std_specs::convert::FromSpecImpl<reqwest::Error> for PostLoadError {
    open spec fn obeys_from_spec() -> bool {
        true
    }

    open spec fn from_spec(e: reqwest::Error) -> PostLoadError {
        PostLoadError::RequestError(e)
    }
}

impl From<serde_json::Error> for PostLoadError {
    fn from(e: serde_json::Error) -> (r: Self) {
        PostLoadError::ParseError(e)
    }
}

impl vstd::std_specs::convert::FromSpecImpl<serde_json::Error> for PostLoadError {
    open spec fn obeys_from_spec() -> bool {
        true
    }

    open spec fn from_spec(e: serde_json::Error) -> PostLoadError {
        PostLoadError::ParseError(e)
    }
}

impl From<url::ParseError> for PostLoadError {
    fn from(e: url::ParseError) -> (r: Self) {
        PostLoadError::UrlParserError(e)
    }
}

impl vstd::std_specs::convert::FromSpecImpl<url::ParseError> for PostLoadError {
    open spec fn obeys_from_spec() -> bool {
        true
    }

    open spec fn from_spec(e: url::ParseError) -> PostLoadError {
        PostLoadError::UrlParserError(e)
    }
}

/// A query pair given only where the value is present.
pub open spec fn optional_pair(key: Seq<char>, value: Option<String>) -> Seq<(Seq<char>, Seq<char>)> {
    match value {
        Some(v) => seq![(key, v@)],
        None => seq![],
    }
}

/// A numeric query pair given only where the number is positive.
pub open spec fn positive_pair(key: Seq<char>, n: u64) -> Seq<(Seq<char>, Seq<char>)> {
    if n > 0 {
        seq![(key, decimal(n as nat))]
    } else {
        seq![]
    }
}

/// The query pairs of a page: `after`, `before`, `page` and `per_page`, in
/// that order, each only where set (a page or size of 0 is unset).
pub open spec fn cursor_query(c: PostsCursor) -> Seq<(Seq<char>, Seq<char>)> {
    optional_pair("after"@, c.after) + optional_pair("before"@, c.before) + positive_pair(
        "page"@,
        c.page,
    ) + positive_pair("per_page"@, c.per_page)
}

/// The query pairs of a request for posts: those of the page, or `since`,
/// then `include_deleted` where it is set.
pub open spec fn posts_query(o: GetPostsOptions) -> Seq<(Seq<char>, Seq<char>)> {
    let at = match o.at {
        GetPostsAt::Cursor(c) => cursor_query(c),
        GetPostsAt::Since(t) => seq![("since"@, decimal(t as nat))],
    };
    at + match o.include_deleted {
        Some(b) => seq![("include_deleted"@, bool_text(b))],
        None => seq![],
    }
}

/// The pairs of a query named `name`, in their order.
pub open spec fn pairs_named(q: Seq<(Seq<char>, Seq<char>)>, name: Seq<char>) -> Seq<(Seq<char>, Seq<char>)> {
    q.filter(|p: (Seq<char>, Seq<char>)| p.0 == name)
}

proof fn lemma_pairs_named_part(part: Seq<(Seq<char>, Seq<char>)>, key: Seq<char>, name: Seq<char>)
    requires
        part.len() <= 1,
        part.len() == 1 ==> part[0].0 == key,
        key == name || key.len() != name.len(),
    ensures
        pairs_named(part, name) == if key.len() == name.len() { part } else { Seq::<(Seq<char>, Seq<char>)>::empty() },
{
    reveal_with_fuel(Seq::filter, 2);
    if part.len() == 1 {
        assert(part.drop_last() =~= Seq::<(Seq<char>, Seq<char>)>::empty());
        assert(Seq::<(Seq<char>, Seq<char>)>::empty().push(part.last()) =~= part);
    } else {
        assert(part =~= Seq::<(Seq<char>, Seq<char>)>::empty());
    }
}

proof fn lemma_pairs_named_parts(
    a: Seq<(Seq<char>, Seq<char>)>,
    b: Seq<(Seq<char>, Seq<char>)>,
    pg: Seq<(Seq<char>, Seq<char>)>,
    pp: Seq<(Seq<char>, Seq<char>)>,
    inc: Seq<(Seq<char>, Seq<char>)>,
    name: Seq<char>,
)
    ensures
        pairs_named(a + b + pg + pp + inc, name) == pairs_named(a, name) + pairs_named(b, name) + pairs_named(pg, name)
            + pairs_named(pp, name) + pairs_named(inc, name),
{
    let f = |p: (Seq<char>, Seq<char>)| p.0 == name;
    Seq::filter_distributes_over_add(a + b + pg + pp, inc, f);
    Seq::filter_distributes_over_add(a + b + pg, pp, f);
    Seq::filter_distributes_over_add(a + b, pg, f);
    Seq::filter_distributes_over_add(a, b, f);
}

/// The query of a request for a page at a cursor names each setting once
/// at most: `after` and `before` with their texts where given, `page` and
/// `per_page` with their decimal numerals where positive, and
/// `include_deleted` with its text where set.
pub proof fn law_cursor_query_names(o: GetPostsOptions, c: PostsCursor)
    requires
        o.at == GetPostsAt::Cursor(c),
    ensures
        pairs_named(posts_query(o), "after"@) == match c.after {
            Some(a) => seq![("after"@, a@)],
            None => Seq::<(Seq<char>, Seq<char>)>::empty(),
        },
        pairs_named(posts_query(o), "before"@) == match c.before {
            Some(b) => seq![("before"@, b@)],
            None => Seq::<(Seq<char>, Seq<char>)>::empty(),
        },
        pairs_named(posts_query(o), "page"@) == if c.page > 0 {
            seq![("page"@, decimal(c.page as nat))]
        } else {
            Seq::<(Seq<char>, Seq<char>)>::empty()
        },
        pairs_named(posts_query(o), "per_page"@) == if c.per_page > 0 {
            seq![("per_page"@, decimal(c.per_page as nat))]
        } else {
            Seq::<(Seq<char>, Seq<char>)>::empty()
        },
        pairs_named(posts_query(o), "include_deleted"@) == match o.include_deleted {
            Some(d) => seq![("include_deleted"@, bool_text(d))],
            None => Seq::<(Seq<char>, Seq<char>)>::empty(),
        },
{
    let e = Seq::<(Seq<char>, Seq<char>)>::empty();
    let a = optional_pair("after"@, c.after);
    let b = optional_pair("before"@, c.before);
    let pg = positive_pair("page"@, c.page);
    let pp = positive_pair("per_page"@, c.per_page);
    let inc = match o.include_deleted {
        Some(d) => seq![("include_deleted"@, bool_text(d))],
        None => e,
    };
    assert(posts_query(o) == a + b + pg + pp + inc);
    lemma_five_parts_named(a, b, pg, pp, inc);
}

/// The query of a request for a page at a cursor holds no pair but those
/// of its settings: each is named `after`, `before`, `page`, `per_page` or
/// `include_deleted`.
pub proof fn law_cursor_query_names_nothing_else(o: GetPostsOptions, c: PostsCursor)
    requires
        o.at == GetPostsAt::Cursor(c),
    ensures
        forall|k: int| 0 <= k < posts_query(o).len() ==> {
            let name = #[trigger] posts_query(o)[k].0;
            name == "after"@ || name == "before"@ || name == "page"@ || name == "per_page"@ || name == "include_deleted"@
        },
{
    let e = Seq::<(Seq<char>, Seq<char>)>::empty();
    let a = optional_pair("after"@, c.after);
    let b = optional_pair("before"@, c.before);
    let pg = positive_pair("page"@, c.page);
    let pp = positive_pair("per_page"@, c.per_page);
    let inc = match o.include_deleted {
        Some(d) => seq![("include_deleted"@, bool_text(d))],
        None => e,
    };
    assert(posts_query(o) == a + b + pg + pp + inc);
    lemma_names_only(a, b, pg, pp, inc);
}

/// The pairs of each name in the five parts of a cursor query are those of
/// its part.
proof fn lemma_five_parts_named(
    a: Seq<(Seq<char>, Seq<char>)>,
    b: Seq<(Seq<char>, Seq<char>)>,
    pg: Seq<(Seq<char>, Seq<char>)>,
    pp: Seq<(Seq<char>, Seq<char>)>,
    inc: Seq<(Seq<char>, Seq<char>)>,
)
    requires
        a.len() <= 1 && (a.len() == 1 ==> a[0].0 == "after"@),
        b.len() <= 1 && (b.len() == 1 ==> b[0].0 == "before"@),
        pg.len() <= 1 && (pg.len() == 1 ==> pg[0].0 == "page"@),
        pp.len() <= 1 && (pp.len() == 1 ==> pp[0].0 == "per_page"@),
        inc.len() <= 1 && (inc.len() == 1 ==> inc[0].0 == "include_deleted"@),
    ensures
        pairs_named(a + b + pg + pp + inc, "after"@) == a,
        pairs_named(a + b + pg + pp + inc, "before"@) == b,
        pairs_named(a + b + pg + pp + inc, "page"@) == pg,
        pairs_named(a + b + pg + pp + inc, "per_page"@) == pp,
        pairs_named(a + b + pg + pp + inc, "include_deleted"@) == inc,
{
    let e = Seq::<(Seq<char>, Seq<char>)>::empty();
    lemma_query_name_lengths();
    let ka = "after"@;
    let kb = "before"@;
    let kg = "page"@;
    let kp = "per_page"@;
    let ki = "include_deleted"@;
    let q = a + b + pg + pp + inc;
    assert(pairs_named(q, ka) == a) by {
        lemma_named_in_five(a, b, pg, pp, inc, ka, kb, kg, kp, ki, ka);
        assert(a + e + e + e + e =~= a);
    }
    assert(pairs_named(q, kb) == b) by {
        lemma_named_in_five(a, b, pg, pp, inc, ka, kb, kg, kp, ki, kb);
        assert(e + b + e + e + e =~= b);
    }
    assert(pairs_named(q, kg) == pg) by {
        lemma_named_in_five(a, b, pg, pp, inc, ka, kb, kg, kp, ki, kg);
        assert(e + e + pg + e + e =~= pg);
    }
    assert(pairs_named(q, kp) == pp) by {
        lemma_named_in_five(a, b, pg, pp, inc, ka, kb, kg, kp, ki, kp);
        assert(e + e + e + pp + e =~= pp);
    }
    assert(pairs_named(q, ki) == inc) by {
        lemma_named_in_five(a, b, pg, pp, inc, ka, kb, kg, kp, ki, ki);
        assert(e + e + e + e + inc =~= inc);
    }
}

/// Every pair of the five parts of a cursor query has one of their names.
proof fn lemma_names_only(
    a: Seq<(Seq<char>, Seq<char>)>,
    b: Seq<(Seq<char>, Seq<char>)>,
    pg: Seq<(Seq<char>, Seq<char>)>,
    pp: Seq<(Seq<char>, Seq<char>)>,
    inc: Seq<(Seq<char>, Seq<char>)>,
)
    requires
        a.len() <= 1 && (a.len() == 1 ==> a[0].0 == "after"@),
        b.len() <= 1 && (b.len() == 1 ==> b[0].0 == "before"@),
        pg.len() <= 1 && (pg.len() == 1 ==> pg[0].0 == "page"@),
        pp.len() <= 1 && (pp.len() == 1 ==> pp[0].0 == "per_page"@),
        inc.len() <= 1 && (inc.len() == 1 ==> inc[0].0 == "include_deleted"@),
    ensures
        forall|k: int| 0 <= k < (a + b + pg + pp + inc).len() ==> {
            let name = #[trigger] (a + b + pg + pp + inc)[k].0;
            name == "after"@ || name == "before"@ || name == "page"@ || name == "per_page"@ || name == "include_deleted"@
        },
{
    let q = a + b + pg + pp + inc;
    assert forall|k: int| 0 <= k < q.len() implies {
        let name = #[trigger] q[k].0;
        name == "after"@ || name == "before"@ || name == "page"@ || name == "per_page"@ || name == "include_deleted"@
    } by {
        let s1 = a + b;
        let s2 = s1 + pg;
        let s3 = s2 + pp;
        if k < s3.len() {
            assert(q[k] == s3[k]);
            if k < s2.len() {
                assert(s3[k] == s2[k]);
                if k < s1.len() {
                    assert(s2[k] == s1[k]);
                    if k < a.len() {
                        assert(s1[k] == a[k]);
                    } else {
                        assert(s1[k] == b[k - a.len()]);
                    }
                } else {
                    assert(s2[k] == pg[k - s1.len()]);
                }
            } else {
                assert(s3[k] == pp[k - s2.len()]);
            }
        } else {
            assert(q[k] == inc[k - s3.len()]);
        }
    }
}

/// The lengths of the names of the settings of a cursor query, which
/// differ from each other.
proof fn lemma_query_name_lengths()
    ensures
        "after"@.len() == 5,
        "before"@.len() == 6,
        "page"@.len() == 4,
        "per_page"@.len() == 8,
        "include_deleted"@.len() == 15,
{
    reveal_strlit("after");
    reveal_strlit("before");
    reveal_strlit("page");
    reveal_strlit("per_page");
    reveal_strlit("include_deleted");
}

/// The pairs named `name` in five parts, each holding at most one pair of
/// its own key: the parts whose key is `name`.
proof fn lemma_named_in_five(
    p0: Seq<(Seq<char>, Seq<char>)>,
    p1: Seq<(Seq<char>, Seq<char>)>,
    p2: Seq<(Seq<char>, Seq<char>)>,
    p3: Seq<(Seq<char>, Seq<char>)>,
    p4: Seq<(Seq<char>, Seq<char>)>,
    k0: Seq<char>,
    k1: Seq<char>,
    k2: Seq<char>,
    k3: Seq<char>,
    k4: Seq<char>,
    name: Seq<char>,
)
    requires
        p0.len() <= 1 && (p0.len() == 1 ==> p0[0].0 == k0),
        p1.len() <= 1 && (p1.len() == 1 ==> p1[0].0 == k1),
        p2.len() <= 1 && (p2.len() == 1 ==> p2[0].0 == k2),
        p3.len() <= 1 && (p3.len() == 1 ==> p3[0].0 == k3),
        p4.len() <= 1 && (p4.len() == 1 ==> p4[0].0 == k4),
        k0 == name || k0.len() != name.len(),
        k1 == name || k1.len() != name.len(),
        k2 == name || k2.len() != name.len(),
        k3 == name || k3.len() != name.len(),
        k4 == name || k4.len() != name.len(),
    ensures
        pairs_named(p0 + p1 + p2 + p3 + p4, name) == (if k0.len() == name.len() { p0 } else { Seq::empty() }) + (if k1.len()
            == name.len() { p1 } else { Seq::empty() }) + (if k2.len() == name.len() { p2 } else { Seq::empty() }) + (
        if k3.len() == name.len() {
            p3
        } else {
            Seq::empty()
        }) + (if k4.len() == name.len() { p4 } else { Seq::empty() }),
{
    lemma_pairs_named_parts(p0, p1, p2, p3, p4, name);
    lemma_pairs_named_part(p0, k0, name);
    lemma_pairs_named_part(p1, k1, name);
    lemma_pairs_named_part(p2, k2, name);
    lemma_pairs_named_part(p3, k3, name);
    lemma_pairs_named_part(p4, k4, name);
}

fn push_pair(v: &mut Vec<(String, String)>, key: &str, value: String)
    ensures
        final(v).deep_view() == old(v).deep_view().push((key@, value@)),
{
    v.push((key.to_owned(), value));
    assert(final(v).deep_view() =~= old(v).deep_view().push((key@, value@)));
}

/// The query pairs of a request for posts.
pub fn posts_query_params(options: &GetPostsOptions) -> (r: Vec<(String, String)>)
    ensures
        r.deep_view() == posts_query(*options),
{
    let mut v: Vec<(String, String)> = Vec::new();
    assert(v.deep_view() =~= Seq::<(Seq<char>, Seq<char>)>::empty());
    match &options.at {
        GetPostsAt::Cursor(c) => {
            match &c.after {
                Some(a) => push_pair(&mut v, "after", a.clone()),
                None => {},
            }
            assert(v.deep_view() =~= optional_pair("after"@, c.after));
            let ghost s1 = v.deep_view();
            match &c.before {
                Some(b) => push_pair(&mut v, "before", b.clone()),
                None => {},
            }
            assert(v.deep_view() =~= s1 + optional_pair("before"@, c.before));
            let ghost s2 = v.deep_view();
            if c.page > 0 {
                push_pair(&mut v, "page", u64_to_string(c.page));
            }
            assert(v.deep_view() =~= s2 + positive_pair("page"@, c.page));
            let ghost s3 = v.deep_view();
            if c.per_page > 0 {
                push_pair(&mut v, "per_page", u64_to_string(c.per_page));
            }
            assert(v.deep_view() =~= s3 + positive_pair("per_page"@, c.per_page));
            assert(v.deep_view() =~= cursor_query(*c));
        },
        GetPostsAt::Since(t) => {
            push_pair(&mut v, "since", u64_to_string(*t));
            assert(v.deep_view() =~= seq![("since"@, decimal(*t as nat))]);
        },
    }
    let ghost s4 = v.deep_view();
    match options.include_deleted {
        Some(b) => push_pair(&mut v, "include_deleted", bool_to_string(b)),
        None => {},
    }
    assert(v.deep_view() =~= posts_query(*options));
    v
}

impl MattermostClient {
    /// The address of the posts of a channel, without query.
    pub fn posts_base_url(&self, channel_id: &str) -> (r: String)
        ensures
            r@ == self@.base_url + "/api/v4/channels/"@ + channel_id@ + "/posts"@,
    {
        let mut s = self.base_url.clone();
        s.append("/api/v4/channels/");
        s.append(channel_id);
        s.append("/posts");
        s
    }

    /// The address of a request for posts, with its query. Fails with
    /// `UrlParserError` exactly when the address without query does not parse.
    pub fn posts_url(&self, options: &GetPostsOptions) -> (r: Result<String, PostLoadError>)
        ensures
            r is Ok <==> parses_as_url(self@.base_url + "/api/v4/channels/"@ + options.channel_id@ + "/posts"@),
            r matches Ok(u) ==> u@ == url_with_query(
                self@.base_url + "/api/v4/channels/"@ + options.channel_id@ + "/posts"@,
                posts_query(*options),
            ),
            r matches Err(e) ==> e is UrlParserError,
    {
        let base = self.posts_base_url(options.channel_id.as_str());
        let params = posts_query_params(options);
        match parse_url_with_params(base.as_str(), &params) {
            Ok(u) => Ok(u),
            Err(e) => Err(PostLoadError::UrlParserError(e)),
        }
    }
}

/// The posts of a channel as the server answers them: keyed by id, with
/// their order given separately. `posts` holds the pairs of the JSON object.
#[derive(Debug)]
pub struct PostsResponse {
    pub posts: Vec<(String, Post)>,
    pub order: Vec<String>,
}

/// The post stored under `id`: that of the last pair with that key, as a
/// map filled from the pairs in turn keeps it.
pub open spec fn post_under(entries: Seq<(String, Post)>, id: Seq<char>) -> Option<Post>
    decreases entries.len(),
{
    if entries.len() == 0 {
        None
    } else if entries.last().0@ == id {
        Some(entries.last().1)
    } else {
        post_under(entries.drop_last(), id)
    }
}

/// Whether the id at position `i` of `order` already occurs before it.
pub open spec fn repeats_earlier(order: Seq<String>, i: int) -> bool {
    exists|k: int| 0 <= k < i && #[trigger] order[k]@ == order[i]@
}

/// The posts named by `order`, in that order: an id with no post, and each
/// repetition of an id, give nothing.
pub open spec fn ordered_posts(entries: Seq<(String, Post)>, order: Seq<String>) -> Seq<Post>
    decreases order.len(),
{
    if order.len() == 0 {
        seq![]
    } else {
        let prev = ordered_posts(entries, order.drop_last());
        let i = order.len() - 1;
        if repeats_earlier(order, i) {
            prev
        } else {
            match post_under(entries, order[i]@) {
                Some(p) => prev.push(p),
                None => prev,
            }
        }
    }
}

/// Every post of the assembled list is the post stored under some id of
/// the order, and the list is no longer than the order.
pub proof fn law_ordered_posts_come_from_order(entries: Seq<(String, Post)>, order: Seq<String>)
    ensures
        ordered_posts(entries, order).len() <= order.len(),
        forall|k: int| 0 <= k < ordered_posts(entries, order).len() ==> exists|i: int|
            0 <= i < order.len() && post_under(entries, #[trigger] order[i]@) == Some(
                #[trigger] ordered_posts(entries, order)[k],
            ),
    decreases order.len(),
{
    if order.len() > 0 {
        let prev_order = order.drop_last();
        law_ordered_posts_come_from_order(entries, prev_order);
        let prev = ordered_posts(entries, prev_order);
        let cur = ordered_posts(entries, order);
        assert forall|k: int| 0 <= k < cur.len() implies exists|i: int|
            0 <= i < order.len() && post_under(entries, #[trigger] order[i]@) == Some(#[trigger] cur[k]) by {
            if k < prev.len() {
                assert(cur[k] == prev[k]);
                let i = choose|i: int| 0 <= i < prev_order.len() && post_under(entries, #[trigger] prev_order[i]@) == Some(prev[k]);
                assert(order[i] == prev_order[i]);
            } else {
                assert(post_under(entries, order[order.len() - 1]@) == Some(cur[k]));
            }
        }
    }
}

/// `j` is the last position of `entries` whose key is `id`.
spec fn last_key_at(entries: Seq<(String, Post)>, id: Seq<char>, j: int) -> bool {
    &&& 0 <= j < entries.len()
    &&& entries[j].0@ == id
    &&& forall|q: int| j < q < entries.len() ==> #[trigger] entries[q].0@ != id
}

proof fn lemma_post_under_last(entries: Seq<(String, Post)>, id: Seq<char>)
    ensures
        post_under(entries, id) is Some <==> exists|j: int| 0 <= j < entries.len() && #[trigger] entries[j].0@ == id,
        post_under(entries, id) matches Some(p) ==> exists|j: int| last_key_at(entries, id, j) && p == #[trigger] entries[j].1,
    decreases entries.len(),
{
    if entries.len() > 0 {
        let n = entries.len() - 1;
        let t = entries.drop_last();
        lemma_post_under_last(t, id);
        assert(entries.last() == entries[n]);
        if entries[n].0@ == id {
            assert(last_key_at(entries, id, n));
        } else {
            if exists|j: int| 0 <= j < entries.len() && #[trigger] entries[j].0@ == id {
                let j = choose|j: int| 0 <= j < entries.len() && #[trigger] entries[j].0@ == id;
                assert(t[j] == entries[j]);
            }
            if exists|j: int| 0 <= j < t.len() && #[trigger] t[j].0@ == id {
                let j = choose|j: int| 0 <= j < t.len() && #[trigger] t[j].0@ == id;
                assert(t[j] == entries[j]);
            }
            if post_under(t, id) is Some {
                let j = choose|j: int| last_key_at(t, id, j) && post_under(t, id).unwrap() == #[trigger] t[j].1;
                assert forall|q: int| j < q < entries.len() implies #[trigger] entries[q].0@ != id by {
                    if q < n {
                        assert(t[q] == entries[q]);
                    }
                }
                assert(t[j] == entries[j]);
                assert(last_key_at(entries, id, j));
            }
        }
    }
}

/// Where the ids of `order` are distinct and each has a post, the page
/// holds one post per id, in the order's order: at position `k`, the post of
/// the last pair whose key is `order[k]`.
pub proof fn law_every_ordered_id_gives_its_post(entries: Seq<(String, Post)>, order: Seq<String>)
    requires
        forall|a: int, b: int| 0 <= a < b < order.len() ==> #[trigger] order[a]@ != #[trigger] order[b]@,
        forall|k: int| 0 <= k < order.len() ==> exists|j: int| 0 <= j < entries.len() && #[trigger] entries[j].0@ == (#[trigger] order[k])@,
    ensures
        ordered_posts(entries, order).len() == order.len(),
        forall|k: int| 0 <= k < order.len() ==> exists|j: int|
            0 <= j < entries.len() && entries[j].0@ == (#[trigger] order[k])@
                && (forall|q: int| j < q < entries.len() ==> #[trigger] entries[q].0@ != order[k]@)
                && ordered_posts(entries, order)[k] == entries[j].1,
    decreases order.len(),
{
    if order.len() > 0 {
        let n = order.len() - 1;
        let prev_order = order.drop_last();
        assert forall|a: int, b: int| 0 <= a < b < prev_order.len() implies #[trigger] prev_order[a]@ != #[trigger] prev_order[b]@ by {
            assert(prev_order[a] == order[a] && prev_order[b] == order[b]);
        }
        assert forall|k: int| 0 <= k < prev_order.len() implies exists|j: int| 0 <= j < entries.len() && #[trigger] entries[j].0@ == (#[trigger] prev_order[k])@ by {
            assert(prev_order[k] == order[k]);
        }
        law_every_ordered_id_gives_its_post(entries, prev_order);
        let prev = ordered_posts(entries, prev_order);
        let cur = ordered_posts(entries, order);
        assert(!repeats_earlier(order, n)) by {
            if repeats_earlier(order, n) {
                let k = choose|k: int| 0 <= k < n && #[trigger] order[k]@ == order[n]@;
                assert(order[k]@ != order[n]@);
            }
        }
        lemma_post_under_last(entries, order[n]@);
        assert(exists|j: int| 0 <= j < entries.len() && #[trigger] entries[j].0@ == order[n]@);
        let p = post_under(entries, order[n]@).unwrap();
        assert(cur == prev.push(p));
        assert forall|k: int| 0 <= k < order.len() implies exists|j: int|
            0 <= j < entries.len() && entries[j].0@ == (#[trigger] order[k])@
                && (forall|q: int| j < q < entries.len() ==> #[trigger] entries[q].0@ != order[k]@)
                && cur[k] == entries[j].1 by {
            if k < n {
                assert(prev_order[k] == order[k]);
                assert(cur[k] == prev[k]);
            } else {
                let j = choose|j: int| last_key_at(entries, order[n]@, j) && p == #[trigger] entries[j].1;
                assert(last_key_at(entries, order[n]@, j));
            }
        }
    }
}

proof fn lemma_post_under_at(entries: Seq<(String, Post)>, id: Seq<char>, j: int)
    requires
        -1 <= j < entries.len(),
        forall|q: int| j < q < entries.len() ==> #[trigger] entries[q].0@ != id,
        j == -1 || entries[j].0@ == id,
    ensures
        post_under(entries, id) == if j == -1 {
            None
        } else {
            Some(entries[j].1)
        },
    decreases entries.len(),
{
    if entries.len() > 0 && j < entries.len() - 1 {
        let t = entries.drop_last();
        assert(entries.last() == entries[entries.len() - 1]);
        assert forall|q: int| j < q < t.len() implies #[trigger] t[q].0@ != id by {
            assert(t[q] == entries[q]);
        }
        if j >= 0 {
            assert(t[j] == entries[j]);
        }
        lemma_post_under_at(t, id, j);
    }
}

proof fn lemma_ordered_prefix(entries: Seq<(String, Post)>, order: Seq<String>, i: int)
    requires
        0 <= i < order.len(),
    ensures
        ordered_posts(entries, order.take(i + 1)) == {
            let prev = ordered_posts(entries, order.take(i));
            if repeats_earlier(order, i) {
                prev
            } else {
                match post_under(entries, order[i]@) {
                    Some(p) => prev.push(p),
                    None => prev,
                }
            }
        },
{
    let o = order.take(i + 1);
    assert(o.drop_last() =~= order.take(i));
    assert(o[i] == order[i]);
    assert(repeats_earlier(o, i) == repeats_earlier(order, i)) by {
        if repeats_earlier(order, i) {
            let k = choose|k: int| 0 <= k < i && #[trigger] order[k]@ == order[i]@;
            assert(o[k] == order[k]);
        }
        if repeats_earlier(o, i) {
            let k = choose|k: int| 0 <= k < i && #[trigger] o[k]@ == o[i]@;
            assert(o[k] == order[k]);
        }
    }
}

/// Whether `order[i]` repeats an earlier id of `order`.
fn seen_before(order: &Vec<String>, i: usize) -> (r: bool)
    requires
        i < order@.len(),
    ensures
        r == repeats_earlier(order@, i as int),
{
    let mut k: usize = 0;
    while k < i
        invariant
            i < order@.len(),
            k <= i,
            forall|q: int| 0 <= q < k ==> order@[q]@ != order@[i as int]@,
        decreases i - k,
    {
        if order[k] == order[i] {
            return true;
        }
        k = k + 1;
    }
    false
}

/// The last position of `id` in `keys`, if any.
fn last_key(keys: &Vec<String>, id: &String) -> (r: Option<usize>)
    ensures
        r matches Some(j) ==> j < keys@.len() && keys@[j as int]@ == id@ && forall|q: int|
            j < q < keys@.len() ==> keys@[q]@ != id@,
        r is None ==> forall|q: int| 0 <= q < keys@.len() ==> keys@[q]@ != id@,
{
    let mut j: usize = keys.len();
    while j > 0
        invariant
            j <= keys@.len(),
            forall|q: int| j <= q < keys@.len() ==> keys@[q]@ != id@,
        decreases j,
    {
        if keys[j - 1] == *id {
            return Some(j - 1);
        }
        j = j - 1;
    }
    None
}

impl PostsResponse {
    /// Reassembles the id-keyed posts into the sequence given by `order`.
    pub fn into_ordered_posts(self) -> (r: Vec<Post>)
        ensures
            r@ == ordered_posts(self.posts@, self.order@),
    {
        let ghost entries = self.posts@;
        let PostsResponse { posts, order } = self;
        let m = posts.len();
        let mut rest = posts;
        let mut keys: Vec<String> = Vec::new();
        let mut slots: Vec<Option<Post>> = Vec::new();
        let mut k: usize = 0;
        while k < m
            invariant
                m == entries.len(),
                k <= m,
                rest@ == entries.subrange(k as int, m as int),
                keys@.len() == k,
                slots@.len() == k,
                forall|q: int| 0 <= q < k ==> #[trigger] keys@[q] == entries[q].0,
                forall|q: int| 0 <= q < k ==> #[trigger] slots@[q] == Some(entries[q].1),
            decreases m - k,
        {
            let (key, post) = rest.remove(0);
            keys.push(key);
            slots.push(Some(post));
            k = k + 1;
            assert(rest@ =~= entries.subrange(k as int, m as int));
        }
        let n = order.len();
        let mut r: Vec<Post> = Vec::new();
        let mut i: usize = 0;
        assert(order@.take(0) =~= Seq::<String>::empty());
        while i < n
            invariant
                m == entries.len(),
                n == order@.len(),
                i <= n,
                keys@.len() == m,
                slots@.len() == m,
                forall|q: int| 0 <= q < m ==> #[trigger] keys@[q] == entries[q].0,
                forall|q: int|
                    0 <= q < m ==> (#[trigger] slots@[q] is Some ==> slots@[q] == Some(entries[q].1)),
                forall|q: int|
                    0 <= q < m ==> (#[trigger] slots@[q] is None ==> exists|p: int|
                        0 <= p < i && #[trigger] order@[p]@ == keys@[q]@),
                r@ == ordered_posts(entries, order@.take(i as int)),
            decreases n - i,
        {
            proof {
                lemma_ordered_prefix(entries, order@, i as int);
            }
            if !seen_before(&order, i) {
                match last_key(&keys, &order[i]) {
                    Some(j) => {
                        proof {
                            assert forall|q: int| j < q < m implies #[trigger] entries[q].0@ != order@[i as int]@ by {
                                assert(keys@[q] == entries[q].0);
                            }
                            assert(keys@[j as int] == entries[j as int].0);
                            lemma_post_under_at(entries, order@[i as int]@, j as int);
                            if slots@[j as int] is None {
                                let p = choose|p: int| 0 <= p < i && #[trigger] order@[p]@ == keys@[j as int]@;
                                assert(order@[p]@ == order@[i as int]@);
                            }
                        }
                        let slot = slots.remove(j);
                        slots.insert(j, None);
                        match slot {
                            Some(p) => r.push(p),
                            None => {},
                        }
                        proof {
                            assert forall|q: int| 0 <= q < m implies (#[trigger] slots@[q] is None ==> exists|p: int|
                                0 <= p < i + 1 && #[trigger] order@[p]@ == keys@[q]@) by {
                                if slots@[q] is None {
                                    if q == j {
                                        assert(order@[i as int]@ == keys@[q]@);
                                    } else {
                                        let p = choose|p: int| 0 <= p < i && #[trigger] order@[p]@ == keys@[q]@;
                                        assert(0 <= p < i + 1);
                                    }
                                }
                            }
                        }
                    },
                    None => {
                        proof {
                            assert forall|q: int| 0 <= q < m implies #[trigger] entries[q].0@ != order@[i as int]@ by {
                                assert(keys@[q] == entries[q].0);
                            }
                            lemma_post_under_at(entries, order@[i as int]@, -1);
                        }
                    },
                }
            }
            i = i + 1;
        }
        assert(order@.take(n as int) =~= order@);
        r
    }
}

} // verus!

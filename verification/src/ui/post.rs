//! The post list of a channel: its rows, their authors, and the paging back
//! through the channel's history.

use vstd::prelude::*;
use vstd::string::StringExecFns;

use crate::client::post::GetPostsAt;
use crate::client::post::GetPostsOptions;
use crate::client::post::Post;
use crate::client::post::PostsCursor;
use crate::client::user::User;
use crate::text::lemma_sorted_texts_equal;
use crate::text::lemma_sorted_texts_filter;
use crate::text::lemma_text_lt_total;
use crate::text::lemma_text_lt_trans;
use crate::text::sorted_texts;
use crate::text::text_less;
use crate::text::text_lt;
use crate::ui::ListIndex;

verus! {

/// The number of posts asked for per page.
pub const POSTS_PER_PAGE: u64 = 30;

/// How many rows before the end of the list the next page is asked for.
pub const LOAD_MORE_THRESHOLD: usize = 10;

/// A row that shows a post with its author.
#[derive(Clone, Debug)]
pub struct PostRow {
    pub id: String,
    pub author_name: String,
    pub author_avatar: String,
    pub message: String,
    pub selected: bool,
}

impl PostRow {
    /// An unselected row for the post `id`, with empty texts.
    pub fn new(id: &str) -> (r: Self)
        ensures
            r.id@ == id@,
            r.author_name@ == Seq::<char>::empty(),
            r.author_avatar@ == Seq::<char>::empty(),
            r.message@ == Seq::<char>::empty(),
            !r.selected,
    {
        PostRow {
            id: id.to_owned(),
            author_name: String::new(),
            author_avatar: String::new(),
            message: String::new(),
            selected: false,
        }
    }

    /// The row with the given author name.
    pub fn author_name(self, name: &str) -> (r: Self)
        ensures
            r.id == self.id,
            r.author_name@ == name@,
            r.author_avatar == self.author_avatar,
            r.message == self.message,
            r.selected == self.selected,
    {
        PostRow { author_name: name.to_owned(), ..self }
    }

    /// The row with the given author avatar.
    pub fn author_avatar(self, avatar: &str) -> (r: Self)
        ensures
            r.id == self.id,
            r.author_name == self.author_name,
            r.author_avatar@ == avatar@,
            r.message == self.message,
            r.selected == self.selected,
    {
        PostRow { author_avatar: avatar.to_owned(), ..self }
    }

    /// The row with the given message.
    pub fn message(self, message: &str) -> (r: Self)
        ensures
            r.id == self.id,
            r.author_name == self.author_name,
            r.author_avatar == self.author_avatar,
            r.message@ == message@,
            r.selected == self.selected,
    {
        PostRow { message: message.to_owned(), ..self }
    }

    /// The row with the given selection.
    pub fn selected(self, selected: bool) -> (r: Self)
        ensures
            r.id == self.id,
            r.author_name == self.author_name,
            r.author_avatar == self.author_avatar,
            r.message == self.message,
            r.selected == selected,
    {
        PostRow { selected, ..self }
    }

    /// Whether the row is selected.
    pub fn is_selected(&self) -> (r: bool)
        ensures
            r == self.selected,
    {
        self.selected
    }
}

/// A loaded post, with its author once that is known.
#[derive(Debug)]
pub struct PostRowData {
    pub author: Option<User>,
    pub post: Post,
}

/// The rows of freshly loaded posts: each post, with no author yet.
pub open spec fn fresh_rows(posts: Seq<Post>) -> Seq<PostRowData> {
    Seq::new(posts.len(), |i: int| PostRowData { author: None, post: posts[i] })
}

/// What the post list holds.
pub struct PostListModel {
    pub posts: Seq<PostRowData>,
    pub has_more: bool,
    pub loading: bool,
    pub loading_more: bool,
    pub error: Option<Seq<char>>,
    pub selected_index: Option<ListIndex>,
}

/// The state of a channel's post list.
pub struct PostListDelegate {
    posts: Vec<PostRowData>,
    has_more: bool,
    loading: bool,
    loading_more: bool,
    error: Option<String>,
    selected_index: Option<ListIndex>,
}

impl View for PostListDelegate {
    type V = PostListModel;

    closed spec fn view(&self) -> PostListModel {
        PostListModel {
            posts: self.posts@,
            has_more: self.has_more,
            loading: self.loading,
            loading_more: self.loading_more,
            error: match self.error {
                Some(e) => Some(e@),
                None => None,
            },
            selected_index: self.selected_index,
        }
    }
}

fn push_fresh_rows(rows: &mut Vec<PostRowData>, posts: Vec<Post>)
    ensures
        final(rows)@ == old(rows)@ + fresh_rows(posts@),
{
    let ghost start = rows@;
    let ghost all = posts@;
    let n = posts.len();
    let mut rest = posts;
    let mut k: usize = 0;
    while k < n
        invariant
            n == all.len(),
            k <= n,
            rest@ == all.subrange(k as int, n as int),
            rows@ == start + fresh_rows(all.take(k as int)),
        decreases n - k,
    {
        let p = rest.remove(0);
        rows.push(PostRowData { author: None, post: p });
        k = k + 1;
        assert(rest@ =~= all.subrange(k as int, n as int));
        assert(fresh_rows(all.take(k as int)) =~= fresh_rows(all.take(k - 1)).push(
            PostRowData { author: None, post: p },
        ));
        assert(rows@ =~= start + fresh_rows(all.take(k as int)));
    }
    assert(all.take(n as int) =~= all);
}

/// `after` is `before` with a copy of `user` as the author of every post by
/// `user_id`, and every other row unchanged.
pub open spec fn author_attached(before: Seq<PostRowData>, after: Seq<PostRowData>, user_id: Seq<char>, user: User) -> bool {
    &&& after.len() == before.len()
    &&& forall|i: int| 0 <= i < before.len() ==> {
        let b = before[i];
        let a = #[trigger] after[i];
        if b.post.user_id@ == user_id {
            a.post == b.post && (a.author matches Some(u) && cloned(user, u))
        } else {
            a == b
        }
    }
}

/// Once an author is attached, no post misses that author any more, and
/// the posts missing any other author are those that missed it before.
pub proof fn law_attached_author_not_missing(before: Seq<PostRowData>, after: Seq<PostRowData>, user_id: Seq<char>, user: User, other: Seq<char>)
    requires
        author_attached(before, after, user_id, user),
    ensures
        forall|i: int| 0 <= i < after.len() ==> !missing_author(#[trigger] after[i], user_id),
        other != user_id ==> forall|i: int| 0 <= i < after.len() ==> (missing_author(#[trigger] after[i], other) == missing_author(before[i], other)),
{
    assert forall|i: int| 0 <= i < after.len() implies !missing_author(#[trigger] after[i], user_id) by {
        let b = before[i];
        if b.post.user_id@ == user_id {
        } else {
            assert(after[i] == b);
        }
    }
}

/// Row `k` holds the oldest post of `rows`: no post was created before it,
/// and every row after it was created later.
pub open spec fn is_oldest_row(rows: Seq<PostRowData>, k: int) -> bool {
    &&& 0 <= k < rows.len()
    &&& forall|i: int| 0 <= i < rows.len() ==> rows[k].post.create_at <= #[trigger] rows[i].post.create_at
    &&& forall|i: int| k < i < rows.len() ==> rows[k].post.create_at < #[trigger] rows[i].post.create_at
}

/// The missing author ids are exactly the user ids of the loaded posts
/// that have no author yet, each once, in increasing order.
pub proof fn law_missing_author_ids_exact(rows: Seq<PostRowData>, ids: Seq<Seq<char>>, x: Seq<char>)
    requires
        is_missing_author_list(rows, ids),
    ensures
        ids.contains(x) <==> exists|i: int| 0 <= i < rows.len() && (#[trigger] rows[i]).author is None && rows[i].post.user_id@ == x,
        forall|a: int, b: int| 0 <= a < b < ids.len() ==> #[trigger] ids[a] != #[trigger] ids[b],
{
    if ids.contains(x) {
        let i = choose|i: int| 0 <= i < rows.len() && #[trigger] missing_author(rows[i], x);
        assert(rows[i].author is None);
    }
    if exists|i: int| 0 <= i < rows.len() && (#[trigger] rows[i]).author is None && rows[i].post.user_id@ == x {
        let i = choose|i: int| 0 <= i < rows.len() && (#[trigger] rows[i]).author is None && rows[i].post.user_id@ == x;
        assert(missing_author(rows[i], x));
    }
    assert forall|a: int, b: int| 0 <= a < b < ids.len() implies #[trigger] ids[a] != #[trigger] ids[b] by {
        lemma_text_lt_total(ids[a], ids[b]);
    }
}

/// Once an author is attached, the list of missing author ids is the one
/// before, less that author: every other id stays, still in increasing
/// order.
pub proof fn law_attached_author_leaves_missing_list(
    before: Seq<PostRowData>,
    after: Seq<PostRowData>,
    user_id: Seq<char>,
    user: User,
    ids_before: Seq<Seq<char>>,
    ids_after: Seq<Seq<char>>,
)
    requires
        author_attached(before, after, user_id, user),
        is_missing_author_list(before, ids_before),
        is_missing_author_list(after, ids_after),
    ensures
        ids_after == ids_before.filter(|x: Seq<char>| x != user_id),
{
    let keep = |x: Seq<char>| x != user_id;
    let kept = ids_before.filter(keep);
    assert(sorted_texts(ids_before));
    assert(sorted_texts(ids_after));
    lemma_sorted_texts_filter(ids_before, keep);
    assert forall|x: Seq<char>| ids_after.contains(x) <==> kept.contains(x) by {
        law_attached_author_not_missing(before, after, user_id, user, x);
        if ids_after.contains(x) {
            let i = choose|i: int| 0 <= i < after.len() && #[trigger] missing_author(after[i], x);
            assert(missing_author(before[i], x));
        }
        if kept.contains(x) {
            let i = choose|i: int| 0 <= i < before.len() && #[trigger] missing_author(before[i], x);
            assert(missing_author(after[i], x));
        }
    }
    lemma_sorted_texts_equal(ids_after, kept);
}

/// The id of the author of a row that has no author yet.
pub open spec fn missing_author(row: PostRowData, id: Seq<char>) -> bool {
    row.author is None && row.post.user_id@ == id
}

/// The ids of authors still missing from the rows, once each, in increasing
/// order: the exact characterisation of `missing_author_ids`.
pub open spec fn is_missing_author_list(rows: Seq<PostRowData>, ids: Seq<Seq<char>>) -> bool {
    &&& forall|a: int, b: int| 0 <= a < b < ids.len() ==> text_lt(#[trigger] ids[a], #[trigger] ids[b])
    &&& forall|id: Seq<char>| #[trigger] ids.contains(id) <==> exists|i: int| 0 <= i < rows.len() && #[trigger] missing_author(rows[i], id)
}

impl PostListDelegate {
    /// An empty list, loading its first page, expecting more.
    pub fn new() -> (r: Self)
        ensures
            r@.posts == Seq::<PostRowData>::empty(),
            r@.has_more,
            r@.loading,
            !r@.loading_more,
            r@.error is None,
            r@.selected_index is None,
    {
        PostListDelegate {
            posts: Vec::new(),
            has_more: true,
            loading: true,
            loading_more: false,
            error: None,
            selected_index: None,
        }
    }

    /// Takes the first page of posts: loading is over and no error is shown.
    pub fn set_posts(&mut self, posts: Vec<Post>, has_more: bool)
        ensures
            final(self)@ == (PostListModel {
                posts: fresh_rows(posts@),
                has_more,
                loading: false,
                error: None,
                ..old(self)@
            }),
    {
        let mut rows: Vec<PostRowData> = Vec::new();
        push_fresh_rows(&mut rows, posts);
        assert(rows@ =~= fresh_rows(posts@));
        self.posts = rows;
        self.has_more = has_more;
        self.loading = false;
        self.error = None;
    }

    /// Takes an older page of posts, after those already loaded.
    pub fn append_posts(&mut self, posts: Vec<Post>, has_more: bool)
        ensures
            final(self)@ == (PostListModel {
                posts: old(self)@.posts + fresh_rows(posts@),
                has_more,
                loading_more: false,
                ..old(self)@
            }),
    {
        push_fresh_rows(&mut self.posts, posts);
        self.has_more = has_more;
        self.loading_more = false;
    }

    /// Shows an error: all loading is over.
    pub fn set_error(&mut self, error: String)
        ensures
            final(self)@ == (PostListModel {
                error: Some(error@),
                loading: false,
                loading_more: false,
                ..old(self)@
            }),
    {
        self.error = Some(error);
        self.loading = false;
        self.loading_more = false;
    }

    /// Records whether an older page is being loaded.
    pub fn set_loading_more(&mut self, loading_more: bool)
        ensures
            final(self)@ == (PostListModel { loading_more, ..old(self)@ }),
    {
        self.loading_more = loading_more;
    }

    /// Whether an older page should be asked for: there is more history and
    /// no page is being loaded.
    pub fn should_load_more(&self) -> (r: bool)
        ensures
            r == (self@.has_more && !self@.loading_more),
    {
        self.has_more && !self.loading_more
    }

    /// The id of the oldest loaded post, the `before` cursor for the next
    /// older page: the post with the least creation time (of several such,
    /// the one furthest down the list).
    pub fn oldest_post_id(&self) -> (r: Option<String>)
        ensures
            self@.posts.len() > 0 ==> (r matches Some(id) && exists|k: int|
                is_oldest_row(self@.posts, k) && id@ == #[trigger] self@.posts[k].post.id@),
            self@.posts.len() > 0 ==> (r matches Some(id) && exists|k: int|
                0 <= k < self@.posts.len() && id@ == #[trigger] self@.posts[k].post.id@ && forall|i: int|
                    0 <= i < self@.posts.len() ==> self@.posts[k].post.create_at <= #[trigger] self@.posts[i].post.create_at),
            self@.posts.len() == 0 ==> r is None,
    {
        let n = self.posts.len();
        if n == 0 {
            return None;
        }
        let mut best: usize = 0;
        let mut i: usize = 1;
        while i < n
            invariant
                n == self@.posts.len(),
                1 <= i <= n,
                best < i,
                forall|q: int| 0 <= q < i ==> self@.posts[best as int].post.create_at <= #[trigger] self@.posts[q].post.create_at,
                forall|q: int| best < q < i ==> self@.posts[best as int].post.create_at < #[trigger] self@.posts[q].post.create_at,
            decreases n - i,
        {
            if self.posts[i].post.create_at <= self.posts[best].post.create_at {
                best = i;
            }
            i = i + 1;
        }
        let id = self.posts[best].post.id.clone();
        assert(is_oldest_row(self@.posts, best as int) && id@ == self@.posts[best as int].post.id@);
        Some(id)
    }

    /// Attaches a copy of `user` as the author of every loaded post by
    /// `user_id`; other rows are unchanged.
    pub fn set_author(&mut self, user_id: &str, user: User)
        ensures
            author_attached(old(self)@.posts, final(self)@.posts, user_id@, user),
            final(self)@.has_more == old(self)@.has_more,
            final(self)@.loading == old(self)@.loading,
            final(self)@.loading_more == old(self)@.loading_more,
            final(self)@.error == old(self)@.error,
            final(self)@.selected_index == old(self)@.selected_index,
    {
        let wanted = user_id.to_owned();
        let ghost start = self.posts@;
        let ghost flags = (self.has_more, self.loading, self.loading_more, self.error, self.selected_index);
        let n = self.posts.len();
        let mut i: usize = 0;
        while i < n
            invariant
                flags == (self.has_more, self.loading, self.loading_more, self.error, self.selected_index),
                n == start.len(),
                self.posts@.len() == n,
                i <= n,
                wanted@ == user_id@,
                forall|q: int| i <= q < n ==> #[trigger] self.posts@[q] == start[q],
                forall|q: int| 0 <= q < i ==> {
                    let before = start[q];
                    let after = #[trigger] self.posts@[q];
                    if before.post.user_id@ == user_id@ {
                        after.post == before.post && (after.author matches Some(u) && cloned(user, u))
                    } else {
                        after == before
                    }
                },
            decreases n - i,
        {
            if self.posts[i].post.user_id == wanted {
                let row = self.posts.remove(i);
                let updated = PostRowData { author: Some(user.clone()), post: row.post };
                self.posts.insert(i, updated);
            }
            i = i + 1;
        }
    }

    /// The ids of the authors still missing from the loaded posts, each once,
    /// in increasing order.
    pub fn missing_author_ids(&self) -> (r: Vec<String>)
        ensures
            is_missing_author_list(self@.posts, r.deep_view()),
    {
        let mut ids: Vec<String> = Vec::new();
        let n = self.posts.len();
        let mut i: usize = 0;
        while i < n
            invariant
                n == self@.posts.len(),
                i <= n,
                forall|a: int, b: int|
                    0 <= a < b < ids@.len() ==> text_lt(#[trigger] ids@[a]@, #[trigger] ids@[b]@),
                forall|x: Seq<char>|
                    #[trigger] lists_text(ids@, x) <==> exists|q: int|
                        0 <= q < i && #[trigger] missing_author(self@.posts[q], x),
            decreases n - i,
        {
            let ghost old_ids = ids@;
            let row = &self.posts[i];
            if row.author.is_none() {
                let id = &row.post.user_id;
                let mut pos: usize = 0;
                while pos < ids.len() && text_less(ids[pos].as_str(), id.as_str())
                    invariant
                        pos <= ids@.len(),
                        ids@ == old_ids,
                        forall|k: int| 0 <= k < pos ==> text_lt(#[trigger] ids@[k]@, id@),
                    decreases ids@.len() - pos,
                {
                    pos = pos + 1;
                }
                let present = pos < ids.len() && ids[pos] == *id;
                if !present {
                    proof {
                        // Everything from `pos` on comes after `id`.
                        assert forall|k: int| pos <= k < old_ids.len() implies text_lt(id@, #[trigger] old_ids[k]@) by {
                            lemma_text_lt_total(id@, old_ids[pos as int]@);
                            if k > pos {
                                lemma_text_lt_trans(id@, old_ids[pos as int]@, old_ids[k]@);
                            }
                        }
                    }
                    ids.insert(pos, id.clone());
                    proof {
                        let nr = ids@;
                        assert forall|a: int, b: int| 0 <= a < b < nr.len() implies text_lt(#[trigger] nr[a]@, #[trigger] nr[b]@) by {
                            if b < pos {
                                assert(nr[a] == old_ids[a] && nr[b] == old_ids[b]);
                            } else if b == pos {
                                assert(nr[a] == old_ids[a]);
                            } else if a < pos {
                                assert(nr[a] == old_ids[a] && nr[b] == old_ids[b - 1]);
                                lemma_text_lt_trans(nr[a]@, id@, nr[b]@);
                            } else if a == pos {
                                assert(nr[b] == old_ids[b - 1]);
                            } else {
                                assert(nr[a] == old_ids[a - 1] && nr[b] == old_ids[b - 1]);
                            }
                        }
                        assert forall|x: Seq<char>| #[trigger] lists_text(nr, x) == (lists_text(old_ids, x) || x == id@) by {
                            if lists_text(old_ids, x) {
                                let k = choose|k: int| 0 <= k < old_ids.len() && old_ids[k]@ == x;
                                if k < pos {
                                    assert(nr[k] == old_ids[k]);
                                } else {
                                    assert(nr[k + 1] == old_ids[k]);
                                }
                            }
                            if x == id@ {
                                assert(nr[pos as int]@ == x);
                            }
                            if lists_text(nr, x) {
                                let k = choose|k: int| 0 <= k < nr.len() && nr[k]@ == x;
                                if k < pos {
                                    assert(nr[k] == old_ids[k]);
                                } else if k > pos {
                                    assert(nr[k] == old_ids[k - 1]);
                                }
                            }
                        }
                    }
                } else {
                    assert(lists_text(old_ids, id@)) by {
                        assert(old_ids[pos as int]@ == id@);
                    }
                }
                proof {
                    assert forall|x: Seq<char>| #[trigger] lists_text(ids@, x) <==> exists|q: int|
                        0 <= q < i + 1 && #[trigger] missing_author(self@.posts[q], x) by {
                        if x == id@ {
                            assert(missing_author(self@.posts[i as int], x));
                        }
                        if exists|q: int| 0 <= q < i + 1 && #[trigger] missing_author(self@.posts[q], x) {
                            let q = choose|q: int| 0 <= q < i + 1 && #[trigger] missing_author(self@.posts[q], x);
                            if q < i {
                                assert(lists_text(old_ids, x));
                            }
                        }
                    }
                }
            } else {
                proof {
                    assert forall|x: Seq<char>| #[trigger] lists_text(ids@, x) <==> exists|q: int|
                        0 <= q < i + 1 && #[trigger] missing_author(self@.posts[q], x) by {
                        if exists|q: int| 0 <= q < i + 1 && #[trigger] missing_author(self@.posts[q], x) {
                            let q = choose|q: int| 0 <= q < i + 1 && #[trigger] missing_author(self@.posts[q], x);
                            assert(q != i);
                        }
                    }
                }
            }
            i = i + 1;
        }
        proof {
            let dv = ids.deep_view();
            assert forall|x: Seq<char>| #[trigger] dv.contains(x) <==> lists_text(ids@, x) by {
                if dv.contains(x) {
                    let k = choose|k: int| 0 <= k < dv.len() && dv[k] == x;
                    assert(ids@[k]@ == x);
                }
                if lists_text(ids@, x) {
                    let k = choose|k: int| 0 <= k < ids@.len() && ids@[k]@ == x;
                    assert(dv[k] == x);
                }
            }
            assert forall|a: int, b: int| 0 <= a < b < dv.len() implies text_lt(#[trigger] dv[a], #[trigger] dv[b]) by {
                assert(dv[a] == ids@[a]@ && dv[b] == ids@[b]@);
            }
        }
        ids
    }

    /// The number of rows.
    pub fn items_count(&self) -> (r: usize)
        ensures
            r == self@.posts.len(),
    {
        self.posts.len()
    }

    /// Whether there is older history to load.
    pub fn has_more(&self) -> (r: bool)
        ensures
            r == self@.has_more,
    {
        self.has_more
    }

    /// Whether the first page is still loading.
    pub fn loading(&self) -> (r: bool)
        ensures
            r == self@.loading,
    {
        self.loading
    }

    /// How many rows before the end of the list the next page is asked for.
    pub fn load_more_threshold(&self) -> (r: usize)
        ensures
            r == LOAD_MORE_THRESHOLD,
    {
        LOAD_MORE_THRESHOLD
    }

    /// Takes a new selection.
    pub fn set_selected_index(&mut self, ix: Option<ListIndex>)
        ensures
            final(self)@ == (PostListModel { selected_index: ix, ..old(self)@ }),
    {
        self.selected_index = ix;
    }

    /// The text shown where no post is: the error, or that there are none yet.
    pub fn empty_message(&self) -> (r: String)
        ensures
            r@ == match self@.error {
                Some(e) => "Failed to load messages: "@ + e,
                None => "No messages yet"@,
            },
    {
        match &self.error {
            Some(e) => {
                let mut s = "Failed to load messages: ".to_owned();
                s.append(e.as_str());
                s
            },
            None => "No messages yet".to_owned(),
        }
    }

    /// The row shown at `ix` (its section is not looked at): the post's id
    /// and message, and its author's user name, or the post's user id where
    /// the author is not known yet; selected where `ix` is the selection.
    pub fn row_at(&self, ix: ListIndex) -> (r: Option<PostRow>)
        ensures
            ix.row < self@.posts.len() ==> (r matches Some(row) && {
                let data = self@.posts[ix.row as int];
                &&& row.id@ == data.post.id@
                &&& row.message@ == data.post.message@
                &&& row.author_name@ == match data.author {
                    Some(u) => u.username@,
                    None => data.post.user_id@,
                }
                &&& row.author_avatar@ == Seq::<char>::empty()
                &&& row.selected == (self@.selected_index == Some(ix))
            }),
            ix.row >= self@.posts.len() ==> r is None,
    {
        if ix.row >= self.posts.len() {
            return None;
        }
        let data = &self.posts[ix.row];
        let author_name = match &data.author {
            Some(user) => user.username.clone(),
            None => data.post.user_id.clone(),
        };
        let selected = match self.selected_index {
            Some(s) => s == ix,
            None => false,
        };
        Some(
            PostRow::new(data.post.id.as_str()).author_name(author_name.as_str()).message(
                data.post.message.as_str(),
            ).selected(selected),
        )
    }
}

/// Whether some text of `ids` has the characters `x`.
pub open spec fn lists_text(ids: Seq<String>, x: Seq<char>) -> bool {
    exists|k: int| 0 <= k < ids.len() && ids[k]@ == x
}

/// The options of the first page of a channel: the newest
/// `POSTS_PER_PAGE` posts.
pub fn first_page_options(channel_id: String) -> (r: GetPostsOptions)
    ensures
        r.channel_id == channel_id,
        r.at matches GetPostsAt::Cursor(c) && c.after is None && c.before is None && c.page == 0
            && c.per_page == POSTS_PER_PAGE,
        r.include_deleted is None,
{
    GetPostsOptions {
        channel_id,
        at: GetPostsAt::Cursor(PostsCursor { after: None, before: None, page: 0, per_page: POSTS_PER_PAGE }),
        include_deleted: None,
    }
}

/// Whether a loaded page suggests older history: it was full.
pub fn page_has_more(count: usize) -> (r: bool)
    ensures
        r == (count == POSTS_PER_PAGE),
{
    count as u64 == POSTS_PER_PAGE
}

/// What `next_page_options` gives for a list in state `m`: where more
/// history is expected, no page is being loaded and some post is loaded,
/// the options of `POSTS_PER_PAGE` posts of the channel before the oldest
/// loaded post; otherwise none.
pub open spec fn is_next_page(m: PostListModel, channel_id: String, r: Option<GetPostsOptions>) -> bool {
    if m.has_more && !m.loading_more && m.posts.len() > 0 {
        r matches Some(o) && {
            &&& o.channel_id == channel_id
            &&& o.at matches GetPostsAt::Cursor(c) && c.after is None && (c.before matches Some(b)
                && exists|k: int| is_oldest_row(m.posts, k) && b@ == #[trigger] m.posts[k].post.id@)
                && c.page == 0 && c.per_page == POSTS_PER_PAGE
            &&& o.include_deleted is None
        }
    } else {
        r is None
    }
}

impl PostListDelegate {
    /// The options of the next older page of a channel, where one should be
    /// asked for: `POSTS_PER_PAGE` posts before the oldest one loaded. None
    /// where nothing more should be loaded or no post is loaded yet.
    pub fn next_page_options(&self, channel_id: String) -> (r: Option<GetPostsOptions>)
        ensures
            is_next_page(self@, channel_id, r),
    {
        if !self.should_load_more() {
            return None;
        }
        match self.oldest_post_id() {
            Some(before) => Some(
                GetPostsOptions {
                    channel_id,
                    at: GetPostsAt::Cursor(
                        PostsCursor { after: None, before: Some(before), page: 0, per_page: POSTS_PER_PAGE },
                    ),
                    include_deleted: None,
                },
            ),
            None => None,
        }
    }

    /// Starts loading the next older page of a channel where one should be
    /// loaded: gives its options and marks the list as loading more. Where
    /// none should, gives none and leaves the list as it is.
    pub fn begin_next_page(&mut self, channel_id: String) -> (r: Option<GetPostsOptions>)
        ensures
            is_next_page(old(self)@, channel_id, r),
            r is Some ==> final(self)@ == (PostListModel { loading_more: true, ..old(self)@ }),
            r is None ==> final(self)@ == old(self)@,
    {
        let options = self.next_page_options(channel_id);
        if options.is_some() {
            self.set_loading_more(true);
        }
        options
    }

    /// Takes what loading an older page gave: its posts after those loaded,
    /// more history expected where the page was full. Where it failed,
    /// loading more stops and nothing else changes.
    pub fn finish_next_page<E>(&mut self, result: Result<Vec<Post>, E>)
        ensures
            match result {
                Ok(posts) => final(self)@ == (PostListModel {
                    posts: old(self)@.posts + fresh_rows(posts@),
                    has_more: posts@.len() == POSTS_PER_PAGE,
                    loading_more: false,
                    ..old(self)@
                }),
                Err(_) => final(self)@ == (PostListModel { loading_more: false, ..old(self)@ }),
            },
    {
        match result {
            Ok(posts) => {
                let has_more = page_has_more(posts.len());
                self.append_posts(posts, has_more);
            },
            Err(_) => self.set_loading_more(false),
        }
    }

    /// Takes what loading the first page gave: its posts, more history
    /// expected where the page was full. Where it failed, the error
    /// `"Failed to load messages: "` followed by the text of the failure.
    pub fn finish_first_page(&mut self, result: Result<Vec<Post>, String>)
        ensures
            match result {
                Ok(posts) => final(self)@ == (PostListModel {
                    posts: fresh_rows(posts@),
                    has_more: posts@.len() == POSTS_PER_PAGE,
                    loading: false,
                    error: None,
                    ..old(self)@
                }),
                Err(e) => final(self)@ == (PostListModel {
                    error: Some("Failed to load messages: "@ + e@),
                    loading: false,
                    loading_more: false,
                    ..old(self)@
                }),
            },
    {
        match result {
            Ok(posts) => {
                let has_more = page_has_more(posts.len());
                self.set_posts(posts, has_more);
            },
            Err(e) => {
                let mut text = "Failed to load messages: ".to_owned();
                text.append(e.as_str());
                self.set_error(text);
            },
        }
    }
}

} // verus!

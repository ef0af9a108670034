//! The channel list: which channels are shown, grouped by category, in the
//! categories' order.

use vstd::prelude::*;

use crate::client;
use crate::client::channel::ChannelCategory;
use crate::client::channel::ChannelType;
use crate::outside::lowercase;
use crate::outside::to_lowercase;
use crate::outside::to_uppercase;
use crate::outside::uppercase;
use crate::text::contains;
use crate::text::has_substring;
use crate::text::occurs_at;
use crate::ui::ListIndex;

verus! {

/// What the channel list tells its owner.
#[derive(Clone, Debug)]
pub enum ChannelListEvent {
    ChannelSelected(String),
}

/// The icon that stands for a kind of channel.
#[derive(Clone, Copy, Debug, PartialEq, Eq, Structural)]
pub enum ChannelIcon {
    Globe,
    Star,
    User,
    CircleUser,
}

/// The icon of a kind of channel: a globe for open channels, a star for
/// private ones, a user for direct messages and a circled user for groups.
pub fn channel_type_to_icon(channel_type: ChannelType) -> (r: ChannelIcon)
    ensures
        r == match channel_type {
            ChannelType::Open => ChannelIcon::Globe,
            ChannelType::Private => ChannelIcon::Star,
            ChannelType::Direct => ChannelIcon::User,
            ChannelType::Group => ChannelIcon::CircleUser,
        },
{
    match channel_type {
        ChannelType::Open => ChannelIcon::Globe,
        ChannelType::Private => ChannelIcon::Star,
        ChannelType::Direct => ChannelIcon::User,
        ChannelType::Group => ChannelIcon::CircleUser,
    }
}

/// An entry of the channel list.
#[derive(Clone, Debug)]
pub struct Channel {
    pub id: String,
    pub name: String,
    pub selected: bool,
    pub channel_type: ChannelType,
}

impl Channel {
    /// The entry with the given selection.
    pub fn selected(self, selected: bool) -> (r: Self)
        ensures
            r == (Channel { selected, ..self }),
    {
        Channel { selected, ..self }
    }

    /// An unselected entry for an open channel with id `id` and no name.
    pub fn new(id: &str) -> (r: Self)
        ensures
            r.id@ == id@,
            r.name@ == Seq::<char>::empty(),
            !r.selected,
            r.channel_type == ChannelType::Open,
    {
        Channel { id: id.to_owned(), name: String::new(), selected: false, channel_type: ChannelType::Open }
    }

    /// The entry with the given kind of channel.
    pub fn channel_type(self, channel_type: ChannelType) -> (r: Self)
        ensures
            r == (Channel { channel_type, ..self }),
    {
        Channel { channel_type, ..self }
    }

    /// The entry with the given name.
    pub fn name(self, name: &str) -> (r: Self)
        ensures
            r.id == self.id,
            r.name@ == name@,
            r.selected == self.selected,
            r.channel_type == self.channel_type,
    {
        Channel { name: name.to_owned(), ..self }
    }

    /// Whether the entry is selected.
    pub fn is_selected(&self) -> (r: bool)
        ensures
            r == self.selected,
    {
        self.selected
    }
}

/// A row that shows a channel with its icon.
#[derive(Clone, Debug)]
pub struct ChannelRow {
    pub id: String,
    pub name: String,
    pub selected: bool,
    pub channel_type: ChannelType,
}

impl ChannelRow {
    /// An unselected row for an open channel with id `id` and no name.
    pub fn new(id: &str) -> (r: Self)
        ensures
            r.id@ == id@,
            r.name@ == Seq::<char>::empty(),
            !r.selected,
            r.channel_type == ChannelType::Open,
    {
        ChannelRow { id: id.to_owned(), name: String::new(), selected: false, channel_type: ChannelType::Open }
    }

    /// The row with the given kind of channel.
    pub fn channel_type(self, channel_type: ChannelType) -> (r: Self)
        ensures
            r == (ChannelRow { channel_type, ..self }),
    {
        ChannelRow { channel_type, ..self }
    }

    /// The row with the given name.
    pub fn name(self, name: &str) -> (r: Self)
        ensures
            r.id == self.id,
            r.name@ == name@,
            r.selected == self.selected,
            r.channel_type == self.channel_type,
    {
        ChannelRow { name: name.to_owned(), ..self }
    }
}

/// Category `a` comes before category `b`: by sort order, then by position.
pub open spec fn category_before(cats: Seq<ChannelCategory>, a: usize, b: usize) -> bool {
    ||| cats[a as int].sort_order < cats[b as int].sort_order
    ||| (cats[a as int].sort_order == cats[b as int].sort_order && a < b)
}

/// `order` lists every category position once, sorted by sort order, with
/// categories of equal sort order in their given order (a stable sort).
pub open spec fn is_category_order(cats: Seq<ChannelCategory>, order: Seq<usize>) -> bool {
    &&& order.len() == cats.len()
    &&& forall|k: int| 0 <= k < order.len() ==> #[trigger] order[k] < cats.len()
    &&& forall|i: usize| i < cats.len() ==> #[trigger] order.contains(i)
    &&& forall|a: int, b: int|
        0 <= a < b < order.len() ==> category_before(cats, #[trigger] order[a], #[trigger] order[b])
}

/// The order in which the categories are shown.
pub open spec fn category_order(cats: Seq<ChannelCategory>) -> Seq<usize> {
    choose|order: Seq<usize>| is_category_order(cats, order)
}

/// Only one order satisfies `is_category_order`.
proof fn lemma_category_order_unique(cats: Seq<ChannelCategory>, p: Seq<usize>, q: Seq<usize>)
    requires
        is_category_order(cats, p),
        is_category_order(cats, q),
    ensures
        p == q,
{
    assert forall|t: int| 0 <= t < p.len() implies p[t] == q[t] by {
        lemma_category_order_position(cats, p, q, t);
    }
    assert(p =~= q);
}

proof fn lemma_category_order_position(cats: Seq<ChannelCategory>, p: Seq<usize>, q: Seq<usize>, t: int)
    requires
        is_category_order(cats, p),
        is_category_order(cats, q),
        0 <= t < p.len(),
    ensures
        p[t] == q[t],
    decreases t,
{
    assert forall|s: int| 0 <= s < t implies p[s] == q[s] by {
        lemma_category_order_position(cats, p, q, s);
    }
    if p[t] != q[t] {
        // p[t] occurs in q at some u > t, and q[t] occurs in p at some
        // w > t (below t the two agree, and neither repeats). Then q[t]
        // comes before p[t] and p[t] before q[t]: a contradiction.
        assert(q.contains(p[t])) by {
            assert(p[t] < cats.len());
        }
        let u = choose|u: int| 0 <= u < q.len() && q[u] == p[t];
        assert(p.contains(q[t])) by {
            assert(q[t] < cats.len());
        }
        let w = choose|w: int| 0 <= w < p.len() && p[w] == q[t];
        if u < t {
            assert(q[u] == p[u]);
            assert(category_before(cats, p[u], p[t]));
        }
        if w < t {
            assert(p[w] == q[w]);
            assert(category_before(cats, q[w], q[t]));
        }
        assert(u > t);
        assert(w > t);
        assert(category_before(cats, q[t], q[u]));
        assert(category_before(cats, p[t], p[w]));
    }
}

/// The positions of the categories, in the order they are shown.
pub fn category_order_of(cats: &Vec<ChannelCategory>) -> (r: Vec<usize>)
    ensures
        r@ == category_order(cats@),
        is_category_order(cats@, r@),
        r@.len() == cats@.len(),
        forall|i: usize| i < cats@.len() ==> #[trigger] r@.contains(i),
        forall|a: int, b: int| 0 <= a < b < r@.len() ==> {
            let x = cats@[#[trigger] r@[a] as int].sort_order;
            let y = cats@[#[trigger] r@[b] as int].sort_order;
            x < y || (x == y && r@[a] < r@[b])
        },
{
    let n = cats.len();
    let mut r: Vec<usize> = Vec::new();
    let mut i: usize = 0;
    while i < n
        invariant
            n == cats@.len(),
            i <= n,
            r@.len() == i,
            forall|k: int| 0 <= k < r@.len() ==> #[trigger] r@[k] < i,
            forall|j: usize| j < i ==> #[trigger] r@.contains(j),
            forall|a: int, b: int|
                0 <= a < b < r@.len() ==> category_before(cats@, #[trigger] r@[a], #[trigger] r@[b]),
        decreases n - i,
    {
        let key = cats[i].sort_order;
        let mut pos: usize = 0;
        while pos < r.len() && cats[r[pos]].sort_order <= key
            invariant
                n == cats@.len(),
                i < n,
                pos <= r@.len(),
                forall|k: int| 0 <= k < r@.len() ==> #[trigger] r@[k] < i,
                forall|k: int| 0 <= k < pos ==> cats@[#[trigger] r@[k] as int].sort_order <= key,
                key == cats@[i as int].sort_order,
            decreases r@.len() - pos,
        {
            pos = pos + 1;
        }
        let ghost old_r = r@;
        proof {
            // Everything from `pos` on has a larger sort order than `key`.
            assert forall|k: int| pos <= k < old_r.len() implies cats@[#[trigger] old_r[k] as int].sort_order > key by {
                if k > pos {
                    assert(category_before(cats@, old_r[pos as int], old_r[k]));
                }
            }
        }
        r.insert(pos, i);
        proof {
            let nr = r@;
            assert(nr == old_r.insert(pos as int, i));
            assert forall|a: int, b: int| 0 <= a < b < nr.len() implies category_before(cats@, #[trigger] nr[a], #[trigger] nr[b]) by {
                if b < pos {
                    assert(nr[a] == old_r[a] && nr[b] == old_r[b]);
                } else if b == pos {
                    assert(nr[a] == old_r[a]);
                    assert(nr[b] == i);
                } else if a < pos {
                    assert(nr[a] == old_r[a] && nr[b] == old_r[b - 1]);
                } else if a == pos {
                    assert(nr[a] == i && nr[b] == old_r[b - 1]);
                } else {
                    assert(nr[a] == old_r[a - 1] && nr[b] == old_r[b - 1]);
                }
            }
            assert forall|j: usize| j < i + 1 implies #[trigger] nr.contains(j) by {
                if j == i {
                    assert(nr[pos as int] == i);
                } else {
                    assert(old_r.contains(j));
                    let k = choose|k: int| 0 <= k < old_r.len() && old_r[k] == j;
                    if k < pos {
                        assert(nr[k] == old_r[k]);
                    } else {
                        assert(nr[k + 1] == old_r[k]);
                    }
                }
            }
            assert forall|k: int| 0 <= k < nr.len() implies #[trigger] nr[k] < i + 1 by {
                if k < pos {
                    assert(nr[k] == old_r[k]);
                } else if k > pos {
                    assert(nr[k] == old_r[k - 1]);
                }
            }
        }
        i = i + 1;
    }
    proof {
        assert(is_category_order(cats@, r@));
        lemma_category_order_unique(cats@, r@, category_order(cats@));
    }
    r
}

/// The positions below `n` that satisfy `pred`, in increasing order.
pub open spec fn positions_where(n: nat, pred: spec_fn(usize) -> bool) -> Seq<usize>
    decreases n,
{
    if n == 0 {
        seq![]
    } else {
        let prev = positions_where((n - 1) as nat, pred);
        if pred((n - 1) as usize) {
            prev.push((n - 1) as usize)
        } else {
            prev
        }
    }
}

/// The positions `positions_where` gives are below `n`, satisfy `pred`,
/// and increase; and each position below `n` that satisfies `pred` is one
/// of them.
pub proof fn lemma_positions_where(n: nat, pred: spec_fn(usize) -> bool)
    requires
        n <= usize::MAX + 1,
    ensures
        forall|k: int| 0 <= k < positions_where(n, pred).len() ==> #[trigger] positions_where(n, pred)[k] < n
            && pred(positions_where(n, pred)[k]),
        forall|a: int, b: int| 0 <= a < b < positions_where(n, pred).len() ==> #[trigger] positions_where(n, pred)[a]
            < #[trigger] positions_where(n, pred)[b],
        forall|i: usize| i < n && pred(i) ==> #[trigger] positions_where(n, pred).contains(i),
    decreases n,
{
    if n > 0 {
        lemma_positions_where((n - 1) as nat, pred);
        let prev = positions_where((n - 1) as nat, pred);
        let cur = positions_where(n, pred);
        assert forall|i: usize| i < n && pred(i) implies #[trigger] cur.contains(i) by {
            if i < n - 1 {
                assert(prev.contains(i));
                let k = choose|k: int| 0 <= k < prev.len() && prev[k] == i;
                assert(cur[k] == i);
            } else {
                assert(cur[cur.len() - 1] == i);
            }
        }
    }
}

/// What the channel list holds.
pub struct ChannelListModel {
    pub channels: Seq<client::channel::Channel>,
    pub categories: Seq<ChannelCategory>,
    pub channel_types: Seq<ChannelType>,
    pub search_query: Seq<char>,
    pub selected_index: Option<ListIndex>,
    pub loading: bool,
    pub error: Option<Seq<char>>,
}

/// Whether a channel is shown: its kind is one of the list's kinds, and its
/// display name contains the search text, both taken in lowercase.
pub open spec fn channel_shown(m: ChannelListModel, c: client::channel::Channel) -> bool {
    &&& m.channel_types.contains(c.channel_type)
    &&& has_substring(lowercase(c.display_name@), lowercase(m.search_query))
}

/// Whether a category lists the channel with id `id`.
pub open spec fn category_lists(cat: ChannelCategory, id: Seq<char>) -> bool {
    exists|k: int| 0 <= k < cat.channel_ids@.len() && #[trigger] cat.channel_ids@[k]@ == id
}

/// The positions of the shown channels.
pub open spec fn shown_positions(m: ChannelListModel) -> Seq<usize> {
    positions_where(m.channels.len(), |i: usize| channel_shown(m, m.channels[i as int]))
}

/// The positions of the shown channels that the category at position `c`
/// lists, in the channels' order.
pub open spec fn category_members(m: ChannelListModel, c: usize) -> Seq<usize> {
    positions_where(
        m.channels.len(),
        |i: usize| channel_shown(m, m.channels[i as int]) && category_lists(m.categories[c as int], m.channels[i as int].id@),
    )
}

/// The positions of the channels shown in section `s`.
pub open spec fn section_members(m: ChannelListModel, s: int) -> Seq<usize> {
    category_members(m, category_order(m.categories)[s])
}

/// The number of rows of section `s`.
pub open spec fn section_len(m: ChannelListModel, s: int) -> nat {
    if 0 <= s < m.categories.len() {
        section_members(m, s).len()
    } else {
        0
    }
}

/// The channel shown at `ix`, if any.
pub open spec fn channel_at_spec(m: ChannelListModel, ix: ListIndex) -> Option<client::channel::Channel> {
    if ix.section < m.categories.len() && ix.row < section_members(m, ix.section as int).len() {
        Some(m.channels[section_members(m, ix.section as int)[ix.row as int] as int])
    } else {
        None
    }
}

/// Every channel a section shows is shown by the list (its kind is listed
/// and its name matches the search) and listed by the section's category;
/// and the channels of a section keep the order of the loaded channels.
pub proof fn law_section_rows(m: ChannelListModel, ix: ListIndex, later: ListIndex)
    requires
        m.channels.len() <= usize::MAX,
        channel_at_spec(m, ix) is Some,
        later.section == ix.section,
        ix.row < later.row,
        channel_at_spec(m, later) is Some,
    ensures
        channel_shown(m, channel_at_spec(m, ix).unwrap()),
        category_lists(
            m.categories[category_order(m.categories)[ix.section as int] as int],
            channel_at_spec(m, ix).unwrap().id@,
        ),
        section_members(m, ix.section as int)[ix.row as int] < section_members(m, later.section as int)[later.row as int],
{
    let c = category_order(m.categories)[ix.section as int];
    lemma_positions_where(
        m.channels.len(),
        |i: usize| channel_shown(m, m.channels[i as int]) && category_lists(m.categories[c as int], m.channels[i as int].id@),
    );
}

/// The list shows the channel at position `i` exactly when its kind is one
/// of the list's kinds and the lowercase of its display name holds the
/// lowercase of the search text somewhere.
pub proof fn law_shown_by_kind_and_display_name(m: ChannelListModel, i: int)
    requires
        m.channels.len() <= usize::MAX,
        0 <= i < m.channels.len(),
    ensures
        shown_positions(m).contains(i as usize) <==> {
            let name = lowercase(m.channels[i].display_name@);
            let query = lowercase(m.search_query);
            &&& m.channel_types.contains(m.channels[i].channel_type)
            &&& exists|j: int| 0 <= j && j + query.len() <= name.len() && #[trigger] name.subrange(j, j + query.len()) == query
        },
{
    let pred = |k: usize| channel_shown(m, m.channels[k as int]);
    lemma_positions_where(m.channels.len(), pred);
    let ps = shown_positions(m);
    let name = lowercase(m.channels[i].display_name@);
    let query = lowercase(m.search_query);
    assert(has_substring(name, query) <==> exists|j: int|
        0 <= j && j + query.len() <= name.len() && #[trigger] name.subrange(j, j + query.len()) == query) by {
        if has_substring(name, query) {
            let j = choose|j: int| occurs_at(name, query, j);
            assert(name.subrange(j, j + query.len()) == query);
        }
        if exists|j: int| 0 <= j && j + query.len() <= name.len() && #[trigger] name.subrange(j, j + query.len()) == query {
            let j = choose|j: int| 0 <= j && j + query.len() <= name.len() && #[trigger] name.subrange(j, j + query.len()) == query;
            assert(occurs_at(name, query, j));
        }
    }
    assert(pred(i as usize) == channel_shown(m, m.channels[i]));
    if ps.contains(i as usize) {
        let k = choose|k: int| 0 <= k < ps.len() && ps[k] == i as usize;
        assert(pred(ps[k]));
    }
}

/// Section `s` holds exactly the channels that the list shows and that the
/// category of the section lists by id: whatever their kind, none is left
/// out and no other is added.
pub proof fn law_section_holds_every_listed_channel(m: ChannelListModel, s: int, i: int)
    requires
        m.channels.len() <= usize::MAX,
        0 <= s < m.categories.len(),
        0 <= i < m.channels.len(),
    ensures
        section_members(m, s).contains(i as usize) <==> {
            &&& shown_positions(m).contains(i as usize)
            &&& exists|k: int|
                0 <= k < m.categories[category_order(m.categories)[s] as int].channel_ids@.len()
                    && #[trigger] m.categories[category_order(m.categories)[s] as int].channel_ids@[k]@ == m.channels[i].id@
        },
{
    let shown = |k: usize| channel_shown(m, m.channels[k as int]);
    lemma_positions_where(m.channels.len(), shown);
    let ps = shown_positions(m);
    let c = category_order(m.categories)[s];
    let listed = |j: usize| channel_shown(m, m.channels[j as int]) && category_lists(m.categories[c as int], m.channels[j as int].id@);
    lemma_positions_where(m.channels.len(), listed);
    let sm = section_members(m, s);
    assert(shown(i as usize) == channel_shown(m, m.channels[i]));
    assert(listed(i as usize) == (channel_shown(m, m.channels[i]) && category_lists(m.categories[c as int], m.channels[i].id@)));
    if ps.contains(i as usize) {
        let k = choose|k: int| 0 <= k < ps.len() && ps[k] == i as usize;
        assert(shown(ps[k]));
    }
    if sm.contains(i as usize) {
        let k = choose|k: int| 0 <= k < sm.len() && sm[k] == i as usize;
        assert(listed(sm[k]));
    }
}

/// A section shows a channel at exactly the rows below its row count.
pub proof fn law_rows_counted(m: ChannelListModel, ix: ListIndex)
    ensures
        channel_at_spec(m, ix) is Some <==> ix.row < section_len(m, ix.section as int),
{
}

/// The state of the channel list: the loaded channels and categories, the
/// kinds of channels it shows, the search text and the selection.
pub struct ChannelListDelegate {
    channels: Vec<client::channel::Channel>,
    channel_categories: Vec<ChannelCategory>,
    channel_types: Vec<ChannelType>,
    search_query: String,
    selected_index: Option<ListIndex>,
    loading: bool,
    error: Option<String>,
}

impl View for ChannelListDelegate {
    type V = ChannelListModel;

    closed spec fn view(&self) -> ChannelListModel {
        ChannelListModel {
            channels: self.channels@,
            categories: self.channel_categories@,
            channel_types: self.channel_types@,
            search_query: self.search_query@,
            selected_index: self.selected_index,
            loading: self.loading,
            error: match self.error {
                Some(e) => Some(e@),
                None => None,
            },
        }
    }
}

impl ChannelListDelegate {
    /// An empty list, loading, that shows channels of the given kinds.
    pub fn new(channel_types: Vec<ChannelType>) -> (r: Self)
        ensures
            r@.channels == Seq::<client::channel::Channel>::empty(),
            r@.categories == Seq::<ChannelCategory>::empty(),
            r@.channel_types == channel_types@,
            r@.search_query == Seq::<char>::empty(),
            r@.selected_index is None,
            r@.loading,
            r@.error is None,
    {
        ChannelListDelegate {
            channels: Vec::new(),
            channel_categories: Vec::new(),
            channel_types,
            search_query: String::new(),
            selected_index: None,
            loading: true,
            error: None,
        }
    }

    /// Takes the loaded channels: loading is over and no error is shown.
    pub fn set_channels(&mut self, channels: Vec<client::channel::Channel>)
        ensures
            final(self)@ == (ChannelListModel { channels: channels@, loading: false, error: None, ..old(self)@ }),
    {
        self.channels = channels;
        self.loading = false;
        self.error = None;
    }

    /// Takes the loaded categories.
    pub fn set_channel_categories(&mut self, categories: Vec<ChannelCategory>)
        ensures
            final(self)@ == (ChannelListModel { categories: categories@, ..old(self)@ }),
    {
        self.channel_categories = categories;
    }

    /// Shows an error: loading is over.
    pub fn set_error(&mut self, error: String)
        ensures
            final(self)@ == (ChannelListModel { error: Some(error@), loading: false, ..old(self)@ }),
    {
        self.error = Some(error);
        self.loading = false;
    }

    /// Takes what loading the channels and their categories gave: the
    /// channels, with the categories where those loaded and none where they
    /// failed; or, where the channels failed, the error
    /// `"Failed to load channels: "` followed by the text of the failure.
    pub fn finish_loading<E>(
        &mut self,
        channels: Result<Vec<client::channel::Channel>, String>,
        categories: Result<Vec<ChannelCategory>, E>,
    )
        ensures
            match channels {
                Ok(cs) => final(self)@ == (ChannelListModel {
                    channels: cs@,
                    categories: match categories {
                        Ok(cats) => cats@,
                        Err(_) => Seq::<ChannelCategory>::empty(),
                    },
                    loading: false,
                    error: None,
                    ..old(self)@
                }),
                Err(e) => final(self)@ == (ChannelListModel {
                    error: Some("Failed to load channels: "@ + e@),
                    loading: false,
                    ..old(self)@
                }),
            },
    {
        match channels {
            Ok(cs) => {
                self.set_channels(cs);
                let cats = match categories {
                    Ok(cats) => cats,
                    Err(_) => Vec::new(),
                };
                self.set_channel_categories(cats);
            },
            Err(e) => {
                let mut text = "Failed to load channels: ".to_owned();
                text.append(e.as_str());
                self.set_error(text);
            },
        }
    }

    /// Whether the channels are still loading.
    pub fn loading(&self) -> (r: bool)
        ensures
            r == self@.loading,
    {
        self.loading
    }

    /// Takes a new search text.
    pub fn perform_search(&mut self, query: &str)
        ensures
            final(self)@ == (ChannelListModel { search_query: query@, ..old(self)@ }),
    {
        self.search_query = query.to_owned();
    }

    /// Takes a new selection.
    pub fn set_selected_index(&mut self, ix: Option<ListIndex>)
        ensures
            final(self)@ == (ChannelListModel { selected_index: ix, ..old(self)@ }),
    {
        self.selected_index = ix;
    }

    /// The text shown where no channel is: the error, or that there are none.
    pub fn empty_message(&self) -> (r: String)
        ensures
            r@ == match self@.error {
                Some(e) => "Failed to load channels: "@ + e,
                None => "No channels"@,
            },
    {
        match &self.error {
            Some(e) => {
                let mut s = "Failed to load channels: ".to_owned();
                vstd::string::StringExecFns::append(&mut s, e.as_str());
                s
            },
            None => "No channels".to_owned(),
        }
    }

    fn type_listed(&self, t: ChannelType) -> (r: bool)
        ensures
            r == self@.channel_types.contains(t),
    {
        let mut k: usize = 0;
        while k < self.channel_types.len()
            invariant
                k <= self.channel_types@.len(),
                forall|q: int| 0 <= q < k ==> self.channel_types@[q] != t,
            decreases self.channel_types@.len() - k,
        {
            if self.channel_types[k] == t {
                assert(self.channel_types@[k as int] == t);
                return true;
            }
            k = k + 1;
        }
        false
    }

    fn shown(&self, c: &client::channel::Channel, query: &String) -> (r: bool)
        requires
            query@ == lowercase(self@.search_query),
        ensures
            r == channel_shown(self@, *c),
    {
        if !self.type_listed(c.channel_type) {
            return false;
        }
        let name = to_lowercase(c.display_name.as_str());
        contains(name.as_str(), query.as_str())
    }

    /// The positions of the shown channels, in their order. With no search
    /// text, those are all the channels of the listed kinds.
    pub fn visible(&self) -> (r: Vec<usize>)
        ensures
            r@ == shown_positions(self@),
            self@.search_query.len() == 0 ==> r@ == positions_where(
                self@.channels.len(),
                |i: usize| self@.channel_types.contains(self@.channels[i as int].channel_type),
            ),
    {
        let query = to_lowercase(self.search_query.as_str());
        let ghost pred = |i: usize| channel_shown(self@, self@.channels[i as int]);
        let mut r: Vec<usize> = Vec::new();
        let mut i: usize = 0;
        while i < self.channels.len()
            invariant
                i <= self@.channels.len(),
                query@ == lowercase(self@.search_query),
                pred == (|i: usize| channel_shown(self@, self@.channels[i as int])),
                r@ == positions_where(i as nat, pred),
            decreases self@.channels.len() - i,
        {
            if self.shown(&self.channels[i], &query) {
                r.push(i);
            }
            i = i + 1;
        }
        proof {
            if self@.search_query.len() == 0 {
                let listed = |i: usize| self@.channel_types.contains(self@.channels[i as int].channel_type);
                assert forall|i: usize| #[trigger] pred(i) == listed(i) by {
                    let name = lowercase(self@.channels[i as int].display_name@);
                    assert(name.subrange(0, 0) =~= query@);
                    assert(occurs_at(name, query@, 0));
                }
                assert(pred =~= listed);
            }
        }
        r
    }

    fn members_of(&self, c: usize, query: &String) -> (r: Vec<usize>)
        requires
            c < self@.categories.len(),
            query@ == lowercase(self@.search_query),
        ensures
            r@ == category_members(self@, c),
    {
        let cat = &self.channel_categories[c];
        let ghost pred = |i: usize|
            channel_shown(self@, self@.channels[i as int]) && category_lists(self@.categories[c as int], self@.channels[i as int].id@);
        let mut r: Vec<usize> = Vec::new();
        let mut i: usize = 0;
        while i < self.channels.len()
            invariant
                i <= self@.channels.len(),
                c < self@.categories.len(),
                *cat == self@.categories[c as int],
                query@ == lowercase(self@.search_query),
                pred == (|i: usize|
                    channel_shown(self@, self@.channels[i as int]) && category_lists(self@.categories[c as int], self@.channels[i as int].id@)),
                r@ == positions_where(i as nat, pred),
            decreases self@.channels.len() - i,
        {
            let ch = &self.channels[i];
            if self.shown(ch, query) && category_has(cat, &ch.id) {
                r.push(i);
            }
            i = i + 1;
        }
        r
    }

    /// The number of sections: one per category.
    pub fn sections_count(&self) -> (r: usize)
        ensures
            r == self@.categories.len(),
    {
        self.channel_categories.len()
    }

    /// The number of rows of a section.
    pub fn items_count(&self, section: usize) -> (r: usize)
        ensures
            r == section_len(self@, section as int),
    {
        if section >= self.channel_categories.len() {
            return 0;
        }
        let order = category_order_of(&self.channel_categories);
        let query = to_lowercase(self.search_query.as_str());
        let members = self.members_of(order[section], &query);
        members.len()
    }

    /// The header of a section: the id of its category and its display name
    /// in uppercase.
    pub fn section_header(&self, section: usize) -> (r: Option<(String, String)>)
        ensures
            section < self@.categories.len() ==> (r matches Some(h) && {
                let cat = self@.categories[category_order(self@.categories)[section as int] as int];
                h.0@ == cat.id@ && h.1@ == uppercase(cat.display_name@)
            }),
            section >= self@.categories.len() ==> r is None,
    {
        if section >= self.channel_categories.len() {
            return None;
        }
        let order = category_order_of(&self.channel_categories);
        let cat = &self.channel_categories[order[section]];
        Some((cat.id.clone(), to_uppercase(cat.display_name.as_str())))
    }

    /// The channel shown at `ix`, if any.
    pub fn channel_at(&self, ix: ListIndex) -> (r: Option<&client::channel::Channel>)
        ensures
            match channel_at_spec(self@, ix) {
                Some(c) => r matches Some(x) && *x == c,
                None => r is None,
            },
    {
        if ix.section >= self.channel_categories.len() {
            return None;
        }
        let order = category_order_of(&self.channel_categories);
        let query = to_lowercase(self.search_query.as_str());
        let members = self.members_of(order[ix.section], &query);
        if ix.row >= members.len() {
            return None;
        }
        proof {
            assert(self@.channels.len() == self.channels.len());
            lemma_positions_where(
                self@.channels.len(),
                |i: usize|
                    channel_shown(self@, self@.channels[i as int]) && category_lists(
                        self@.categories[order@[ix.section as int] as int],
                        self@.channels[i as int].id@,
                    ),
            );
        }
        Some(&self.channels[members[ix.row]])
    }

    /// The entry shown at `ix`, if any: the channel's id, display name and
    /// kind, selected where `ix` is the selection.
    pub fn item_at(&self, ix: ListIndex) -> (r: Option<Channel>)
        ensures
            match channel_at_spec(self@, ix) {
                Some(c) => r matches Some(x) && x.id@ == c.id@ && x.name@ == c.display_name@ && x.selected == (
                self@.selected_index == Some(ix)) && x.channel_type == c.channel_type,
                None => r is None,
            },
    {
        match self.channel_at(ix) {
            Some(item) => {
                let selected = match self.selected_index {
                    Some(s) => s == ix,
                    None => false,
                };
                Some(
                    Channel::new(item.id.as_str()).name(item.display_name.as_str()).selected(selected).channel_type(
                        item.channel_type,
                    ),
                )
            },
            None => None,
        }
    }
}

fn category_has(cat: &ChannelCategory, id: &String) -> (r: bool)
    ensures
        r == category_lists(*cat, id@),
{
    let mut k: usize = 0;
    while k < cat.channel_ids.len()
        invariant
            k <= cat.channel_ids@.len(),
            forall|q: int| 0 <= q < k ==> cat.channel_ids@[q]@ != id@,
        decreases cat.channel_ids@.len() - k,
    {
        if cat.channel_ids[k] == *id {
            return true;
        }
        k = k + 1;
    }
    false
}

} // verus!

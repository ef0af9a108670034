//! The state behind the application's lists and forms: which channels and
//! posts are shown, in which order, and the decisions its views take.

pub mod channel;
pub mod login;
pub mod post;

use vstd::prelude::*;

use crate::client::channel::ChannelType;

verus! {

/// A position in a sectioned list: a section and a row within it.
#[derive(Clone, Copy, Debug, PartialEq, Eq, Structural)]
pub struct ListIndex {
    pub section: usize,
    pub row: usize,
}

/// The kinds of channels the sidebar lists: open, private, direct and
/// group channels, in that order.
pub fn sidebar_channel_types() -> (r: Vec<ChannelType>)
    ensures
        r@ == seq![ChannelType::Open, ChannelType::Private, ChannelType::Direct, ChannelType::Group],
{
    let mut v: Vec<ChannelType> = Vec::new();
    v.push(ChannelType::Open);
    v.push(ChannelType::Private);
    v.push(ChannelType::Direct);
    v.push(ChannelType::Group);
    assert(v@ =~= seq![ChannelType::Open, ChannelType::Private, ChannelType::Direct, ChannelType::Group]);
    v
}

/// The main layout: which channel's posts are shown.
pub struct Layout {
    channel_selected: Option<String>,
}

impl Layout {
    /// The channel whose posts are shown, if any.
    pub closed spec fn selected(&self) -> Option<Seq<char>> {
        match self.channel_selected {
            Some(c) => Some(c@),
            None => None,
        }
    }

    /// A layout that shows no channel.
    pub fn new() -> (r: Self)
        ensures
            r.selected() is None,
    {
        Layout { channel_selected: None }
    }

    /// Selects a channel. Selecting the channel already shown changes nothing
    /// and returns `false`; otherwise the channel is shown and `true` says a
    /// new post list is to be opened for it.
    pub fn select_channel(&mut self, channel_id: String) -> (r: bool)
        ensures
            old(self).selected() == Some(channel_id@) ==> !r && final(self).selected() == old(self).selected(),
            old(self).selected() != Some(channel_id@) ==> r && final(self).selected() == Some(channel_id@),
    {
        let same = match &self.channel_selected {
            Some(c) => *c == channel_id,
            None => false,
        };
        if same {
            return false;
        }
        self.channel_selected = Some(channel_id);
        true
    }

    /// The id of the channel whose posts are shown, if any.
    pub fn channel_selected(&self) -> (r: Option<&String>)
        ensures
            match self.selected() {
                Some(c) => r matches Some(x) && x@ == c,
                None => r is None,
            },
    {
        self.channel_selected.as_ref()
    }
}

} // verus!

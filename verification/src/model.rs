//! The records of the live TV store: playlist sources and their channels.

use vstd::prelude::*;

verus! {

/// A playlist that the user added: a URL or a local file.
#[derive(Debug, Clone)]
pub struct ChannelSource {
    pub id: String,
    pub name: String,
    pub location: String,
    /// Seconds since the Unix epoch of the last successful load.
    pub updated_at: Option<i64>,
}

/// One channel of a playlist.
#[derive(Debug, Clone)]
pub struct LiveChannel {
    pub source_id: String,
    pub name: String,
    pub url: String,
    pub group: String,
    pub logo: String,
    pub tvg_id: String,
    pub number: String,
}

/// Every source and every channel of the store.
#[derive(Debug, Clone)]
pub struct ChannelData {
    pub sources: Vec<ChannelSource>,
    pub channels: Vec<LiveChannel>,
}

pub ghost struct SourceView {
    pub id: Seq<char>,
    pub name: Seq<char>,
    pub location: Seq<char>,
    pub updated_at: Option<i64>,
}

pub ghost struct ChannelView {
    pub source_id: Seq<char>,
    pub name: Seq<char>,
    pub url: Seq<char>,
    pub group: Seq<char>,
    pub logo: Seq<char>,
    pub tvg_id: Seq<char>,
    pub number: Seq<char>,
}

pub ghost struct DataView {
    pub sources: Seq<SourceView>,
    pub channels: Seq<ChannelView>,
}

impl View for ChannelSource {
    type V = SourceView;

    open spec fn view(&self) -> SourceView {
        SourceView {
            id: self.id@,
            name: self.name@,
            location: self.location@,
            updated_at: self.updated_at,
        }
    }
}

impl View for LiveChannel {
    type V = ChannelView;

    open spec fn view(&self) -> ChannelView {
        ChannelView {
            source_id: self.source_id@,
            name: self.name@,
            url: self.url@,
            group: self.group@,
            logo: self.logo@,
            tvg_id: self.tvg_id@,
            number: self.number@,
        }
    }
}

pub open spec fn sources_view(v: Seq<ChannelSource>) -> Seq<SourceView> {
    v.map_values(|s: ChannelSource| s@)
}

pub open spec fn channels_view(v: Seq<LiveChannel>) -> Seq<ChannelView> {
    v.map_values(|c: LiveChannel| c@)
}

impl View for ChannelData {
    type V = DataView;

    open spec fn view(&self) -> DataView {
        DataView { sources: sources_view(self.sources@), channels: channels_view(self.channels@) }
    }
}

/// The group of a channel that names none.
pub open spec fn uncategorized_text() -> Seq<char> {
    "Uncategorized"@
}

/// The group given to a channel that names none.
pub fn uncategorized() -> (r: String)
    ensures
        r@ == uncategorized_text(),
{
    String::from_str("Uncategorized")
}

impl ChannelSource {
    /// A copy of the source.
    pub fn duplicate(&self) -> (r: ChannelSource)
        ensures
            r@ == self@,
    {
        ChannelSource {
            id: self.id.clone(),
            name: self.name.clone(),
            location: self.location.clone(),
            updated_at: self.updated_at,
        }
    }
}

impl LiveChannel {
    /// A copy of the channel.
    pub fn duplicate(&self) -> (r: LiveChannel)
        ensures
            r@ == self@,
    {
        LiveChannel {
            source_id: self.source_id.clone(),
            name: self.name.clone(),
            url: self.url.clone(),
            group: self.group.clone(),
            logo: self.logo.clone(),
            tvg_id: self.tvg_id.clone(),
            number: self.number.clone(),
        }
    }
}

impl Default for ChannelData {
    fn default() -> (r: ChannelData)
        ensures
            r@.sources.len() == 0,
            r@.channels.len() == 0,
    {
        ChannelData { sources: Vec::new(), channels: Vec::new() }
    }
}

} // verus!

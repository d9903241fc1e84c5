//! The bookkeeping of the live TV store: adding, refreshing and removing
//! playlist sources together with their channels.

use crate::model::{
    channels_view, sources_view, ChannelData, ChannelSource, ChannelView, DataView, LiveChannel,
    SourceView,
};
use crate::playlist::{remote_url, remote_url_of};
use crate::text::{chars_of, str_eq, string_of, trim, trimmed};
use vstd::prelude::*;

verus! {

/// The sources of `s` whose id is not `id`, in order.
pub open spec fn sources_without(s: Seq<SourceView>, id: Seq<char>) -> Seq<SourceView>
    decreases s.len(),
{
    if s.len() == 0 {
        seq![]
    } else {
        let rest = sources_without(s.drop_last(), id);
        if s.last().id == id {
            rest
        } else {
            rest.push(s.last())
        }
    }
}

/// The channels of `c` that do not belong to the source `id`, in order.
pub open spec fn channels_without(c: Seq<ChannelView>, id: Seq<char>) -> Seq<ChannelView>
    decreases c.len(),
{
    if c.len() == 0 {
        seq![]
    } else {
        let rest = channels_without(c.drop_last(), id);
        if c.last().source_id == id {
            rest
        } else {
            rest.push(c.last())
        }
    }
}

/// Some source of `s` has the location `location`.
pub open spec fn has_location(s: Seq<SourceView>, location: Seq<char>) -> bool {
    exists|i: int| 0 <= i < s.len() && #[trigger] s[i].location == location
}

/// Index of the first source of `s` at or after `i` whose id is `id`.
pub open spec fn source_index_from(s: Seq<SourceView>, id: Seq<char>, i: int) -> Option<int>
    decreases s.len() - i,
{
    if i < 0 || i >= s.len() {
        None
    } else if s[i].id == id {
        Some(i)
    } else {
        source_index_from(s, id, i + 1)
    }
}

/// Index of the first source of `s` whose id is `id`.
pub open spec fn source_index(s: Seq<SourceView>, id: Seq<char>) -> Option<int> {
    source_index_from(s, id, 0)
}

/// The store without the source `id` and without its channels.
pub open spec fn removed(d: DataView, id: Seq<char>) -> DataView {
    DataView { sources: sources_without(d.sources, id), channels: channels_without(d.channels, id) }
}

/// The store with `source` appended, and its channels after the others.
pub open spec fn added(d: DataView, source: SourceView, channels: Seq<ChannelView>) -> DataView {
    DataView { sources: d.sources.push(source), channels: d.channels + channels }
}

/// The store after the source `id` was loaded again at time `now` and gave
/// `channels`: the first source with that id is stamped with `now`, its old
/// channels leave and the new ones follow the others. A store without such a
/// source is unchanged.
pub open spec fn refreshed(d: DataView, id: Seq<char>, now: i64, channels: Seq<ChannelView>) -> DataView {
    match source_index(d.sources, id) {
        Some(i) => DataView {
            sources: d.sources.update(
                i,
                SourceView {
                    id: d.sources[i].id,
                    name: d.sources[i].name,
                    location: d.sources[i].location,
                    updated_at: Some(now),
                },
            ),
            channels: channels_without(d.channels, id) + channels,
        },
        None => d,
    }
}

/// The name under which a source is listed: the trimmed name the user gave,
/// or "Live playlist" where that is empty.
pub open spec fn display_name(name: Seq<char>) -> Seq<char> {
    if trim(name).len() == 0 {
        "Live playlist"@
    } else {
        trim(name)
    }
}

pub open spec fn already_added() -> Seq<char> {
    "This playlist is already added."@
}

pub open spec fn removed_meanwhile() -> Seq<char> {
    "This playlist was removed."@
}

/// The message for a source `name` that could not be loaded because of `error`.
pub open spec fn load_failure(name: Seq<char>, error: Seq<char>) -> Seq<char> {
    "Could not load "@ + name + ": "@ + error
}

/// The message for a playlist whose location is in the store already.
pub fn already_added_message() -> (r: String)
    ensures
        r@ == already_added(),
{
    String::from_str("This playlist is already added.")
}

/// A playlist location as the user typed it, without surrounding white space.
pub fn normalize_location(location: &str) -> (r: String)
    ensures
        r@ == trim(location@),
{
    let c = chars_of(location);
    let t = trimmed(c.as_slice());
    string_of(t.as_slice())
}

/// A new source, not loaded yet, with the given id.
pub fn new_source(id: String, name: &str, location: &str) -> (r: ChannelSource)
    ensures
        r@ == (SourceView { id: id@, name: display_name(name@), location: trim(location@), updated_at: None }),
{
    let n = chars_of(name);
    let t = trimmed(n.as_slice());
    let shown = if t.len() == 0 {
        String::from_str("Live playlist")
    } else {
        string_of(t.as_slice())
    };
    ChannelSource { id, name: shown, location: normalize_location(location), updated_at: None }
}

/// The message reported when the source `name` could not be loaded.
pub fn load_error(name: &str, error: &str) -> (r: String)
    ensures
        r@ == load_failure(name@, error@),
{
    let mut m = String::from_str("Could not load ");
    m.append(name);
    m.append(": ");
    m.append(error);
    m
}

impl ChannelData {
    /// Whether some source has the location `location`.
    pub fn has_location(&self, location: &str) -> (r: bool)
        ensures
            r == has_location(self@.sources, location@),
    {
        let mut i: usize = 0;
        while i < self.sources.len()
            invariant
                i <= self.sources@.len(),
                forall|j: int| 0 <= j < i ==> self.sources@[j].location@ != location@,
            decreases self.sources@.len() - i,
        {
            if str_eq(self.sources[i].location.as_str(), location) {
                assert(self@.sources[i as int].location == location@);
                return true;
            }
            i = i + 1;
        }
        assert forall|j: int| 0 <= j < self@.sources.len() implies #[trigger] self@.sources[j].location
            != location@ by {
            assert(self@.sources[j] == self.sources@[j]@);
        }
        false
    }

    /// The first source with the id `id`.
    pub fn find_source(&self, id: &str) -> (r: Option<ChannelSource>)
        ensures
            match source_index(self@.sources, id@) {
                Some(i) => r matches Some(s) && s@ == self@.sources[i],
                None => r is None,
            },
    {
        let mut i: usize = 0;
        while i < self.sources.len()
            invariant
                i <= self.sources@.len(),
                source_index(self@.sources, id@) == source_index_from(self@.sources, id@, i as int),
            decreases self.sources@.len() - i,
        {
            if str_eq(self.sources[i].id.as_str(), id) {
                return Some(self.sources[i].duplicate());
            }
            i = i + 1;
        }
        None
    }

    /// The source to load again: the first with the id `id`, or the message
    /// that it was removed.
    pub fn source_to_refresh(&self, id: &str) -> (r: Result<ChannelSource, String>)
        ensures
            match source_index(self@.sources, id@) {
                Some(i) => r matches Ok(s) && s@ == self@.sources[i],
                None => r matches Err(e) && e@ == removed_meanwhile(),
            },
    {
        match self.find_source(id) {
            Some(s) => Ok(s),
            None => Err(String::from_str("This playlist was removed.")),
        }
    }

    /// Adds a loaded source and its channels, unless a source with the same
    /// location is there already; the store is then unchanged.
    pub fn add_source(&mut self, source: ChannelSource, channels: Vec<LiveChannel>) -> (r: Result<(), String>)
        ensures
            has_location(old(self)@.sources, source@.location) ==> (r matches Err(e) && e@
                == already_added() && final(self)@ == old(self)@),
            !has_location(old(self)@.sources, source@.location) ==> (r is Ok && final(self)@ == added(
                old(self)@,
                source@,
                channels_view(channels@),
            )),
    {
        if self.has_location(source.location.as_str()) {
            return Err(already_added_message());
        }
        let ghost old_d = self@;
        let ghost sv = source@;
        self.sources.push(source);
        let mut channels = channels;
        let ghost cv = channels_view(channels@);
        let ghost old_c = self.channels@;
        self.channels.append(&mut channels);
        assert(sources_view(self.sources@) =~= old_d.sources.push(sv));
        assert(channels_view(self.channels@) =~= old_d.channels + cv);
        Ok(())
    }

    /// Drops the source `id` and every channel that belongs to it.
    pub fn remove_source(&mut self, id: &str)
        ensures
            final(self)@ == removed(old(self)@, id@),
    {
        let ghost d = self@;
        let mut kept: Vec<ChannelSource> = Vec::new();
        let mut i: usize = 0;
        while i < self.sources.len()
            invariant
                i <= self.sources@.len(),
                d == self@,
                sources_view(kept@) == sources_without(d.sources.take(i as int), id@),
            decreases self.sources@.len() - i,
        {
            let ghost before = kept@;
            if !str_eq(self.sources[i].id.as_str(), id) {
                kept.push(self.sources[i].duplicate());
            }
            assert(d.sources.take(i + 1).drop_last() =~= d.sources.take(i as int));
            assert(sources_view(kept@) =~= sources_without(d.sources.take(i + 1), id@));
            i = i + 1;
        }
        assert(d.sources.take(i as int) =~= d.sources);
        let channels = self.channels_not_of(id);
        self.sources = kept;
        self.channels = channels;
    }

    fn channels_not_of(&self, id: &str) -> (r: Vec<LiveChannel>)
        ensures
            channels_view(r@) == channels_without(self@.channels, id@),
    {
        let ghost c = self@.channels;
        let mut kept: Vec<LiveChannel> = Vec::new();
        let mut i: usize = 0;
        while i < self.channels.len()
            invariant
                i <= self.channels@.len(),
                c == self@.channels,
                channels_view(kept@) == channels_without(c.take(i as int), id@),
            decreases self.channels@.len() - i,
        {
            if !str_eq(self.channels[i].source_id.as_str(), id) {
                kept.push(self.channels[i].duplicate());
            }
            assert(c.take(i + 1).drop_last() =~= c.take(i as int));
            assert(channels_view(kept@) =~= channels_without(c.take(i + 1), id@));
            i = i + 1;
        }
        assert(c.take(i as int) =~= c);
        kept
    }

    /// Stores the channels of the source `id` loaded again at time `now`: the
    /// first source with that id is stamped, its old channels leave and the
    /// new ones follow the others. Returns whether there was such a source;
    /// where there was none the store is unchanged.
    pub fn replace_channels(&mut self, id: &str, now: i64, channels: Vec<LiveChannel>) -> (r: bool)
        ensures
            r == (source_index(old(self)@.sources, id@) is Some),
            final(self)@ == refreshed(old(self)@, id@, now, channels_view(channels@)),
    {
        let ghost d = self@;
        match self.source_position(id) {
            Some(i) => {
                let mut kept = self.channels_not_of(id);
                let ghost kv = channels_view(kept@);
                let mut fresh = channels;
                let ghost fv = channels_view(fresh@);
                kept.append(&mut fresh);
                assert(channels_view(kept@) =~= kv + fv);
                let stamped = ChannelSource {
                    id: self.sources[i].id.clone(),
                    name: self.sources[i].name.clone(),
                    location: self.sources[i].location.clone(),
                    updated_at: Some(now),
                };
                self.sources.set(i, stamped);
                self.channels = kept;
                assert(sources_view(self.sources@) =~= d.sources.update(
                    i as int,
                    SourceView {
                        id: d.sources[i as int].id,
                        name: d.sources[i as int].name,
                        location: d.sources[i as int].location,
                        updated_at: Some(now),
                    },
                ));
                true
            },
            None => false,
        }
    }

    fn source_position(&self, id: &str) -> (r: Option<usize>)
        ensures
            match r {
                Some(i) => source_index(self@.sources, id@) == Some(i as int) && i < self.sources@.len(),
                None => source_index(self@.sources, id@) is None,
            },
    {
        let mut i: usize = 0;
        while i < self.sources.len()
            invariant
                i <= self.sources@.len(),
                source_index(self@.sources, id@) == source_index_from(self@.sources, id@, i as int),
            decreases self.sources@.len() - i,
        {
            if str_eq(self.sources[i].id.as_str(), id) {
                return Some(i);
            }
            i = i + 1;
        }
        None
    }
}


/// The lower-case hexadecimal digit for `d < 16`.
pub open spec fn hex_digit(d: nat) -> char {
    if d < 10 {
        ((48 + d) as u32) as char
    } else {
        ((87 + d) as u32) as char
    }
}

/// The lower-case hexadecimal numeral of `n`, as `{:x}` writes it.
pub open spec fn lower_hex(n: nat) -> Seq<char>
    decreases n,
{
    if n < 16 {
        seq![hex_digit(n)]
    } else {
        lower_hex(n / 16).push(hex_digit(n % 16))
    }
}

fn hex_chars(n: u64) -> (r: Vec<char>)
    ensures
        r@ == lower_hex(n as nat),
    decreases n,
{
    let d = n % 16;
    let c: u8 = if d < 10 {
        (48 + d) as u8
    } else {
        (87 + d) as u8
    };
    if n < 16 {
        let mut v: Vec<char> = Vec::new();
        v.push(c as char);
        v
    } else {
        let mut v = hex_chars(n / 16);
        v.push(c as char);
        v
    }
}

/// The id given to a source created at `nanos` nanoseconds since the epoch:
/// the number in lower-case hexadecimal (negative ones in two's complement,
/// as `{:x}` writes an `i64`).
pub fn id_from_nanos(nanos: i64) -> (r: String)
    ensures
        r@ == lower_hex((nanos as u64) as nat),
{
    let v = hex_chars(nanos as u64);
    string_of(v.as_slice())
}

/// The id of a source created when the clock read `reading` nanoseconds
/// since the epoch (`None`: out of the range of `i64`, taken as 0).
pub fn id_from_clock(reading: Option<i64>) -> (r: String)
    ensures
        r@ == lower_hex(
            (match reading {
                Some(n) => n as u64,
                None => 0u64,
            }) as nat,
        ),
{
    let nanos = match reading {
        Some(n) => n,
        None => 0,
    };
    id_from_nanos(nanos)
}

/// The largest playlist that is read, in bytes (32 MB).
pub const MAX_PLAYLIST_BYTES: u64 = 33554432;

/// Whether a playlist of `len` bytes is too large to read.
pub fn playlist_too_large(len: u64) -> (r: bool)
    ensures
        r == (len > MAX_PLAYLIST_BYTES),
{
    len > MAX_PLAYLIST_BYTES
}

pub open spec fn too_large_text() -> Seq<char> {
    "Playlist exceeds 32 MB"@
}

/// The message for a playlist over the size limit.
pub fn too_large_message() -> (r: String)
    ensures
        r@ == too_large_text(),
{
    String::from_str("Playlist exceeds 32 MB")
}

pub open spec fn unusable_location() -> Seq<char> {
    "Enter a playlist URL or choose an existing M3U file."@
}

/// Whether a (trimmed) location can be added as a source: a fetchable URL,
/// or a file that exists (`is_existing_file`, as the file system says).
pub fn check_location(location: &str, is_existing_file: bool) -> (r: Result<(), String>)
    ensures
        (remote_url_of(location@) is Some || is_existing_file) <==> r is Ok,
        r matches Err(e) ==> e@ == unusable_location(),
{
    if remote_url(location).is_none() && !is_existing_file {
        Err(String::from_str("Enter a playlist URL or choose an existing M3U file."))
    } else {
        Ok(())
    }
}

// ---------------------------------------------------------------- laws

proof fn lemma_sources_without_keeps(s: Seq<SourceView>, id: Seq<char>)
    ensures
        forall|i: int| 0 <= i < sources_without(s, id).len() ==> (#[trigger] sources_without(s, id)[i]).id != id,
    decreases s.len(),
{
    if s.len() > 0 {
        lemma_sources_without_keeps(s.drop_last(), id);
        let r = sources_without(s, id);
        let rest = sources_without(s.drop_last(), id);
        assert forall|i: int| 0 <= i < r.len() implies (#[trigger] r[i]).id != id by {
            if i < rest.len() {
                assert(r[i] == rest[i]);
            }
        }
    }
}

proof fn lemma_channels_without_keeps(c: Seq<ChannelView>, id: Seq<char>)
    ensures
        forall|i: int| 0 <= i < channels_without(c, id).len() ==> (#[trigger] channels_without(c, id)[i]).source_id != id,
    decreases c.len(),
{
    if c.len() > 0 {
        lemma_channels_without_keeps(c.drop_last(), id);
        let r = channels_without(c, id);
        let rest = channels_without(c.drop_last(), id);
        assert forall|i: int| 0 <= i < r.len() implies (#[trigger] r[i]).source_id != id by {
            if i < rest.len() {
                assert(r[i] == rest[i]);
            }
        }
    }
}

proof fn lemma_sources_without_none(s: Seq<SourceView>, id: Seq<char>)
    requires
        forall|i: int| 0 <= i < s.len() ==> (#[trigger] s[i]).id != id,
    ensures
        sources_without(s, id) == s,
    decreases s.len(),
{
    if s.len() > 0 {
        lemma_sources_without_none(s.drop_last(), id);
        assert(s.drop_last().push(s.last()) =~= s);
    }
}

proof fn lemma_channels_without_none(c: Seq<ChannelView>, id: Seq<char>)
    requires
        forall|i: int| 0 <= i < c.len() ==> (#[trigger] c[i]).source_id != id,
    ensures
        channels_without(c, id) == c,
    decreases c.len(),
{
    if c.len() > 0 {
        lemma_channels_without_none(c.drop_last(), id);
        assert(c.drop_last().push(c.last()) =~= c);
    }
}

proof fn lemma_channels_without_all(c: Seq<ChannelView>, id: Seq<char>)
    requires
        forall|i: int| 0 <= i < c.len() ==> (#[trigger] c[i]).source_id == id,
    ensures
        channels_without(c, id) == Seq::<ChannelView>::empty(),
    decreases c.len(),
{
    if c.len() > 0 {
        lemma_channels_without_all(c.drop_last(), id);
    }
}

proof fn lemma_channels_without_append(a: Seq<ChannelView>, b: Seq<ChannelView>, id: Seq<char>)
    ensures
        channels_without(a + b, id) == channels_without(a, id) + channels_without(b, id),
    decreases b.len(),
{
    if b.len() == 0 {
        assert(a + b =~= a);
        assert(channels_without(a, id) + channels_without(b, id) =~= channels_without(a, id));
    } else {
        lemma_channels_without_append(a, b.drop_last(), id);
        assert((a + b).drop_last() =~= a + b.drop_last());
        assert((a + b).last() == b.last());
        if b.last().source_id != id {
            assert(channels_without(a, id) + channels_without(b.drop_last(), id).push(b.last())
                =~= (channels_without(a, id) + channels_without(b.drop_last(), id)).push(b.last()));
        }
    }
}

proof fn lemma_sources_without_update(s: Seq<SourceView>, id: Seq<char>, i: int, v: SourceView)
    requires
        0 <= i < s.len(),
        s[i].id == id,
        v.id == id,
    ensures
        sources_without(s.update(i, v), id) == sources_without(s, id),
    decreases s.len(),
{
    if i == s.len() - 1 {
        assert(s.update(i, v).drop_last() =~= s.drop_last());
    } else {
        lemma_sources_without_update(s.drop_last(), id, i, v);
        assert(s.update(i, v).drop_last() =~= s.drop_last().update(i, v));
    }
}

/// A location counts as already added exactly when some stored source has
/// the very same location text.
pub proof fn law_known_location(sources: Seq<SourceView>, location: Seq<char>)
    ensures
        has_location(sources, location) <==> exists|i: int| 0 <= i < sources.len() && (#[trigger] sources[i]).location =~= location,
{
    if has_location(sources, location) {
        let i = choose|i: int| 0 <= i < sources.len() && #[trigger] sources[i].location == location;
        assert(sources[i].location =~= location);
    }
    if exists|i: int| 0 <= i < sources.len() && (#[trigger] sources[i]).location =~= location {
        let i = choose|i: int| 0 <= i < sources.len() && (#[trigger] sources[i]).location =~= location;
        assert(sources[i].location == location);
    }
}

/// A source whose location text differs from that of every stored source is
/// not refused (`add_source` succeeds), and once added its location is known.
pub proof fn law_new_location_accepted(d: DataView, source: SourceView, channels: Seq<ChannelView>)
    requires
        forall|i: int| 0 <= i < d.sources.len() ==> (#[trigger] d.sources[i]).location != source.location,
    ensures
        !has_location(d.sources, source.location),
        has_location(added(d, source, channels).sources, source.location),
        added(d, source, channels).sources == d.sources.push(source),
        added(d, source, channels).channels == d.channels + channels,
{
    let s = added(d, source, channels).sources;
    assert(s[d.sources.len() as int].location == source.location);
}

/// Once a source is removed, neither it nor any of its channels is left.
pub proof fn law_remove_leaves_nothing(d: DataView, id: Seq<char>)
    ensures
        forall|i: int| 0 <= i < removed(d, id).sources.len() ==> (#[trigger] removed(d, id).sources[i]).id != id,
        forall|i: int| 0 <= i < removed(d, id).channels.len() ==> (#[trigger] removed(d, id).channels[i]).source_id != id,
{
    lemma_sources_without_keeps(d.sources, id);
    lemma_channels_without_keeps(d.channels, id);
}

/// Removing a source twice is the same as removing it once.
pub proof fn law_remove_idempotent(d: DataView, id: Seq<char>)
    ensures
        removed(removed(d, id), id) == removed(d, id),
{
    lemma_sources_without_keeps(d.sources, id);
    lemma_channels_without_keeps(d.channels, id);
    lemma_sources_without_none(sources_without(d.sources, id), id);
    lemma_channels_without_none(channels_without(d.channels, id), id);
}

/// Removing a source that was just added, with channels of its own, gives
/// back the store as it was, when its id was not in use there.
pub proof fn law_remove_undoes_add(d: DataView, source: SourceView, channels: Seq<ChannelView>)
    requires
        forall|i: int| 0 <= i < d.sources.len() ==> (#[trigger] d.sources[i]).id != source.id,
        forall|i: int| 0 <= i < d.channels.len() ==> (#[trigger] d.channels[i]).source_id != source.id,
        forall|i: int| 0 <= i < channels.len() ==> (#[trigger] channels[i]).source_id == source.id,
    ensures
        removed(added(d, source, channels), source.id) == d,
{
    let a = added(d, source, channels);
    assert(a.sources.drop_last() =~= d.sources);
    lemma_sources_without_none(d.sources, source.id);
    lemma_channels_without_append(d.channels, channels, source.id);
    lemma_channels_without_none(d.channels, source.id);
    lemma_channels_without_all(channels, source.id);
    assert(d.channels + Seq::<ChannelView>::empty() =~= d.channels);
}

/// Adding sources keeps their locations distinct: a store where no two
/// sources share a location still has none after any `add_source`.
pub proof fn law_add_keeps_locations_distinct(d: DataView, source: SourceView, channels: Seq<ChannelView>)
    requires
        forall|i: int, j: int| 0 <= i < j < d.sources.len() ==> (#[trigger] d.sources[i]).location != (#[trigger] d.sources[j]).location,
        !has_location(d.sources, source.location),
    ensures
        ({
            let s = added(d, source, channels).sources;
            forall|i: int, j: int| 0 <= i < j < s.len() ==> (#[trigger] s[i]).location != (#[trigger] s[j]).location
        }),
{
    let s = added(d, source, channels).sources;
    assert forall|i: int, j: int| 0 <= i < j < s.len() implies (#[trigger] s[i]).location != (#[trigger] s[j]).location by {
        if j == s.len() - 1 {
            assert(s[i] == d.sources[i]);
        } else {
            assert(s[i] == d.sources[i] && s[j] == d.sources[j]);
        }
    }
}

/// Refreshing a source twice with the same result and time is the same as
/// refreshing it once, when the channels belong to that source.
pub proof fn law_refresh_idempotent(d: DataView, id: Seq<char>, now: i64, channels: Seq<ChannelView>)
    requires
        forall|i: int| 0 <= i < channels.len() ==> (#[trigger] channels[i]).source_id == id,
    ensures
        refreshed(refreshed(d, id, now, channels), id, now, channels) == refreshed(d, id, now, channels),
{
    match source_index(d.sources, id) {
        Some(i) => {
            lemma_source_index_found(d.sources, id, 0);
            let r = refreshed(d, id, now, channels);
            lemma_source_index_update(d.sources, id, 0, i, r.sources[i]);
            lemma_channels_without_append(channels_without(d.channels, id), channels, id);
            lemma_channels_without_keeps(d.channels, id);
            lemma_channels_without_none(channels_without(d.channels, id), id);
            lemma_channels_without_all(channels, id);
            assert(channels_without(d.channels, id) + Seq::<ChannelView>::empty() =~= channels_without(d.channels, id));
            assert(r.sources.update(i, r.sources[i]) =~= r.sources);
        },
        None => {},
    }
}

proof fn lemma_source_index_found(s: Seq<SourceView>, id: Seq<char>, k: int)
    ensures
        source_index_from(s, id, k) matches Some(i) ==> k <= i < s.len() && s[i].id == id && forall|j: int| k <= j < i ==> (#[trigger] s[j]).id != id,
    decreases s.len() - k,
{
    if 0 <= k < s.len() && s[k].id != id {
        lemma_source_index_found(s, id, k + 1);
    }
}

proof fn lemma_source_index_update(s: Seq<SourceView>, id: Seq<char>, k: int, i: int, v: SourceView)
    requires
        0 <= k <= i,
        source_index_from(s, id, k) == Some(i),
        v.id == id,
    ensures
        source_index_from(s.update(i, v), id, k) == Some(i),
    decreases i - k,
{
    if k < i {
        lemma_source_index_found(s, id, k);
        assert(s[k].id != id);
        lemma_source_index_update(s, id, k + 1, i, v);
    }
}

/// Removing a source after refreshing it is the same as removing it
/// straight away, when the new channels belong to that source.
pub proof fn law_remove_after_refresh(d: DataView, id: Seq<char>, now: i64, channels: Seq<ChannelView>)
    requires
        forall|i: int| 0 <= i < channels.len() ==> (#[trigger] channels[i]).source_id == id,
    ensures
        removed(refreshed(d, id, now, channels), id) == removed(d, id),
{
    match source_index(d.sources, id) {
        Some(i) => {
            lemma_source_index_found(d.sources, id, 0);
            let r = refreshed(d, id, now, channels);
            lemma_sources_without_update(d.sources, id, i, r.sources[i]);
            lemma_channels_without_append(channels_without(d.channels, id), channels, id);
            lemma_channels_without_keeps(d.channels, id);
            lemma_channels_without_none(channels_without(d.channels, id), id);
            lemma_channels_without_all(channels, id);
            assert(channels_without(d.channels, id) + Seq::<ChannelView>::empty() =~= channels_without(d.channels, id));
        },
        None => {},
    }
}

} // verus!

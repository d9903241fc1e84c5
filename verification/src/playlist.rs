//! Reading an M3U playlist into channels.
//!
//! A playlist is read line by line: each line is trimmed, blank lines are
//! skipped, and the first remaining line must be the `#EXTM3U` header. A
//! playlist that marks itself as a single HLS stream becomes one channel, the
//! stream itself. Otherwise `#EXTINF` lines give the attributes and title of
//! the next entry, `#EXTGRP` lines its group, other `#` lines are comments,
//! and every other line is the address of an entry's stream: resolved against
//! the playlist's own address where it is relative, kept when its scheme is a
//! streaming one and no earlier channel has the same address.

use crate::attributes::{attributes_of, metadata_comma_of, pairs_view, comma_index, parse_attributes};
use crate::model::{channels_view, uncategorized, uncategorized_text, ChannelView, LiveChannel};
use crate::text::{
    ascii_lower,
    last_index_of,
    chars_of, copy_range, decimal, decimal_of, find_char, find_char_of, starts_with_ci,
    starts_with_tag, string_of, str_eq, chars_eq, trim, trim_bounds, trim_bounds_of, trimmed,
    upper_contains, upper_contains_tag, upper_starts_with, upper_starts_with_tag,
};
use crate::weburl::{join_url, opt_url_view, parse_url, url_join, url_parse, UrlView, WebUrl};
use vstd::prelude::*;

verus! {

// ---------------------------------------------------------------- addresses

/// A URL that can be fetched: `http` or `https`, with a host.
pub open spec fn is_remote(u: UrlView) -> bool {
    (u.scheme == "http"@ || u.scheme == "https"@) && u.host is Some
}

/// The playlist location as a fetchable URL, where it is one.
pub open spec fn remote_url_of(location: Seq<char>) -> Option<UrlView> {
    match url_parse(location) {
        Some(u) => if is_remote(u) {
            Some(u)
        } else {
            None
        },
        None => None,
    }
}

/// Whether a URL with this scheme, with or without a host, can be fetched.
pub fn fetchable(scheme: &str, has_host: bool) -> (r: bool)
    ensures
        r == ((scheme@ == "http"@ || scheme@ == "https"@) && has_host),
{
    (str_eq(scheme, "http") || str_eq(scheme, "https")) && has_host
}

/// The location parsed as a URL, when it is an `http` or `https` URL with a host.
pub fn remote_url(location: &str) -> (r: Option<WebUrl>)
    ensures
        opt_url_view(r) == remote_url_of(location@),
{
    match parse_url(location) {
        Some(u) => {
            if fetchable(u.scheme(), u.has_host()) {
                Some(u)
            } else {
                None
            }
        },
        None => None,
    }
}

/// The schemes of the addresses that the player can stream.
pub open spec fn is_stream_scheme(scheme: Seq<char>) -> bool {
    ||| scheme == "http"@
    ||| scheme == "https"@
    ||| scheme == "rtsp"@
    ||| scheme == "rtmp"@
    ||| scheme == "udp"@
    ||| scheme == "rtp"@
}

pub fn stream_scheme(scheme: &str) -> (r: bool)
    ensures
        r == is_stream_scheme(scheme@),
{
    str_eq(scheme, "http") || str_eq(scheme, "https") || str_eq(scheme, "rtsp") || str_eq(
        scheme,
        "rtmp",
    ) || str_eq(scheme, "udp") || str_eq(scheme, "rtp")
}

/// An entry's address as a URL: parsed on its own when it is absolute, else
/// joined to the playlist's own URL when there is one.
pub open spec fn resolve_target(target: Seq<char>, base: Option<UrlView>) -> Option<UrlView> {
    match url_parse(target) {
        Some(u) => Some(u),
        None => match base {
            Some(b) => url_join(b, target),
            None => None,
        },
    }
}

/// The last segment of a URL path (`Url::path_segments().last()`); `None`
/// for a path that does not start with `/`.
pub open spec fn last_segment(path: Seq<char>) -> Option<Seq<char>> {
    if path.len() > 0 && path[0] == '/' {
        Some(path.subrange(last_index_of(path, '/', path.len() as int) + 1, path.len() as int))
    } else {
        None
    }
}

// ---------------------------------------------------------------- lines

/// The bounds of the trimmed, non-blank lines of `s` from position `i` on.
pub open spec fn line_bounds(s: Seq<char>, i: int) -> Seq<(int, int)>
    decreases s.len() - i,
{
    if i < 0 || i >= s.len() {
        seq![]
    } else {
        let n = find_char(s, i, '\n');
        let (a, b) = trim_bounds(s, i, n);
        let rest = if i <= n < s.len() {
            line_bounds(s, n + 1)
        } else {
            seq![]
        };
        if a < b {
            seq![(a, b)] + rest
        } else {
            rest
        }
    }
}

/// The trimmed, non-blank lines of `s` from position `i` on: `s[i..]` split at
/// each `\n`, each piece trimmed, and the empty ones dropped.
pub open spec fn playlist_lines(s: Seq<char>, i: int) -> Seq<Seq<char>> {
    line_bounds(s, i).map_values(|r: (int, int)| s.subrange(r.0, r.1))
}

/// Index just past the byte order marks that begin `s`.
pub open spec fn bom_end(s: Seq<char>, i: int) -> int
    decreases s.len() - i,
{
    if 0 <= i < s.len() && s[i] == '\u{feff}' {
        bom_end(s, i + 1)
    } else {
        i
    }
}

// ---------------------------------------------------------------- entries

/// What has been read of the playlist so far: the attributes, title and group
/// of the entry under way, and the channels found.
pub ghost struct EntryState {
    pub attributes: Seq<(Seq<char>, Seq<char>)>,
    pub title: Seq<char>,
    pub group: Seq<char>,
    pub found: Seq<ChannelView>,
}

pub open spec fn start_state() -> EntryState {
    EntryState { attributes: seq![], title: seq![], group: seq![], found: seq![] }
}

/// The value of the first attribute at or after `i` named `key` whose value is not empty.
pub open spec fn lookup_from(attrs: Seq<(Seq<char>, Seq<char>)>, key: Seq<char>, i: int) -> Option<Seq<char>>
    decreases attrs.len() - i,
{
    if i < 0 || i >= attrs.len() {
        None
    } else if attrs[i].0 == key && attrs[i].1.len() > 0 {
        Some(attrs[i].1)
    } else {
        lookup_from(attrs, key, i + 1)
    }
}

/// The value of the first attribute named `key` whose value is not empty.
pub open spec fn lookup(attrs: Seq<(Seq<char>, Seq<char>)>, key: Seq<char>) -> Option<Seq<char>> {
    lookup_from(attrs, key, 0)
}

pub open spec fn or_empty(o: Option<Seq<char>>) -> Seq<char> {
    match o {
        Some(v) => v,
        None => seq![],
    }
}

/// The channel that the entry under way makes, with address `url`.
pub open spec fn entry_channel(st: EntryState, source_id: Seq<char>, url: Seq<char>) -> ChannelView {
    let name = if st.title.len() > 0 {
        st.title
    } else {
        match lookup(st.attributes, "tvg-name"@) {
            Some(v) => v,
            None => "Channel "@ + decimal((st.found.len() + 1) as nat),
        }
    };
    let group = match lookup(st.attributes, "group-title"@) {
        Some(v) => v,
        None => if st.group.len() > 0 {
            st.group
        } else {
            uncategorized_text()
        },
    };
    ChannelView {
        source_id,
        name,
        url,
        group,
        logo: or_empty(lookup(st.attributes, "tvg-logo"@)),
        tvg_id: or_empty(lookup(st.attributes, "tvg-id"@)),
        number: or_empty(lookup(st.attributes, "tvg-chno"@)),
    }
}

/// Some channel in `found` has the address `url`.
pub open spec fn has_url(found: Seq<ChannelView>, url: Seq<char>) -> bool {
    exists|i: int| 0 <= i < found.len() && #[trigger] found[i].url == url
}

/// The end of an entry: its stream address resolved as `resolved`. A streamable
/// address not seen before adds a channel; the entry's attributes, title and
/// group are cleared either way.
pub open spec fn finish_entry(st: EntryState, source_id: Seq<char>, resolved: Option<(Seq<char>, Seq<char>)>) -> EntryState {
    let found = match resolved {
        Some((scheme, url)) => if is_stream_scheme(scheme) && !has_url(st.found, url) {
            st.found.push(entry_channel(st, source_id, url))
        } else {
            st.found
        },
        None => st.found,
    };
    EntryState { attributes: seq![], title: seq![], group: seq![], found }
}

/// The part of a stream line before any `|` (Kodi-style header suffixes), trimmed.
pub open spec fn stream_target(line: Seq<char>) -> Seq<char> {
    trim(line.subrange(0, find_char(line, 0, '|')))
}

pub open spec fn scheme_and_text(u: Option<UrlView>) -> Option<(Seq<char>, Seq<char>)> {
    match u {
        Some(v) => Some((v.scheme, v.text)),
        None => None,
    }
}

/// The effect of one line of the playlist body.
pub open spec fn read_line(st: EntryState, line: Seq<char>, source_id: Seq<char>, base: Option<UrlView>) -> EntryState {
    if starts_with_ci(line, "#EXTINF:"@) {
        let comma = metadata_comma_of(line);
        let head = match comma {
            Some(c) => line.subrange(0, c),
            None => line,
        };
        let title = match comma {
            Some(c) => trim(line.subrange(c + 1, line.len() as int)),
            None => seq![],
        };
        EntryState { attributes: attributes_of(head), title, group: st.group, found: st.found }
    } else if starts_with_ci(line, "#EXTGRP:"@) {
        EntryState {
            attributes: st.attributes,
            title: st.title,
            group: trim(line.subrange(8, line.len() as int)),
            found: st.found,
        }
    } else if !(line.len() > 0 && line[0] == '#') {
        finish_entry(st, source_id, scheme_and_text(resolve_target(stream_target(line), base)))
    } else {
        st
    }
}

/// The state after the body lines `lines[1..n]`.
pub open spec fn read_lines(lines: Seq<Seq<char>>, n: int, source_id: Seq<char>, base: Option<UrlView>) -> EntryState
    decreases n,
{
    if n <= 1 {
        start_state()
    } else {
        read_line(read_lines(lines, n - 1, source_id, base), lines[n - 1], source_id, base)
    }
}

// ---------------------------------------------------------------- results

pub open spec fn not_a_playlist() -> Seq<char> {
    "This is not an M3U playlist."@
}

pub open spec fn single_stream_elsewhere() -> Seq<char> {
    "This is a single HLS stream, not a channel playlist."@
}

pub open spec fn no_channels() -> Seq<char> {
    "The playlist has no playable channels."@
}

/// The playlist describes one HLS stream rather than a list of channels.
pub open spec fn is_hls_stream(text: Seq<char>, from: int) -> bool {
    upper_contains(text, from, "#EXT-X-TARGETDURATION"@) || upper_contains(
        text,
        from,
        "#EXT-X-STREAM-INF"@,
    )
}

/// The one channel of a single-stream playlist fetched from `u`: named after
/// the last segment of its path.
pub open spec fn stream_channel(source_id: Seq<char>, url: Seq<char>, path: Seq<char>) -> ChannelView {
    ChannelView {
        source_id,
        name: match last_segment(path) {
            Some(seg) => seg,
            None => "Live stream"@,
        },
        url,
        group: uncategorized_text(),
        logo: seq![],
        tvg_id: seq![],
        number: seq![],
    }
}

/// What reading `text` as a playlist of source `source_id`, fetched from
/// `location`, gives: its channels, or the error message.
pub open spec fn m3u_result(text: Seq<char>, source_id: Seq<char>, location: Seq<char>) -> Result<Seq<ChannelView>, Seq<char>> {
    let k = bom_end(text, 0);
    let lines = playlist_lines(text, k);
    if lines.len() == 0 || !upper_starts_with(lines[0], "#EXTM3U"@) {
        Err(not_a_playlist())
    } else if is_hls_stream(text, k) {
        match remote_url_of(location) {
            Some(u) => Ok(seq![stream_channel(source_id, u.text, u.path)]),
            None => Err(single_stream_elsewhere()),
        }
    } else {
        let st = read_lines(lines, lines.len() as int, source_id, remote_url_of(location));
        if st.found.len() == 0 {
            Err(no_channels())
        } else {
            Ok(st.found)
        }
    }
}

pub open spec fn result_view(r: Result<Vec<LiveChannel>, String>) -> Result<Seq<ChannelView>, Seq<char>> {
    match r {
        Ok(v) => Ok(channels_view(v@)),
        Err(e) => Err(e@),
    }
}


// ---------------------------------------------------------------- reading

pub open spec fn bounds_view(v: Seq<(usize, usize)>) -> Seq<(int, int)> {
    v.map_values(|r: (usize, usize)| (r.0 as int, r.1 as int))
}

fn bom_end_of(s: &[char]) -> (r: usize)
    ensures
        r as int == bom_end(s@, 0),
        r <= s@.len(),
{
    let mut i: usize = 0;
    while i < s.len() && s[i] == '\u{feff}'
        invariant
            i <= s@.len(),
            bom_end(s@, 0) == bom_end(s@, i as int),
        decreases s@.len() - i,
    {
        i = i + 1;
    }
    i
}

fn line_bounds_of(s: &[char], k: usize) -> (r: Vec<(usize, usize)>)
    requires
        k <= s@.len(),
    ensures
        bounds_view(r@) == line_bounds(s@, k as int),
        forall|j: int| 0 <= j < r@.len() ==> (#[trigger] r@[j]).0 <= r@[j].1 <= s@.len(),
{
    let mut out: Vec<(usize, usize)> = Vec::new();
    let mut i = k;
    while i < s.len()
        invariant
            k <= i <= s@.len(),
            line_bounds(s@, k as int) == bounds_view(out@) + line_bounds(s@, i as int),
            forall|j: int| 0 <= j < out@.len() ==> (#[trigger] out@[j]).0 <= out@[j].1 <= s@.len(),
        decreases s@.len() - i,
    {
        let n = find_char_of(s, i, '\n');
        let (a, b) = trim_bounds_of(s, i, n);
        let ghost old_out = out@;
        if a < b {
            out.push((a, b));
            assert(bounds_view(out@) =~= bounds_view(old_out) + seq![(a as int, b as int)]);
        }
        if n < s.len() {
            i = n + 1;
        } else {
            i = s.len();
        }
        assert(line_bounds(s@, k as int) =~= bounds_view(out@) + line_bounds(s@, i as int));
    }
    assert(bounds_view(out@) + line_bounds(s@, i as int) =~= bounds_view(out@));
    out
}

fn last_slash_of(s: &[char]) -> (r: Option<usize>)
    ensures
        match r {
            Some(i) => last_index_of(s@, '/', s@.len() as int) == i as int && i < s@.len(),
            None => last_index_of(s@, '/', s@.len() as int) == -1,
        },
{
    let mut j = s.len();
    while j > 0
        invariant
            j <= s@.len(),
            last_index_of(s@, '/', s@.len() as int) == last_index_of(s@, '/', j as int),
        decreases j,
    {
        if s[j - 1] == '/' {
            return Some(j - 1);
        }
        j = j - 1;
    }
    None
}

/// The one channel of a single-stream playlist fetched from `url`, whose path
/// is `path`: named after the last segment of the path.
pub fn stream_channel_of(source_id: &str, url: &str, path: &str) -> (r: LiveChannel)
    ensures
        r@ == stream_channel(source_id@, url@, path@),
{
    let p = chars_of(path);
    let name = if p.len() > 0 && p[0] == '/' {
        let start = match last_slash_of(p.as_slice()) {
            Some(i) => i + 1,
            None => 0,
        };
        string_of(vstd::slice::slice_subrange(p.as_slice(), start, p.len()))
    } else {
        String::from_str("Live stream")
    };
    LiveChannel {
        source_id: String::from_str(source_id),
        name,
        url: String::from_str(url),
        group: uncategorized(),
        logo: String::new(),
        tvg_id: String::new(),
        number: String::new(),
    }
}

pub open spec fn opt_chars_view(o: Option<Vec<char>>) -> Option<Seq<char>> {
    match o {
        Some(v) => Some(v@),
        None => None,
    }
}

pub open spec fn opt_pair_view(o: Option<(String, String)>) -> Option<(Seq<char>, Seq<char>)> {
    match o {
        Some((a, b)) => Some((a@, b@)),
        None => None,
    }
}

/// The state of a playlist read line by line.
pub struct PlaylistReader {
    attributes: Vec<(Vec<char>, Vec<char>)>,
    title: Vec<char>,
    group: Vec<char>,
    found: Vec<LiveChannel>,
}

impl View for PlaylistReader {
    type V = EntryState;

    closed spec fn view(&self) -> EntryState {
        EntryState {
            attributes: pairs_view(self.attributes@),
            title: self.title@,
            group: self.group@,
            found: channels_view(self.found@),
        }
    }
}

impl PlaylistReader {
    /// A reader before the first body line.
    pub fn new() -> (r: PlaylistReader)
        ensures
            r@ == start_state(),
    {
        let r = PlaylistReader {
            attributes: Vec::new(),
            title: Vec::new(),
            group: Vec::new(),
            found: Vec::new(),
        };
        assert(r@.attributes =~= seq![]);
        assert(r@.found =~= seq![]);
        r
    }

    fn lookup_attribute(&self, key: &str) -> (r: Option<Vec<char>>)
        ensures
            opt_chars_view(r) == lookup(self@.attributes, key@),
    {
        let ghost attrs = self@.attributes;
        let mut i: usize = 0;
        while i < self.attributes.len()
            invariant
                i <= self.attributes@.len(),
                attrs == pairs_view(self.attributes@),
                lookup_from(attrs, key@, 0) == lookup_from(attrs, key@, i as int),
            decreases self.attributes@.len() - i,
        {
            let (k, v) = &self.attributes[i];
            if chars_eq(k.as_slice(), key) && v.len() > 0 {
                return Some(vstd::slice::slice_to_vec(v.as_slice()));
            }
            i = i + 1;
        }
        None
    }

    fn attribute_or_empty(&self, key: &str) -> (r: String)
        ensures
            r@ == or_empty(lookup(self@.attributes, key@)),
    {
        match self.lookup_attribute(key) {
            Some(v) => string_of(v.as_slice()),
            None => String::new(),
        }
    }

    fn has_url(&self, url: &String) -> (r: bool)
        ensures
            r == has_url(self@.found, url@),
    {
        let mut i: usize = 0;
        while i < self.found.len()
            invariant
                i <= self.found@.len(),
                forall|j: int| 0 <= j < i ==> self.found@[j].url@ != url@,
            decreases self.found@.len() - i,
        {
            if self.found[i].url == *url {
                assert(self@.found[i as int].url == url@);
                return true;
            }
            i = i + 1;
        }
        assert forall|j: int| 0 <= j < self@.found.len() implies #[trigger] self@.found[j].url != url@ by {
            assert(self@.found[j] == self.found@[j]@);
        }
        false
    }

    fn entry_channel(&self, source_id: &str, url: String) -> (r: LiveChannel)
        requires
            self@.found.len() < usize::MAX,
        ensures
            r@ == entry_channel(self@, source_id@, url@),
    {
        let name = if self.title.len() > 0 {
            string_of(self.title.as_slice())
        } else {
            match self.lookup_attribute("tvg-name") {
                Some(v) => string_of(v.as_slice()),
                None => {
                    let mut n = String::from_str("Channel ");
                    let digits = decimal_of(self.found.len() + 1);
                    let d = string_of(digits.as_slice());
                    n.append(d.as_str());
                    n
                },
            }
        };
        let group = match self.lookup_attribute("group-title") {
            Some(v) => string_of(v.as_slice()),
            None => if self.group.len() > 0 {
                string_of(self.group.as_slice())
            } else {
                uncategorized()
            },
        };
        LiveChannel {
            source_id: String::from_str(source_id),
            name,
            url,
            group,
            logo: self.attribute_or_empty("tvg-logo"),
            tvg_id: self.attribute_or_empty("tvg-id"),
            number: self.attribute_or_empty("tvg-chno"),
        }
    }

    /// Ends the entry under way, whose stream address resolved to the URL with
    /// the given scheme and serialization (`None`: it did not resolve). A
    /// streamable address that no channel has yet adds a channel; the
    /// attributes, title and group of the entry are cleared either way.
    pub fn finish_entry(&mut self, source_id: &str, resolved: Option<(String, String)>)
        requires
            old(self)@.found.len() < usize::MAX,
        ensures
            final(self)@ == finish_entry(old(self)@, source_id@, opt_pair_view(resolved)),
    {
        match resolved {
            Some((scheme, url)) => {
                if stream_scheme(scheme.as_str()) && !self.has_url(&url) {
                    let c = self.entry_channel(source_id, url);
                    let ghost old_found = self.found@;
                    self.found.push(c);
                    assert(channels_view(self.found@) =~= channels_view(old_found).push(c@));
                }
            },
            None => {},
        }
        self.attributes = Vec::new();
        self.title = Vec::new();
        self.group = Vec::new();
        assert(self@.attributes =~= seq![]);
    }

    /// Reads one trimmed, non-blank line of the playlist body; `base` is the
    /// playlist's own URL, against which relative stream addresses resolve.
    pub fn read_line(&mut self, line: &[char], source_id: &str, base: &Option<WebUrl>)
        requires
            old(self)@.found.len() < usize::MAX,
        ensures
            final(self)@ == read_line(old(self)@, line@, source_id@, opt_url_view(*base)),
            final(self)@.found.len() <= old(self)@.found.len() + 1,
    {
        let len = line.len();
        if starts_with_tag(line, "#EXTINF:") {
            let comma = comma_index(line);
            let head = match comma {
                Some(c) => vstd::slice::slice_subrange(line, 0, c),
                None => line,
            };
            self.attributes = parse_attributes(head);
            self.title = match comma {
                Some(c) => trimmed(vstd::slice::slice_subrange(line, c + 1, len)),
                None => Vec::new(),
            };
        } else if starts_with_tag(line, "#EXTGRP:") {
            proof {
                reveal_strlit("#EXTGRP:");
            }
            self.group = trimmed(vstd::slice::slice_subrange(line, 8, len));
        } else if !(len > 0 && line[0] == '#') {
            let bar = find_char_of(line, 0, '|');
            let target = trimmed(vstd::slice::slice_subrange(line, 0, bar));
            let target_text = string_of(target.as_slice());
            let resolved = match parse_url(target_text.as_str()) {
                Some(u) => Some(u),
                None => match base {
                    Some(b) => join_url(b, target_text.as_str()),
                    None => None,
                },
            };
            let plain = match resolved {
                Some(u) => Some((String::from_str(u.scheme()), String::from_str(u.as_str()))),
                None => None,
            };
            self.finish_entry(source_id, plain);
        }
    }

    /// The channels found so far.
    pub fn into_channels(self) -> (r: Vec<LiveChannel>)
        ensures
            channels_view(r@) == self@.found,
    {
        self.found
    }
}

/// Reads `text` as an M3U playlist of the source `source_id`, fetched from
/// `location`: the channels it lists, or why it has none.
pub fn parse_m3u(text: &str, source_id: &str, location: &str) -> (r: Result<Vec<LiveChannel>, String>)
    ensures
        result_view(r) == m3u_result(text@, source_id@, location@),
{
    let s = chars_of(text);
    let k = bom_end_of(s.as_slice());
    let bounds = line_bounds_of(s.as_slice(), k);
    let ghost lines = playlist_lines(s@, k as int);
    assert(lines.len() == bounds@.len());
    if bounds.len() == 0 {
        return Err(String::from_str("This is not an M3U playlist."));
    }
    let first = copy_range(s.as_slice(), bounds[0].0, bounds[0].1);
    assert(first@ == lines[0]);
    if !upper_starts_with_tag(first.as_slice(), "#EXTM3U") {
        return Err(String::from_str("This is not an M3U playlist."));
    }
    if upper_contains_tag(s.as_slice(), k, "#EXT-X-TARGETDURATION") || upper_contains_tag(
        s.as_slice(),
        k,
        "#EXT-X-STREAM-INF",
    ) {
        return match remote_url(location) {
            Some(u) => {
                let c = stream_channel_of(source_id, u.as_str(), u.path());
                let mut v: Vec<LiveChannel> = Vec::new();
                v.push(c);
                assert(channels_view(v@) =~= seq![c@]);
                Ok(v)
            },
            None => Err(String::from_str("This is a single HLS stream, not a channel playlist.")),
        };
    }
    let base = remote_url(location);
    let mut reader = PlaylistReader::new();
    let mut j: usize = 1;
    while j < bounds.len()
        invariant
            1 <= j <= bounds@.len(),
            lines == playlist_lines(s@, k as int),
            lines.len() == bounds@.len(),
            forall|i: int| 0 <= i < bounds@.len() ==> (#[trigger] bounds@[i]).0 <= bounds@[i].1 <= s@.len(),
            bounds_view(bounds@) == line_bounds(s@, k as int),
            reader@ == read_lines(lines, j as int, source_id@, opt_url_view(base)),
            reader@.found.len() < j,
        decreases bounds@.len() - j,
    {
        let line = copy_range(s.as_slice(), bounds[j].0, bounds[j].1);
        assert(line@ == lines[j as int]);
        reader.read_line(line.as_slice(), source_id, &base);
        j = j + 1;
    }
    let found = reader.into_channels();
    if found.len() == 0 {
        Err(String::from_str("The playlist has no playable channels."))
    } else {
        Ok(found)
    }
}


// ---------------------------------------------------------------- laws

/// `u` is what the entry address `t` resolves to against `base`.
pub open spec fn resolves_to(t: Seq<char>, base: Option<UrlView>, u: UrlView) -> bool {
    resolve_target(t, base) == Some(u)
}

/// The channel plays the serialization of a URL with a streaming scheme:
/// the playlist's own URL, or what one of its entry addresses resolved to.
pub open spec fn plays_stream_of(c: ChannelView, location: Seq<char>) -> bool {
    exists|u: UrlView|
        #![trigger is_stream_scheme(u.scheme), u.text]
        u.text == c.url && is_stream_scheme(u.scheme) && (remote_url_of(location) == Some(u)
            || exists|t: Seq<char>| #[trigger] resolves_to(t, remote_url_of(location), u))
}

/// What holds of every list of channels that the reader builds.
pub open spec fn well_formed_channels(found: Seq<ChannelView>, source_id: Seq<char>, location: Seq<char>) -> bool {
    &&& forall|i: int| 0 <= i < found.len() ==> (#[trigger] found[i]).source_id == source_id
    &&& forall|i: int| 0 <= i < found.len() ==> (#[trigger] found[i]).group.len() > 0
    &&& forall|i: int, j: int| 0 <= i < j < found.len() ==> (#[trigger] found[i]).url != (#[trigger] found[j]).url
    &&& forall|i: int| 0 <= i < found.len() ==> plays_stream_of(#[trigger] found[i], location)
}

proof fn lemma_lookup_not_empty(attrs: Seq<(Seq<char>, Seq<char>)>, key: Seq<char>, i: int)
    ensures
        lookup_from(attrs, key, i) matches Some(v) ==> v.len() > 0,
    decreases attrs.len() - i,
{
    if 0 <= i < attrs.len() && !(attrs[i].0 == key && attrs[i].1.len() > 0) {
        lemma_lookup_not_empty(attrs, key, i + 1);
    }
}

proof fn lemma_read_line_keeps(st: EntryState, line: Seq<char>, source_id: Seq<char>, location: Seq<char>)
    requires
        well_formed_channels(st.found, source_id, location),
    ensures
        well_formed_channels(
            read_line(st, line, source_id, remote_url_of(location)).found,
            source_id,
            location,
        ),
{
    let base = remote_url_of(location);
    let next = read_line(st, line, source_id, base);
    if !starts_with_ci(line, "#EXTINF:"@) && !starts_with_ci(line, "#EXTGRP:"@) && !(line.len()
        > 0 && line[0] == '#') {
        let t = stream_target(line);
        match resolve_target(t, base) {
            Some(u) => {
                if is_stream_scheme(u.scheme) && !has_url(st.found, u.text) {
                    let c = entry_channel(st, source_id, u.text);
                    lemma_lookup_not_empty(st.attributes, "group-title"@, 0);
                    reveal_strlit("Uncategorized");
                    assert(c.group.len() > 0);
                    assert(resolves_to(t, base, u));
                    assert(plays_stream_of(c, location));
                    let f = next.found;
                    assert(f == st.found.push(c));
                    assert forall|i: int, j: int| 0 <= i < j < f.len() implies (#[trigger] f[i]).url
                        != (#[trigger] f[j]).url by {
                        if j == f.len() - 1 {
                            assert(f[i] == st.found[i]);
                            if f[i].url == f[j].url {
                                assert(st.found[i].url == u.text);
                            }
                        } else {
                            assert(f[i] == st.found[i] && f[j] == st.found[j]);
                        }
                    }
                    assert forall|i: int| 0 <= i < f.len() implies plays_stream_of(#[trigger] f[i], location) by {
                        if i < st.found.len() {
                            assert(f[i] == st.found[i]);
                        }
                    }
                }
            },
            None => {},
        }
    }
}

proof fn lemma_read_lines_keep(lines: Seq<Seq<char>>, n: int, source_id: Seq<char>, location: Seq<char>)
    ensures
        well_formed_channels(
            read_lines(lines, n, source_id, remote_url_of(location)).found,
            source_id,
            location,
        ),
    decreases n,
{
    if n > 1 {
        lemma_read_lines_keep(lines, n - 1, source_id, location);
        lemma_read_line_keeps(
            read_lines(lines, n - 1, source_id, remote_url_of(location)),
            lines[n - 1],
            source_id,
            location,
        );
    }
}

/// Every channel that reading a playlist gives belongs to the source it was
/// read for, has a group, and plays a URL with a streaming scheme (the
/// playlist's own URL, or what one of its entries resolved to); no two of
/// them play the same URL; and there is at least one.
pub proof fn law_playlist_channels(text: Seq<char>, source_id: Seq<char>, location: Seq<char>)
    ensures
        m3u_result(text, source_id, location) matches Ok(v) ==> v.len() > 0
            && well_formed_channels(v, source_id, location),
{
    let k = bom_end(text, 0);
    let lines = playlist_lines(text, k);
    if lines.len() > 0 && upper_starts_with(lines[0], "#EXTM3U"@) {
        if is_hls_stream(text, k) {
            if let Some(u) = remote_url_of(location) {
                let c = stream_channel(source_id, u.text, u.path);
                reveal_strlit("Uncategorized");
                assert(is_stream_scheme(u.scheme));
                assert(plays_stream_of(c, location));
                let v = seq![c];
                assert(v[0] == c);
            }
        } else {
            lemma_read_lines_keep(lines, lines.len() as int, source_id, location);
        }
    }
}

/// A playlist that marks itself as one HLS stream (a target duration or a
/// variant stream tag) becomes exactly one channel, the stream at the
/// playlist's own URL, when that URL can be fetched; otherwise it is refused.
pub proof fn law_single_stream(text: Seq<char>, source_id: Seq<char>, location: Seq<char>)
    requires
        ({
            let lines = playlist_lines(text, bom_end(text, 0));
            lines.len() > 0 && upper_starts_with(lines[0], "#EXTM3U"@)
        }),
        is_hls_stream(text, bom_end(text, 0)),
    ensures
        match remote_url_of(location) {
            Some(u) => m3u_result(text, source_id, location) matches Ok(v) && v.len() == 1 && v[0].url
                == u.text && v[0].source_id == source_id,
            None => m3u_result(text, source_id, location) == Err::<Seq<ChannelView>, Seq<char>>(
                single_stream_elsewhere(),
            ),
        },
{
}

proof fn lemma_shift_find(p: Seq<char>, s: Seq<char>, i: int, q: char)
    requires
        0 <= i <= s.len(),
    ensures
        find_char(p + s, i + p.len(), q) == find_char(s, i, q) + p.len(),
    decreases s.len() - i,
{
    let s2 = p + s;
    if i < s.len() {
        assert(s2[i + p.len()] == s[i]);
        lemma_shift_find(p, s, i + 1, q);
    }
}

proof fn lemma_shift_skip_space(p: Seq<char>, s: Seq<char>, i: int, hi: int)
    requires
        0 <= i,
        hi <= s.len(),
    ensures
        crate::text::skip_space(p + s, i + p.len(), hi + p.len()) == crate::text::skip_space(s, i, hi) + p.len(),
    decreases hi - i,
{
    let s2 = p + s;
    if i < hi {
        assert(s2[i + p.len()] == s[i]);
        lemma_shift_skip_space(p, s, i + 1, hi);
    }
}

proof fn lemma_shift_drop_trailing(p: Seq<char>, s: Seq<char>, lo: int, j: int)
    requires
        0 <= lo,
        j <= s.len(),
    ensures
        crate::text::drop_trailing_space(p + s, lo + p.len(), j + p.len())
            == crate::text::drop_trailing_space(s, lo, j) + p.len(),
    decreases j - lo,
{
    let s2 = p + s;
    if lo < j {
        assert(s2[j - 1 + p.len()] == s[j - 1]);
        lemma_shift_drop_trailing(p, s, lo, j - 1);
    }
}

proof fn lemma_find_bounds(s: Seq<char>, i: int, q: char)
    requires
        0 <= i <= s.len(),
    ensures
        i <= find_char(s, i, q) <= s.len(),
    decreases s.len() - i,
{
    if i < s.len() && s[i] != q {
        lemma_find_bounds(s, i + 1, q);
    }
}

proof fn lemma_skip_space_bounds(s: Seq<char>, i: int, hi: int)
    requires
        i <= hi,
    ensures
        i <= crate::text::skip_space(s, i, hi) <= hi,
    decreases hi - i,
{
    if i < hi && crate::text::is_white_space(s[i]) {
        lemma_skip_space_bounds(s, i + 1, hi);
    }
}

pub open spec fn shifted(b: Seq<(int, int)>, d: int) -> Seq<(int, int)> {
    b.map_values(|r: (int, int)| (r.0 + d, r.1 + d))
}

proof fn lemma_shift_lines(p: Seq<char>, s: Seq<char>, i: int)
    requires
        0 <= i,
    ensures
        line_bounds(p + s, i + p.len()) == shifted(line_bounds(s, i), p.len() as int),
    decreases s.len() - i,
{
    let s2 = p + s;
    let d = p.len() as int;
    if i < s.len() {
        let n = find_char(s, i, '\n');
        lemma_shift_find(p, s, i, '\n');
        lemma_find_bounds(s, i, '\n');
        lemma_shift_skip_space(p, s, i, n);
        lemma_skip_space_bounds(s, i, n);
        let a = crate::text::skip_space(s, i, n);
        lemma_shift_drop_trailing(p, s, a, n);
        if n < s.len() {
            lemma_shift_lines(p, s, n + 1);
        }
        let rest = if i <= n < s.len() {
            line_bounds(s, n + 1)
        } else {
            seq![]
        };
        assert(shifted(seq![(a, crate::text::drop_trailing_space(s, a, n))] + rest, d) =~= seq![(a + d, crate::text::drop_trailing_space(s, a, n) + d)] + shifted(rest, d));
        if !(i <= n < s.len()) {
            assert(shifted(seq![], d) =~= seq![]);
        }
    } else {
        assert(shifted(seq![], d) =~= seq![]);
    }
}

proof fn lemma_shift_playlist_lines(p: Seq<char>, s: Seq<char>, i: int)
    requires
        0 <= i,
    ensures
        playlist_lines(p + s, i + p.len()) == playlist_lines(s, i),
{
    lemma_shift_lines(p, s, i);
    let s2 = p + s;
    let d = p.len() as int;
    let b = line_bounds(s, i);
    lemma_line_bounds_within(s, i);
    let l2 = playlist_lines(s2, i + d);
    let l1 = playlist_lines(s, i);
    assert forall|j: int| 0 <= j < l1.len() implies l2[j] == l1[j] by {
        assert(0 <= b[j].0 <= b[j].1 <= s.len());
        assert(s2.subrange(b[j].0 + d, b[j].1 + d) =~= s.subrange(b[j].0, b[j].1));
    }
    assert(l2 =~= l1);
}

proof fn lemma_line_bounds_within(s: Seq<char>, i: int)
    requires
        0 <= i,
    ensures
        forall|j: int| 0 <= j < line_bounds(s, i).len() ==> 0 <= (#[trigger] line_bounds(s, i)[j]).0 <= line_bounds(s, i)[j].1 <= s.len(),
    decreases s.len() - i,
{
    if i < s.len() {
        let n = find_char(s, i, '\n');
        lemma_find_bounds(s, i, '\n');
        lemma_skip_space_bounds(s, i, n);
        let a = crate::text::skip_space(s, i, n);
        lemma_drop_trailing_bounds(s, a, n);
        if n < s.len() {
            lemma_line_bounds_within(s, n + 1);
        }
        let rest = if i <= n < s.len() {
            line_bounds(s, n + 1)
        } else {
            seq![]
        };
        let r = line_bounds(s, i);
        assert forall|j: int| 0 <= j < r.len() implies 0 <= (#[trigger] r[j]).0 <= r[j].1 <= s.len() by {
            let (aa, bb) = trim_bounds(s, i, n);
            if aa < bb {
                if j > 0 {
                    assert(r[j] == rest[j - 1]);
                }
            } else {
                assert(r[j] == rest[j]);
            }
        }
    }
}

proof fn lemma_drop_trailing_bounds(s: Seq<char>, lo: int, j: int)
    requires
        lo <= j,
    ensures
        lo <= crate::text::drop_trailing_space(s, lo, j) <= j,
    decreases j - lo,
{
    if lo < j && crate::text::is_white_space(s[j - 1]) {
        lemma_drop_trailing_bounds(s, lo, j - 1);
    }
}

proof fn lemma_shift_upper_contains(p: Seq<char>, s: Seq<char>, from: int, tag: Seq<char>)
    requires
        0 <= from <= s.len(),
    ensures
        upper_contains(p + s, from + p.len(), tag) == upper_contains(s, from, tag),
{
    let s2 = p + s;
    let d = p.len() as int;
    if upper_contains(s, from, tag) {
        let j = choose|j: int| from <= j <= s.len() && #[trigger] upper_starts_with(s.subrange(j, s.len() as int), tag);
        assert(s2.subrange(j + d, s2.len() as int) =~= s.subrange(j, s.len() as int));
        assert(upper_starts_with(s2.subrange(j + d, s2.len() as int), tag));
    }
    if upper_contains(s2, from + d, tag) {
        let j = choose|j: int| from + d <= j <= s2.len() && #[trigger] upper_starts_with(s2.subrange(j, s2.len() as int), tag);
        assert(s2.subrange(j, s2.len() as int) =~= s.subrange(j - d, s.len() as int));
        assert(upper_starts_with(s.subrange(j - d, s.len() as int), tag));
    }
}

proof fn lemma_bom_end_shift(s: Seq<char>, i: int)
    requires
        0 <= i,
    ensures
        bom_end(seq!['\u{feff}'] + s, i + 1) == bom_end(s, i) + 1,
    decreases s.len() - i,
{
    let s2 = seq!['\u{feff}'] + s;
    if i < s.len() {
        assert(s2[i + 1] == s[i]);
        lemma_bom_end_shift(s, i + 1);
    }
}

proof fn lemma_bom_end_bounds(s: Seq<char>, i: int)
    requires
        0 <= i <= s.len(),
    ensures
        i <= bom_end(s, i) <= s.len(),
    decreases s.len() - i,
{
    if i < s.len() && s[i] == '\u{feff}' {
        lemma_bom_end_bounds(s, i + 1);
    }
}

/// A byte order mark before a playlist changes nothing of what it gives.
pub proof fn law_byte_order_mark_ignored(text: Seq<char>, source_id: Seq<char>, location: Seq<char>)
    ensures
        m3u_result(seq!['\u{feff}'] + text, source_id, location) == m3u_result(text, source_id, location),
{
    let p = seq!['\u{feff}'];
    let t2 = p + text;
    assert(t2[0] == '\u{feff}');
    lemma_bom_end_shift(text, 0);
    let k = bom_end(text, 0);
    lemma_bom_end_bounds(text, 0);
    assert(bom_end(t2, 0) == k + 1);
    lemma_shift_playlist_lines(p, text, k);
    lemma_shift_upper_contains(p, text, k, "#EXT-X-TARGETDURATION"@);
    lemma_shift_upper_contains(p, text, k, "#EXT-X-STREAM-INF"@);
}

/// The streaming schemes are exactly `http`, `https`, `rtsp`, `rtmp`, `udp` and `rtp`.
pub proof fn law_stream_schemes(scheme: Seq<char>)
    ensures
        is_stream_scheme(scheme) <==> (scheme == "http"@ || scheme == "https"@ || scheme == "rtsp"@
            || scheme == "rtmp"@ || scheme == "udp"@ || scheme == "rtp"@),
{
}

/// An address line (one that does not start with `#`) whose address resolves
/// to a URL with scheme `http`, `https`, `rtsp`, `rtmp`, `udp` or `rtp`, which
/// no channel found so far plays, adds one channel of the source, playing that
/// URL, after the channels already found.
pub proof fn law_stream_entry_added(st: EntryState, line: Seq<char>, source_id: Seq<char>, base: Option<UrlView>, u: UrlView)
    requires
        line.len() > 0,
        line[0] != '#',
        resolve_target(stream_target(line), base) == Some(u),
        u.scheme == "http"@ || u.scheme == "https"@ || u.scheme == "rtsp"@ || u.scheme == "rtmp"@
            || u.scheme == "udp"@ || u.scheme == "rtp"@,
        forall|i: int| 0 <= i < st.found.len() ==> (#[trigger] st.found[i]).url != u.text,
    ensures
        ({
            let f = read_line(st, line, source_id, base).found;
            &&& f.len() == st.found.len() + 1
            &&& f.subrange(0, st.found.len() as int) == st.found
            &&& f[st.found.len() as int].url == u.text
            &&& f[st.found.len() as int].source_id == source_id
        }),
{
    reveal_strlit("#EXTINF:");
    reveal_strlit("#EXTGRP:");
    assert(!starts_with_ci(line, "#EXTINF:"@)) by {
        assert(ascii_lower(line[0]) != ascii_lower("#EXTINF:"@[0]));
    }
    assert(!starts_with_ci(line, "#EXTGRP:"@)) by {
        assert(ascii_lower(line[0]) != ascii_lower("#EXTGRP:"@[0]));
    }
    assert(!has_url(st.found, u.text));
    let f = read_line(st, line, source_id, base).found;
    assert(f.subrange(0, st.found.len() as int) =~= st.found);
}

/// An address line whose address does not resolve, or resolves to a URL whose
/// scheme is none of `http`, `https`, `rtsp`, `rtmp`, `udp`, `rtp`, adds no channel.
pub proof fn law_other_entry_skipped(st: EntryState, line: Seq<char>, source_id: Seq<char>, base: Option<UrlView>)
    requires
        line.len() > 0,
        line[0] != '#',
        resolve_target(stream_target(line), base) matches Some(u) ==> !(u.scheme == "http"@
            || u.scheme == "https"@ || u.scheme == "rtsp"@ || u.scheme == "rtmp"@ || u.scheme
            == "udp"@ || u.scheme == "rtp"@),
    ensures
        read_line(st, line, source_id, base).found == st.found,
{
    reveal_strlit("#EXTINF:");
    reveal_strlit("#EXTGRP:");
    assert(!starts_with_ci(line, "#EXTINF:"@)) by {
        assert(ascii_lower(line[0]) != ascii_lower("#EXTINF:"@[0]));
    }
    assert(!starts_with_ci(line, "#EXTGRP:"@)) by {
        assert(ascii_lower(line[0]) != ascii_lower("#EXTGRP:"@[0]));
    }
}

proof fn lemma_find_missing(s: Seq<char>, i: int, q: char)
    requires
        0 <= i <= s.len(),
        forall|k: int| i <= k < s.len() ==> s[k] != q,
    ensures
        find_char(s, i, q) == s.len(),
    decreases s.len() - i,
{
    if i < s.len() {
        lemma_find_missing(s, i + 1, q);
    }
}

/// A playlist made of the `#EXTM3U` header and one address line (trimmed, on
/// one line, not a `#` line, the text not marked as HLS) whose address
/// resolves to a URL with scheme `http`, `https`, `rtsp`, `rtmp`, `udp` or
/// `rtp` gives exactly one channel: that URL, of the source.
pub proof fn law_one_stream_playlist(line: Seq<char>, source_id: Seq<char>, location: Seq<char>, u: UrlView)
    requires
        line.len() > 0,
        line[0] != '#',
        !crate::text::is_white_space(line[0]),
        !crate::text::is_white_space(line[line.len() - 1]),
        forall|k: int| 0 <= k < line.len() ==> line[k] != '\n',
        !is_hls_stream("#EXTM3U\n"@ + line, 0),
        resolve_target(stream_target(line), remote_url_of(location)) == Some(u),
        u.scheme == "http"@ || u.scheme == "https"@ || u.scheme == "rtsp"@ || u.scheme == "rtmp"@
            || u.scheme == "udp"@ || u.scheme == "rtp"@,
    ensures
        m3u_result("#EXTM3U\n"@ + line, source_id, location) matches Ok(v) && v.len() == 1
            && v[0].url == u.text && v[0].source_id == source_id,
{
    reveal_strlit("#EXTM3U\n");
    reveal_strlit("#EXTM3U");
    let t = "#EXTM3U\n"@ + line;
    let n = t.len() as int;
    assert(t[0] == '#');
    assert(bom_end(t, 0) == 0);
    assert(find_char(t, 7, '\n') == 7);
    assert(find_char(t, 6, '\n') == 7);
    assert(find_char(t, 5, '\n') == 7);
    assert(find_char(t, 4, '\n') == 7);
    assert(find_char(t, 3, '\n') == 7);
    assert(find_char(t, 2, '\n') == 7);
    assert(find_char(t, 1, '\n') == 7);
    assert(find_char(t, 0, '\n') == 7);
    assert(crate::text::skip_space(t, 0, 7) == 0);
    assert(crate::text::drop_trailing_space(t, 0, 7) == 7);
    assert forall|k: int| 8 <= k < n implies t[k] != '\n' by {
        assert(t[k] == line[k - 8]);
    }
    lemma_find_missing(t, 8, '\n');
    assert(t[8] == line[0]);
    assert(t[n - 1] == line[line.len() - 1]);
    assert(crate::text::skip_space(t, 8, n) == 8);
    assert(crate::text::drop_trailing_space(t, 8, n) == n);
    assert(line_bounds(t, n) == Seq::<(int, int)>::empty());
    assert(line_bounds(t, 8) =~= seq![(8int, n)]);
    assert(line_bounds(t, 0) =~= seq![(0int, 7int), (8int, n)]);
    let lines = playlist_lines(t, 0);
    assert(lines[0] =~= "#EXTM3U"@);
    assert(lines[1] =~= line);
    assert(upper_starts_with(lines[0], "#EXTM3U"@));
    assert(lines.len() == 2);
    let base = remote_url_of(location);
    law_stream_entry_added(start_state(), line, source_id, base, u);
    assert(read_lines(lines, 1, source_id, base) == start_state());
    assert(read_lines(lines, 2, source_id, base) == read_line(start_state(), line, source_id, base));
    let f = read_line(start_state(), line, source_id, base).found;
    assert(f.len() == 1);
    assert(m3u_result(t, source_id, location) == Ok::<Seq<ChannelView>, Seq<char>>(f));
}

/// A text whose first non-blank line is not the `#EXTM3U` header is refused
/// as no playlist.
pub proof fn law_header_required(text: Seq<char>, source_id: Seq<char>, location: Seq<char>)
    ensures
        ({
            let lines = playlist_lines(text, bom_end(text, 0));
            (lines.len() == 0 || !upper_starts_with(lines[0], "#EXTM3U"@)) ==> m3u_result(
                text,
                source_id,
                location,
            ) == Err::<Seq<ChannelView>, Seq<char>>(not_a_playlist())
        }),
{
}

} // verus!

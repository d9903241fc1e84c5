//! The `#EXTINF` line: where its attribute list ends, and the
//! `key=value` attributes in it.
//!
//! An attribute is a run of word characters and `-` (the key), optional white
//! space, `=`, optional white space and a value: a `"`-quoted or `'`-quoted
//! text that has its closing quote, or else a run of characters other than
//! white space. The list is searched from left to right, as a regular
//! expression search for `([\w-]+)\s*=\s*(?:"([^"]*)"|'([^']*)'|([^\s]+))`
//! goes: at each position the first attribute that starts there is taken,
//! and the search goes on after it; where none starts, at the next position.

use crate::text::{
    byte_offset, utf8_size,
    chars_of, copy_range, find_char, find_char_of, is_white_space, is_whitespace, lower_all, lowered, skip_space, trim,
    trimmed,
};
use vstd::prelude::*;

verus! {

/// What `regex_syntax::is_word_character` says of `c`: whether `c` is in the
/// Unicode word class `\w`.
pub uninterp spec fn unicode_word(c: char) -> bool;

/// The ASCII word characters `[_0-9a-zA-Z]`.
pub open spec fn ascii_word(c: char) -> bool {
    let v = c as u32;
    ||| 48 <= v <= 57
    ||| 65 <= v <= 90
    ||| 97 <= v <= 122
    ||| v == 95
}

/// `regex_syntax::is_word_character(c)`.
///
/// Trusted: the result is `unicode_word(c)`, the name for the Unicode class
/// `\w` (Alphabetic, Mark, Decimal_Number, Connector_Punctuation,
/// Join_Control); on ASCII characters it is `[_0-9a-zA-Z]`, as the crate's
/// source answers them before its table (whose ASCII ranges are the same).
#[verifier::external_body]
pub fn is_word_character(c: char) -> (r: bool)
    ensures
        r == unicode_word(c),
        (c as u32) < 128 ==> (r <==> ascii_word(c)),
{
    regex_syntax::is_word_character(c)
}

/// A character that may stand in an attribute key: `[\w-]`.
pub open spec fn is_key_char(c: char) -> bool {
    unicode_word(c) || c == '-'
}

/// End of the run of key characters that starts at `i`.
pub open spec fn key_end(s: Seq<char>, i: int) -> int
    decreases s.len() - i,
{
    if 0 <= i < s.len() && is_key_char(s[i]) {
        key_end(s, i + 1)
    } else {
        i
    }
}

/// End of the run of characters other than white space that starts at `i`.
pub open spec fn token_end(s: Seq<char>, i: int) -> int
    decreases s.len() - i,
{
    if 0 <= i < s.len() && !is_white_space(s[i]) {
        token_end(s, i + 1)
    } else {
        i
    }
}

/// The value that starts at `r`: where it ends (past a closing quote), and
/// the bounds of its text. `None` where no value starts there.
pub open spec fn value_at(s: Seq<char>, r: int) -> Option<(int, int, int)> {
    if r < 0 || r >= s.len() || is_white_space(s[r]) {
        None
    } else if s[r] == '"' && find_char(s, r + 1, '"') < s.len() {
        let q = find_char(s, r + 1, '"');
        Some((q + 1, r + 1, q))
    } else if s[r] == '\'' && find_char(s, r + 1, '\'') < s.len() {
        let q = find_char(s, r + 1, '\'');
        Some((q + 1, r + 1, q))
    } else {
        let e = token_end(s, r);
        Some((e, r, e))
    }
}

/// The attribute that starts at `p`: where it ends, where its key ends, and
/// the bounds of its value. `None` where no attribute starts there.
pub open spec fn attribute_at(s: Seq<char>, p: int) -> Option<(int, int, int, int)> {
    if 0 <= p < s.len() && is_key_char(s[p]) {
        let ke = key_end(s, p);
        let q = skip_space(s, ke, s.len() as int);
        if q < s.len() && s[q] == '=' {
            match value_at(s, skip_space(s, q + 1, s.len() as int)) {
                Some((end, va, vb)) => Some((end, ke, va, vb)),
                None => None,
            }
        } else {
            None
        }
    } else {
        None
    }
}

/// The attributes found from position `p` on, as raw (key, value) pairs.
pub open spec fn scan_attributes(s: Seq<char>, p: int) -> Seq<(Seq<char>, Seq<char>)>
    decreases s.len() - p,
{
    if p < 0 || p >= s.len() {
        seq![]
    } else {
        match attribute_at(s, p) {
            Some((end, ke, va, vb)) => if p < end <= s.len() {
                seq![(s.subrange(p, ke), s.subrange(va, vb))] + scan_attributes(s, end)
            } else {
                seq![]
            },
            None => scan_attributes(s, p + 1),
        }
    }
}

/// The attributes of an attribute list: keys ASCII lower-cased, values
/// trimmed, in the order in which they stand.
pub open spec fn attributes_of(s: Seq<char>) -> Seq<(Seq<char>, Seq<char>)> {
    scan_attributes(s, 0).map_values(|kv: (Seq<char>, Seq<char>)| (lower_all(kv.0), trim(kv.1)))
}

pub open spec fn pairs_view(v: Seq<(Vec<char>, Vec<char>)>) -> Seq<(Seq<char>, Seq<char>)> {
    v.map_values(|kv: (Vec<char>, Vec<char>)| (kv.0@, kv.1@))
}

/// Index of the comma that ends the attribute list of an `#EXTINF` line,
/// scanning from `i` with `quote` the quote character that is open there:
/// a `"` or `'` opens a quoted text that the same character closes, and a
/// comma inside one does not count.
pub open spec fn comma_from(s: Seq<char>, i: int, quote: Option<char>) -> Option<int>
    decreases s.len() - i,
{
    if i < 0 || i >= s.len() {
        None
    } else {
        let c = s[i];
        match quote {
            Some(q) => if c == q {
                comma_from(s, i + 1, None)
            } else {
                comma_from(s, i + 1, quote)
            },
            None => if c == '"' || c == '\'' {
                comma_from(s, i + 1, Some(c))
            } else if c == ',' {
                Some(i)
            } else {
                comma_from(s, i + 1, None)
            },
        }
    }
}

/// The comma that separates the attributes of an `#EXTINF` line from its title.
pub open spec fn metadata_comma_of(s: Seq<char>) -> Option<int> {
    comma_from(s, 0, None)
}

/// Index, in characters, of the comma that separates the attributes of an
/// `#EXTINF` line (given by its characters) from its title.
pub fn comma_index(s: &[char]) -> (r: Option<usize>)
    ensures
        match r {
            Some(i) => metadata_comma_of(s@) == Some(i as int),
            None => metadata_comma_of(s@) is None,
        },
        r matches Some(i) ==> i < s@.len() && s@[i as int] == ',',
{
    let mut quote: Option<char> = None;
    let mut i: usize = 0;
    while i < s.len()
        invariant
            i <= s@.len(),
            comma_from(s@, 0, None) == comma_from(s@, i as int, quote),
        decreases s@.len() - i,
    {
        let c = s[i];
        match quote {
            Some(q) => {
                if c == q {
                    quote = None;
                }
            },
            None => {
                if c == '"' || c == '\'' {
                    quote = Some(c);
                } else if c == ',' {
                    return Some(i);
                }
            },
        }
        i = i + 1;
    }
    None
}

/// Byte offset of the comma that separates the attributes of an `#EXTINF`
/// line from its title (the offset at which the line can be sliced); commas
/// inside quoted attribute values do not count. `None` where there is no
/// such comma.
pub fn metadata_comma(line: &str) -> (r: Option<usize>)
    ensures
        match (r, metadata_comma_of(line@)) {
            (Some(i), Some(k)) => i == utf8_size(line@.take(k)),
            (None, None) => true,
            _ => false,
        },
{
    let chars = chars_of(line);
    match comma_index(chars.as_slice()) {
        Some(k) => Some(byte_offset(line, k)),
        None => None,
    }
}

fn key_end_of(s: &[char], i: usize) -> (r: usize)
    requires
        i <= s@.len(),
    ensures
        r as int == key_end(s@, i as int),
        i <= r <= s@.len(),
{
    let mut j = i;
    while j < s.len() && (s[j] == '-' || is_word_character(s[j]))
        invariant
            i <= j <= s@.len(),
            key_end(s@, i as int) == key_end(s@, j as int),
        decreases s@.len() - j,
    {
        j = j + 1;
    }
    j
}

fn token_end_of(s: &[char], i: usize) -> (r: usize)
    requires
        i <= s@.len(),
    ensures
        r as int == token_end(s@, i as int),
        i <= r <= s@.len(),
{
    let mut j = i;
    while j < s.len() && !is_whitespace(s[j])
        invariant
            i <= j <= s@.len(),
            token_end(s@, i as int) == token_end(s@, j as int),
        decreases s@.len() - j,
    {
        j = j + 1;
    }
    j
}

fn skip_space_of(s: &[char], i: usize) -> (r: usize)
    requires
        i <= s@.len(),
    ensures
        r as int == skip_space(s@, i as int, s@.len() as int),
        i <= r <= s@.len(),
{
    let mut j = i;
    while j < s.len() && is_whitespace(s[j])
        invariant
            i <= j <= s@.len(),
            skip_space(s@, i as int, s@.len() as int) == skip_space(s@, j as int, s@.len() as int),
        decreases s@.len() - j,
    {
        j = j + 1;
    }
    j
}

fn value_at_of(s: &[char], r: usize) -> (res: Option<(usize, usize, usize)>)
    requires
        r <= s@.len(),
    ensures
        match res {
            Some((e, a, b)) => value_at(s@, r as int) == Some((e as int, a as int, b as int)) && r < e
                <= s@.len() && r <= a <= b <= s@.len(),
            None => value_at(s@, r as int) is None,
        },
{
    if r >= s.len() || is_whitespace(s[r]) {
        return None;
    }
    if s[r] == '"' {
        let q = find_char_of(s, r + 1, '"');
        if q < s.len() {
            return Some((q + 1, r + 1, q));
        }
    }
    if s[r] == '\'' {
        let q = find_char_of(s, r + 1, '\'');
        if q < s.len() {
            return Some((q + 1, r + 1, q));
        }
    }
    let e = token_end_of(s, r + 1);
    Some((e, r, e))
}

fn attribute_at_of(s: &[char], p: usize) -> (res: Option<(usize, usize, usize, usize)>)
    requires
        p < s@.len(),
    ensures
        match res {
            Some((end, ke, va, vb)) => attribute_at(s@, p as int) == Some(
                (end as int, ke as int, va as int, vb as int),
            ) && p < ke <= end <= s@.len() && va <= vb <= s@.len(),
            None => attribute_at(s@, p as int) is None,
        },
{
    if !(s[p] == '-' || is_word_character(s[p])) {
        return None;
    }
    let ke = key_end_of(s, p + 1);
    let q = skip_space_of(s, ke);
    if q < s.len() && s[q] == '=' {
        let r = skip_space_of(s, q + 1);
        match value_at_of(s, r) {
            Some((end, va, vb)) => Some((end, ke, va, vb)),
            None => None,
        }
    } else {
        None
    }
}

/// The attributes of an attribute list, keys lower-cased and values trimmed.
pub fn parse_attributes(s: &[char]) -> (r: Vec<(Vec<char>, Vec<char>)>)
    ensures
        pairs_view(r@) == attributes_of(s@),
{
    let mut raw: Vec<(Vec<char>, Vec<char>)> = Vec::new();
    let mut out: Vec<(Vec<char>, Vec<char>)> = Vec::new();
    let mut p: usize = 0;
    while p < s.len()
        invariant
            p <= s@.len(),
            scan_attributes(s@, 0) == pairs_view(raw@) + scan_attributes(s@, p as int),
            pairs_view(out@) == pairs_view(raw@).map_values(
                |kv: (Seq<char>, Seq<char>)| (lower_all(kv.0), trim(kv.1)),
            ),
        decreases s@.len() - p,
    {
        match attribute_at_of(s, p) {
            Some((end, ke, va, vb)) => {
                let key = copy_range(s, p, ke);
                let value = copy_range(s, va, vb);
                let lk = lowered(key.as_slice());
                let tv = trimmed(value.as_slice());
                let ghost old_raw = raw@;
                let ghost old_out = out@;
                raw.push((key, value));
                out.push((lk, tv));
                assert(pairs_view(raw@) =~= pairs_view(old_raw).push((s@.subrange(p as int, ke as int), s@.subrange(va as int, vb as int))));
                assert(pairs_view(out@) =~= pairs_view(old_out).push((lk@, tv@)));
                assert(pairs_view(out@) =~= pairs_view(raw@).map_values(
                    |kv: (Seq<char>, Seq<char>)| (lower_all(kv.0), trim(kv.1)),
                ));
                p = end;
            },
            None => {
                p = p + 1;
            },
        }
    }
    assert(scan_attributes(s@, p as int) =~= seq![]);
    assert(pairs_view(raw@) + seq![] =~= pairs_view(raw@));
    out
}

} // verus!

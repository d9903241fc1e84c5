//! Torrent search bookkeeping: the info hash of a magnet link, results
//! without repeated hashes, the query as trackers receive it, and which
//! tracker extensions a search asks.

use crate::text::{opt_string_view, chars_eq, chars_of, find_char, find_char_of, str_eq, string_of};
use vstd::prelude::*;

verus! {

/// What `str::to_lowercase` makes of `s` (the Unicode lower-case mapping).
pub uninterp spec fn unicode_lowercase(s: Seq<char>) -> Seq<char>;

/// `str::to_lowercase(s)`.
///
/// Trusted: the result is `unicode_lowercase(s)`, the name for what the
/// Unicode lower-case mapping of std gives.
#[verifier::external_body]
pub fn to_lowercase(s: &str) -> (r: String)
    ensures
        r@ == unicode_lowercase(s@),
{
    s.to_lowercase()
}

/// The parameter that carries the hash of a BitTorrent magnet link.
pub open spec fn btih_prefix() -> Seq<char> {
    "xt=urn:btih:"@
}

/// The query part of a magnet link: what follows its first `?`, or the whole
/// link where it has none.
pub open spec fn query_start(m: Seq<char>) -> int {
    let q = find_char(m, 0, '?');
    if q < m.len() {
        q + 1
    } else {
        0
    }
}

/// The hash of the first `&`-separated parameter of `m`, starting at `i`,
/// that begins with `xt=urn:btih:`.
pub open spec fn hash_from(m: Seq<char>, i: int) -> Option<Seq<char>>
    decreases m.len() - i,
{
    if i < 0 || i > m.len() {
        None
    } else {
        let n = find_char(m, i, '&');
        let part = m.subrange(i, n);
        if btih_prefix().len() <= part.len() && part.subrange(0, btih_prefix().len() as int)
            == btih_prefix() {
            Some(part.subrange(btih_prefix().len() as int, part.len() as int))
        } else if i <= n < m.len() {
            hash_from(m, n + 1)
        } else {
            None
        }
    }
}

/// The info hash of a magnet link as it stands in the link.
pub open spec fn raw_info_hash(m: Seq<char>) -> Option<Seq<char>> {
    hash_from(m, query_start(m))
}

/// The info hash of a magnet link, lower-cased.
pub open spec fn info_hash(m: Seq<char>) -> Option<Seq<char>> {
    match raw_info_hash(m) {
        Some(h) => Some(unicode_lowercase(h)),
        None => None,
    }
}

fn starts_with_btih(s: &[char], i: usize, n: usize) -> (r: bool)
    requires
        i <= n <= s@.len(),
    ensures
        r == (btih_prefix().len() <= n - i && s@.subrange(i as int, n as int).subrange(
            0,
            btih_prefix().len() as int,
        ) == btih_prefix()),
{
    proof {
        reveal_strlit("xt=urn:btih:");
    }
    let prefix = "xt=urn:btih:";
    if n - i < 12 {
        return false;
    }
    let head = vstd::slice::slice_subrange(s, i, i + 12);
    assert(head@ =~= s@.subrange(i as int, n as int).subrange(0, 12));
    chars_eq(head, prefix)
}

/// The info hash of a magnet link exactly as it stands there: the rest of
/// the first `&`-separated parameter of its query that begins with
/// `xt=urn:btih:`.
pub fn raw_info_hash_of(magnet: &str) -> (r: Option<String>)
    ensures
        opt_string_view(r) == raw_info_hash(magnet@),
{
    proof {
        reveal_strlit("xt=urn:btih:");
    }
    let m = chars_of(magnet);
    let q = find_char_of(m.as_slice(), 0, '?');
    let mut i = if q < m.len() {
        q + 1
    } else {
        0
    };
    loop
        invariant
            i <= m@.len(),
            m@ == magnet@,
            raw_info_hash(magnet@) == hash_from(m@, i as int),
            btih_prefix().len() == 12,
        decreases m@.len() - i,
    {
        let n = find_char_of(m.as_slice(), i, '&');
        if starts_with_btih(m.as_slice(), i, n) {
            let h = vstd::slice::slice_subrange(m.as_slice(), i + 12, n);
            assert(h@ =~= m@.subrange(i as int, n as int).subrange(12, n - i));
            return Some(string_of(h));
        }
        if n < m.len() {
            i = n + 1;
        } else {
            return None;
        }
    }
}

/// The lower-cased info hash of a magnet link, by which search results are
/// told apart; `None` for a link without one.
pub fn extract_info_hash(magnet: &str) -> (r: Option<String>)
    ensures
        opt_string_view(r) == info_hash(magnet@),
{
    match raw_info_hash_of(magnet) {
        Some(h) => Some(to_lowercase(h.as_str())),
        None => None,
    }
}


/// The indices `i < n` with `p[i]`, in increasing order.
pub open spec fn indices_where(p: Seq<bool>, n: int) -> Seq<usize>
    decreases n,
{
    if n <= 0 {
        seq![]
    } else if p[n - 1] {
        indices_where(p, n - 1).push((n - 1) as usize)
    } else {
        indices_where(p, n - 1)
    }
}

/// Some result before `i` has the hash `h`.
pub open spec fn hash_seen_before(hashes: Seq<Option<Seq<char>>>, i: int, h: Seq<char>) -> bool {
    exists|j: int| 0 <= j < i && #[trigger] hashes[j] == Some(h)
}

/// Which results stay: those without a hash, and the first of those with each hash.
pub open spec fn first_of_each_hash(hashes: Seq<Option<Seq<char>>>) -> Seq<bool> {
    Seq::new(
        hashes.len(),
        |i: int|
            match hashes[i] {
                Some(h) => !hash_seen_before(hashes, i, h),
                None => true,
            },
    )
}

pub open spec fn magnet_hashes(magnets: Seq<String>) -> Seq<Option<Seq<char>>> {
    magnets.map_values(|m: String| info_hash(m@))
}

fn contains_string(v: &Vec<String>, s: &String) -> (r: bool)
    ensures
        r == (exists|k: int| 0 <= k < v@.len() && #[trigger] v@[k]@ == s@),
{
    let mut i: usize = 0;
    while i < v.len()
        invariant
            i <= v@.len(),
            forall|k: int| 0 <= k < i ==> v@[k]@ != s@,
        decreases v@.len() - i,
    {
        if v[i] == *s {
            return true;
        }
        i = i + 1;
    }
    false
}

/// Indices of the search results (given by their magnet links) that remain
/// once results repeating an earlier info hash are dropped; results whose
/// link has no hash all remain. The order is kept.
pub fn distinct_results(magnets: &Vec<String>) -> (r: Vec<usize>)
    ensures
        r@ == indices_where(first_of_each_hash(magnet_hashes(magnets@)), magnets@.len() as int),
{
    let ghost hs = magnet_hashes(magnets@);
    let ghost keep = first_of_each_hash(hs);
    let mut seen: Vec<String> = Vec::new();
    let mut out: Vec<usize> = Vec::new();
    let mut i: usize = 0;
    while i < magnets.len()
        invariant
            i <= magnets@.len(),
            hs == magnet_hashes(magnets@),
            keep == first_of_each_hash(hs),
            out@ == indices_where(keep, i as int),
            forall|k: int| 0 <= k < seen@.len() ==> hash_seen_before(hs, i as int, #[trigger] seen@[k]@),
            forall|j: int| 0 <= j < i ==> (#[trigger] hs[j] matches Some(h) ==> exists|k: int|
                0 <= k < seen@.len() && #[trigger] seen@[k]@ == h),
        decreases magnets@.len() - i,
    {
        let h = extract_info_hash(magnets[i].as_str());
        assert(hs[i as int] == opt_string_view(h));
        match h {
            Some(h) => {
                if !contains_string(&seen, &h) {
                    assert(!hash_seen_before(hs, i as int, h@)) by {
                        if hash_seen_before(hs, i as int, h@) {
                            let j = choose|j: int| 0 <= j < i && #[trigger] hs[j] == Some(h@);
                            assert(hs[j] matches Some(x) && x == h@);
                        }
                    }
                    let ghost old_seen = seen@;
                    seen.push(h);
                    out.push(i);
                    assert forall|k: int| 0 <= k < seen@.len() implies hash_seen_before(
                        hs,
                        i + 1,
                        #[trigger] seen@[k]@,
                    ) by {
                        if k < old_seen.len() {
                            assert(hash_seen_before(hs, i as int, old_seen[k]@));
                        } else {
                            assert(hs[i as int] == Some(seen@[k]@));
                        }
                    }
                    assert forall|j: int| 0 <= j < i + 1 implies (#[trigger] hs[j] matches Some(x)
                        ==> exists|k: int| 0 <= k < seen@.len() && #[trigger] seen@[k]@ == x) by {
                        if j < i {
                            if let Some(x) = hs[j] {
                                let k = choose|k: int| 0 <= k < old_seen.len() && #[trigger] old_seen[k]@ == x;
                                assert(seen@[k] == old_seen[k]);
                            }
                        } else {
                            assert(seen@[old_seen.len() as int]@ == h@);
                        }
                    }
                } else {
                    assert(hash_seen_before(hs, i as int, h@)) by {
                        let k = choose|k: int| 0 <= k < seen@.len() && #[trigger] seen@[k]@ == h@;
                        assert(hash_seen_before(hs, i as int, seen@[k]@));
                    }
                    assert forall|k: int| 0 <= k < seen@.len() implies hash_seen_before(
                        hs,
                        i + 1,
                        #[trigger] seen@[k]@,
                    ) by {
                        assert(hash_seen_before(hs, i as int, seen@[k]@));
                    }
                }
            },
            None => {
                out.push(i);
                assert forall|k: int| 0 <= k < seen@.len() implies hash_seen_before(
                    hs,
                    i + 1,
                    #[trigger] seen@[k]@,
                ) by {
                    assert(hash_seen_before(hs, i as int, seen@[k]@));
                }
            },
        }
        i = i + 1;
    }
    out
}

/// The query as tracker extensions receive it: `-`, `:` and `_` become spaces.
pub open spec fn normalized_query(q: Seq<char>) -> Seq<char> {
    q.map_values(|c: char| if c == '-' || c == ':' || c == '_' { ' ' } else { c })
}

pub fn normalize_query(query: &str) -> (r: String)
    ensures
        r@ == normalized_query(query@),
{
    let q = chars_of(query);
    let mut out: Vec<char> = Vec::new();
    let mut i: usize = 0;
    while i < q.len()
        invariant
            i <= q@.len(),
            q@ == query@,
            out@ == normalized_query(q@.take(i as int)),
        decreases q@.len() - i,
    {
        let c = q[i];
        out.push(if c == '-' || c == ':' || c == '_' { ' ' } else { c });
        i = i + 1;
        assert(normalized_query(q@.take(i as int)) =~= normalized_query(q@.take(i - 1)).push(
            if c == '-' || c == ':' || c == '_' { ' ' } else { c },
        ));
    }
    assert(q@.take(i as int) =~= q@);
    string_of(out.as_slice())
}

/// A tracker extension as the search sees it: its id, and whether it serves
/// anime (`None`: it does not say).
pub struct TrackerInfo {
    pub id: String,
    pub is_anime: Option<bool>,
}

/// The search picks its trackers itself: no preference was given, or an empty one.
pub open spec fn auto_mode(preference: Option<Seq<Seq<char>>>) -> bool {
    match preference {
        Some(p) => p.len() == 0,
        None => true,
    }
}

pub open spec fn preference_view(p: Option<Vec<String>>) -> Option<Seq<Seq<char>>> {
    match p {
        Some(v) => Some(v@.map_values(|s: String| s@)),
        None => None,
    }
}

/// Whether a tracker takes part in a search: in automatic mode those that
/// serve the kind of media searched for (anime or not), otherwise those named
/// in the preference.
pub open spec fn tracker_selected(t: TrackerInfo, preference: Option<Seq<Seq<char>>>, anime: bool) -> bool {
    if auto_mode(preference) {
        t.is_anime == Some(anime)
    } else {
        preference->0.contains(t.id@)
    }
}

pub open spec fn selection_flags(trackers: Seq<TrackerInfo>, preference: Option<Seq<Seq<char>>>, anime: bool) -> Seq<bool> {
    Seq::new(trackers.len(), |i: int| tracker_selected(trackers[i], preference, anime))
}

/// Whether the search picks its trackers itself.
pub fn is_auto_mode(preference: &Option<Vec<String>>) -> (r: bool)
    ensures
        r == auto_mode(preference_view(*preference)),
{
    match preference {
        Some(p) => p.len() == 0,
        None => true,
    }
}

/// Whether the media searched for is anime.
pub fn is_anime_search(media_type: &Option<String>) -> (r: bool)
    ensures
        r == (media_type matches Some(m) && m@ == "anime"@),
{
    match media_type {
        Some(m) => str_eq(m.as_str(), "anime"),
        None => false,
    }
}

fn names_contain(names: &Vec<String>, id: &String) -> (r: bool)
    ensures
        r == names@.map_values(|s: String| s@).contains(id@),
{
    let ghost view = names@.map_values(|s: String| s@);
    let found = contains_string(names, id);
    proof {
        if found {
            let k = choose|k: int| 0 <= k < names@.len() && #[trigger] names@[k]@ == id@;
            assert(view[k] == id@);
        } else {
            assert forall|k: int| 0 <= k < view.len() implies view[k] != id@ by {
                assert(view[k] == names@[k]@);
            }
        }
    }
    found
}

/// Indices, in order, of the trackers that a search asks.
pub fn select_trackers(trackers: &Vec<TrackerInfo>, preference: &Option<Vec<String>>, anime: bool) -> (r: Vec<usize>)
    ensures
        r@ == indices_where(
            selection_flags(trackers@, preference_view(*preference), anime),
            trackers@.len() as int,
        ),
{
    let ghost flags = selection_flags(trackers@, preference_view(*preference), anime);
    let auto = is_auto_mode(preference);
    let mut out: Vec<usize> = Vec::new();
    let mut i: usize = 0;
    while i < trackers.len()
        invariant
            i <= trackers@.len(),
            flags == selection_flags(trackers@, preference_view(*preference), anime),
            auto == auto_mode(preference_view(*preference)),
            out@ == indices_where(flags, i as int),
        decreases trackers@.len() - i,
    {
        let t = &trackers[i];
        let chosen = if auto {
            match t.is_anime {
                Some(a) => a == anime,
                None => false,
            }
        } else {
            match preference {
                Some(p) => names_contain(p, &t.id),
                None => false,
            }
        };
        assert(chosen == flags[i as int]);
        if chosen {
            out.push(i);
        }
        i = i + 1;
    }
    out
}

/// Whether an automatic anime search that found nothing asks the general
/// trackers as well.
pub open spec fn wants_fallback(auto: bool, anime: bool, found_nothing: bool) -> bool {
    auto && anime && found_nothing
}

pub fn needs_fallback(auto: bool, anime: bool, found_nothing: bool) -> (r: bool)
    ensures
        r == wants_fallback(auto, anime, found_nothing),
{
    auto && anime && found_nothing
}

/// Indices, in order, of the general (not anime) trackers that the fallback asks.
pub fn fallback_trackers(trackers: &Vec<TrackerInfo>) -> (r: Vec<usize>)
    ensures
        r@ == indices_where(selection_flags(trackers@, None, false), trackers@.len() as int),
{
    select_trackers(trackers, &None, false)
}


// ---------------------------------------------------------------- laws

proof fn lemma_indices_where(p: Seq<bool>, n: int)
    requires
        0 <= n <= p.len(),
        n <= usize::MAX,
    ensures
        forall|j: int| 0 <= j < indices_where(p, n).len() ==> (#[trigger] indices_where(p, n)[j]) < n && p[indices_where(p, n)[j] as int],
        forall|j: int, k: int| 0 <= j < k < indices_where(p, n).len() ==> #[trigger] indices_where(p, n)[j] < #[trigger] indices_where(p, n)[k],
        forall|i: int| 0 <= i < n && #[trigger] p[i] ==> indices_where(p, n).contains(i as usize),
    decreases n,
{
    if n > 0 {
        lemma_indices_where(p, n - 1);
        let prev = indices_where(p, n - 1);
        let r = indices_where(p, n);
        if p[n - 1] {
            assert(r == prev.push((n - 1) as usize));
            assert forall|j: int| 0 <= j < r.len() implies (#[trigger] r[j]) < n && p[r[j] as int] by {
                if j < prev.len() {
                    assert(r[j] == prev[j]);
                }
            }
            assert forall|j: int, k: int| 0 <= j < k < r.len() implies #[trigger] r[j] < #[trigger] r[k] by {
                assert(r[j] == prev[j]);
                if k < prev.len() {
                    assert(r[k] == prev[k]);
                }
            }
            assert forall|i: int| 0 <= i < n && #[trigger] p[i] implies r.contains(i as usize) by {
                if i < n - 1 {
                    let j = choose|j: int| 0 <= j < prev.len() && prev[j] == i as usize;
                    assert(r[j] == prev[j]);
                } else {
                    assert(r[prev.len() as int] == (n - 1) as usize);
                }
            }
        }
    }
}

proof fn lemma_first_with_hash_kept(hs: Seq<Option<Seq<char>>>, i: int, h: Seq<char>)
    requires
        0 <= i < hs.len(),
        hs[i] == Some(h),
    ensures
        exists|f: int| 0 <= f <= i && #[trigger] hs[f] == Some(h) && first_of_each_hash(hs)[f],
    decreases i,
{
    if !first_of_each_hash(hs)[i] {
        let j = choose|j: int| 0 <= j < i && #[trigger] hs[j] == Some(h);
        lemma_first_with_hash_kept(hs, j, h);
    }
}

/// Of the search results that remain after de-duplication, no two share an
/// info hash; every result without a hash remains; every hash among the
/// results is still among those that remain; and the order is kept.
pub proof fn law_distinct_results(magnets: Seq<String>)
    requires
        magnets.len() <= usize::MAX,
    ensures
        ({
            let hs = magnet_hashes(magnets);
            let r = indices_where(first_of_each_hash(hs), magnets.len() as int);
            &&& forall|j: int| 0 <= j < r.len() ==> (#[trigger] r[j]) < magnets.len()
            &&& forall|j: int, k: int| 0 <= j < k < r.len() ==> #[trigger] r[j] < #[trigger] r[k]
            &&& forall|j: int, k: int|
                0 <= j < k < r.len() && #[trigger] hs[r[j] as int] is Some ==> hs[r[j] as int] != #[trigger] hs[r[k] as int]
            &&& forall|i: int| 0 <= i < magnets.len() && #[trigger] hs[i] is None ==> r.contains(i as usize)
            &&& forall|i: int| 0 <= i < magnets.len() && #[trigger] hs[i] is Some ==> exists|j: int| 0 <= j < r.len() && hs[#[trigger] r[j] as int] == hs[i]
        }),
{
    let hs = magnet_hashes(magnets);
    let p = first_of_each_hash(hs);
    let n = magnets.len() as int;
    let r = indices_where(p, n);
    lemma_indices_where(p, n);
    assert forall|j: int, k: int|
        0 <= j < k < r.len() && #[trigger] hs[r[j] as int] is Some implies hs[r[j] as int] != #[trigger] hs[r[k] as int] by {
        let a = r[j] as int;
        let b = r[k] as int;
        assert(a < b);
        assert(p[b]);
        if hs[a] == hs[b] {
            let h = hs[a]->0;
            assert(hs[a] == Some(h));
            assert(hash_seen_before(hs, b, h));
        }
    }
    assert forall|i: int| 0 <= i < n && #[trigger] hs[i] is None implies r.contains(i as usize) by {
        assert(p[i]);
    }
    assert forall|i: int| 0 <= i < n && #[trigger] hs[i] is Some implies exists|j: int| 0 <= j < r.len() && hs[#[trigger] r[j] as int] == hs[i] by {
        let h = hs[i]->0;
        lemma_first_with_hash_kept(hs, i, h);
        let f = choose|f: int| 0 <= f <= i && #[trigger] hs[f] == Some(h) && p[f];
        assert(r.contains(f as usize));
        let j = choose|j: int| 0 <= j < r.len() && r[j] == f as usize;
        assert(hs[r[j] as int] == hs[i]);
    }
}

proof fn lemma_find_absent(s: Seq<char>, i: int, q: char)
    requires
        0 <= i <= s.len(),
        forall|k: int| i <= k < s.len() ==> s[k] != q,
    ensures
        find_char(s, i, q) == s.len(),
    decreases s.len() - i,
{
    if i < s.len() {
        lemma_find_absent(s, i + 1, q);
    }
}

/// A magnet link whose query begins with the hash parameter gives that hash,
/// as long as the hash holds no `&` and the link no earlier `?`.
pub proof fn law_leading_hash(hash: Seq<char>)
    requires
        forall|k: int| 0 <= k < hash.len() ==> hash[k] != '&' && hash[k] != '?',
    ensures
        raw_info_hash("magnet:?xt=urn:btih:"@ + hash) == Some(hash),
{
    reveal_strlit("magnet:?xt=urn:btih:");
    reveal_strlit("xt=urn:btih:");
    let m = "magnet:?xt=urn:btih:"@ + hash;
    assert(m[0] != '?' && m[1] != '?' && m[2] != '?' && m[3] != '?' && m[4] != '?' && m[5] != '?' && m[6] != '?');
    assert(m[7] == '?');
    assert(find_char(m, 7, '?') == 7);
    assert(find_char(m, 6, '?') == 7);
    assert(find_char(m, 5, '?') == 7);
    assert(find_char(m, 4, '?') == 7);
    assert(find_char(m, 3, '?') == 7);
    assert(find_char(m, 2, '?') == 7);
    assert(find_char(m, 1, '?') == 7);
    assert(find_char(m, 0, '?') == 7);
    lemma_find_absent(m, 8, '&');
    let part = m.subrange(8, m.len() as int);
    assert(part.subrange(0, 12) =~= btih_prefix());
    assert(part.subrange(12, part.len() as int) =~= hash);
}

/// The normalized query has the length of the query: each `-`, `:` and `_`
/// becomes a space and every other character is kept as it is.
pub proof fn law_normalized_query(q: Seq<char>)
    ensures
        normalized_query(q).len() == q.len(),
        forall|i: int| 0 <= i < q.len() ==> {
            let c = #[trigger] normalized_query(q)[i];
            c != '-' && c != ':' && c != '_'
        },
        forall|i: int|
            0 <= i < q.len() && q[i] != '-' && q[i] != ':' && q[i] != '_' ==> #[trigger] normalized_query(q)[i] == q[i],
        forall|i: int|
            0 <= i < q.len() && (q[i] == '-' || q[i] == ':' || q[i] == '_') ==> #[trigger] normalized_query(q)[i] == ' ',
{
}

} // verus!

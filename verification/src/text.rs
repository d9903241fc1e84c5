//! Character-level helpers shared by the parsers: Unicode white space,
//! ASCII case folding, trimming and case-insensitive prefixes.

use vstd::prelude::*;

verus! {

/// The Unicode `White_Space` property, the class behind `char::is_whitespace`
/// and the `\s` of Unicode regular expressions.
pub open spec fn is_white_space(c: char) -> bool {
    let v = c as u32;
    ||| 9 <= v <= 13
    ||| v == 32
    ||| v == 0x85
    ||| v == 0xa0
    ||| v == 0x1680
    ||| 0x2000 <= v <= 0x200a
    ||| v == 0x2028
    ||| v == 0x2029
    ||| v == 0x202f
    ||| v == 0x205f
    ||| v == 0x3000
}

pub fn is_whitespace(c: char) -> (r: bool)
    ensures
        r == is_white_space(c),
{
    let v = c as u32;
    (9 <= v && v <= 13) || v == 32 || v == 0x85 || v == 0xa0 || v == 0x1680 || (0x2000 <= v
        && v <= 0x200a) || v == 0x2028 || v == 0x2029 || v == 0x202f || v == 0x205f || v
        == 0x3000
}

pub open spec fn is_ascii_upper(c: char) -> bool {
    65 <= (c as u32) <= 90
}

pub open spec fn is_ascii_lower(c: char) -> bool {
    97 <= (c as u32) <= 122
}

/// ASCII lower-casing of one character; every other character is kept.
pub open spec fn ascii_lower(c: char) -> char {
    if is_ascii_upper(c) {
        ((c as u32) + 32) as char
    } else {
        c
    }
}

/// ASCII upper-casing of one character; every other character is kept.
pub open spec fn ascii_upper(c: char) -> char {
    if is_ascii_lower(c) {
        ((c as u32) - 32) as char
    } else {
        c
    }
}

pub fn to_ascii_lower(c: char) -> (r: char)
    ensures
        r == ascii_lower(c),
{
    let v = c as u32;
    if 65 <= v && v <= 90 {
        let b: u8 = (v + 32) as u8;
        b as char
    } else {
        c
    }
}

pub fn to_ascii_upper(c: char) -> (r: char)
    ensures
        r == ascii_upper(c),
{
    let v = c as u32;
    if 97 <= v && v <= 122 {
        let b: u8 = (v - 32) as u8;
        b as char
    } else {
        c
    }
}


/// Index of the first character at or after `i` (and before `hi`) that is not
/// white space, or `hi` when there is none.
pub open spec fn skip_space(s: Seq<char>, i: int, hi: int) -> int
    decreases hi - i,
{
    if i < hi && is_white_space(s[i]) {
        skip_space(s, i + 1, hi)
    } else {
        i
    }
}

/// End of `s[lo..j]` once its trailing white space is dropped.
pub open spec fn drop_trailing_space(s: Seq<char>, lo: int, j: int) -> int
    decreases j - lo,
{
    if lo < j && is_white_space(s[j - 1]) {
        drop_trailing_space(s, lo, j - 1)
    } else {
        j
    }
}

/// Bounds of `s[lo..hi]` without its leading and trailing white space.
pub open spec fn trim_bounds(s: Seq<char>, lo: int, hi: int) -> (int, int) {
    let a = skip_space(s, lo, hi);
    (a, drop_trailing_space(s, a, hi))
}

/// `s` without leading and trailing white space, as `str::trim` gives it.
pub open spec fn trim(s: Seq<char>) -> Seq<char> {
    let (a, b) = trim_bounds(s, 0, s.len() as int);
    s.subrange(a, b)
}

/// `s` begins with `tag` when ASCII letters are compared without regard to
/// case (`eq_ignore_ascii_case` on a prefix of the same length).
pub open spec fn starts_with_ci(s: Seq<char>, tag: Seq<char>) -> bool {
    &&& tag.len() <= s.len()
    &&& forall|i: int| 0 <= i < tag.len() ==> ascii_lower(#[trigger] s[i]) == ascii_lower(tag[i])
}

/// The ASCII upper-case form of `s` begins with `tag`.
pub open spec fn upper_starts_with(s: Seq<char>, tag: Seq<char>) -> bool {
    &&& tag.len() <= s.len()
    &&& forall|i: int| 0 <= i < tag.len() ==> ascii_upper(#[trigger] s[i]) == tag[i]
}

/// Some suffix of `s` that starts at or after `from` begins, upper-cased, with `tag`:
/// the ASCII upper-case form of `s[from..]` contains `tag`.
pub open spec fn upper_contains(s: Seq<char>, from: int, tag: Seq<char>) -> bool {
    exists|j: int| from <= j <= s.len() && #[trigger] upper_starts_with(s.subrange(j, s.len() as int), tag)
}

pub fn trim_bounds_of(s: &[char], lo: usize, hi: usize) -> (r: (usize, usize))
    requires
        lo <= hi <= s@.len(),
    ensures
        r.0 as int == trim_bounds(s@, lo as int, hi as int).0,
        r.1 as int == trim_bounds(s@, lo as int, hi as int).1,
        lo <= r.0 <= r.1 <= hi,
{
    let mut a = lo;
    while a < hi && is_whitespace(s[a])
        invariant
            lo <= a <= hi <= s@.len(),
            skip_space(s@, lo as int, hi as int) == skip_space(s@, a as int, hi as int),
        decreases hi - a,
    {
        a = a + 1;
    }
    let mut b = hi;
    while a < b && is_whitespace(s[b - 1])
        invariant
            lo <= a <= b <= hi <= s@.len(),
            skip_space(s@, lo as int, hi as int) == a,
            drop_trailing_space(s@, a as int, hi as int) == drop_trailing_space(s@, a as int, b as int),
        decreases b - a,
    {
        b = b - 1;
    }
    (a, b)
}

/// A fresh vector holding `s[a..b]`.
pub fn copy_range(s: &[char], a: usize, b: usize) -> (r: Vec<char>)
    requires
        a <= b <= s@.len(),
    ensures
        r@ == s@.subrange(a as int, b as int),
{
    vstd::slice::slice_to_vec(vstd::slice::slice_subrange(s, a, b))
}

/// `s` without leading and trailing white space.
pub fn trimmed(s: &[char]) -> (r: Vec<char>)
    ensures
        r@ == trim(s@),
{
    let (a, b) = trim_bounds_of(s, 0, s.len());
    copy_range(s, a, b)
}

/// The characters of `s`, in order.
pub fn chars_of(s: &str) -> (r: Vec<char>)
    ensures
        r@ == s@,
{
    broadcast use vstd::string::group_string_axioms;
    let mut out: Vec<char> = Vec::new();
    for c in it: s.chars()
        invariant
            it.seq() == s@,
            out@ == it.seq().take(it.index() as int),
    {
        out.push(c);
    }
    out
}

/// The string made of the characters of `chars`, in order: `String`'s
/// `FromIterator<&char>`, which pushes each character in turn.
///
/// Trusted: the result holds exactly the characters of `chars`, in order.
#[verifier::external_body]
pub fn string_of(chars: &[char]) -> (r: String)
    ensures
        r@ == chars@,
{
    chars.iter().collect()
}

/// Whether `s` begins with `tag`, comparing ASCII letters without regard to case.
pub fn starts_with_tag(s: &[char], tag: &str) -> (r: bool)
    ensures
        r == starts_with_ci(s@, tag@),
{
    let n = tag.unicode_len();
    if n > s.len() {
        return false;
    }
    let mut i: usize = 0;
    while i < n
        invariant
            n == tag@.len(),
            n <= s@.len(),
            i <= n,
            forall|k: int| 0 <= k < i ==> ascii_lower(#[trigger] s@[k]) == ascii_lower(tag@[k]),
        decreases n - i,
    {
        if to_ascii_lower(s[i]) != to_ascii_lower(tag.get_char(i)) {
            return false;
        }
        i = i + 1;
    }
    true
}

/// Whether the ASCII upper-case form of `s` begins with `tag`.
pub fn upper_starts_with_tag(s: &[char], tag: &str) -> (r: bool)
    ensures
        r == upper_starts_with(s@, tag@),
{
    let n = tag.unicode_len();
    if n > s.len() {
        return false;
    }
    let mut i: usize = 0;
    while i < n
        invariant
            n == tag@.len(),
            n <= s@.len(),
            i <= n,
            forall|k: int| 0 <= k < i ==> ascii_upper(#[trigger] s@[k]) == tag@[k],
        decreases n - i,
    {
        if to_ascii_upper(s[i]) != tag.get_char(i) {
            return false;
        }
        i = i + 1;
    }
    true
}

/// Whether the ASCII upper-case form of `s[from..]` contains `tag`.
pub fn upper_contains_tag(s: &[char], from: usize, tag: &str) -> (r: bool)
    requires
        from <= s@.len(),
    ensures
        r == upper_contains(s@, from as int, tag@),
{
    let len = s.len();
    let mut j = from;
    while j < len
        invariant
            from <= j <= len,
            len == s@.len(),
            forall|k: int| from <= k < j ==> !#[trigger] upper_starts_with(s@.subrange(k, len as int), tag@),
        decreases len - j,
    {
        let rest = vstd::slice::slice_subrange(s, j, len);
        if upper_starts_with_tag(rest, tag) {
            return true;
        }
        j = j + 1;
    }
    let rest = vstd::slice::slice_subrange(s, len, len);
    let found = upper_starts_with_tag(rest, tag);
    assert(forall|k: int| from <= k <= len ==> (#[trigger] upper_starts_with(s@.subrange(k, len as int), tag@) ==> k == len));
    found
}

/// Whether `line` begins with `tag`, ASCII letters compared without regard to
/// case; a line shorter than the tag never does.
pub fn has_tag(line: &str, tag: &str) -> (r: bool)
    ensures
        r == starts_with_ci(line@, tag@),
{
    let chars = chars_of(line);
    starts_with_tag(chars.as_slice(), tag)
}


/// Whether two strings hold the same characters.
pub fn str_eq(a: &str, b: &str) -> (r: bool)
    ensures
        r == (a@ == b@),
{
    String::from_str(a) == String::from_str(b)
}

/// Whether the characters of `a` are exactly those of `b`.
pub fn chars_eq(a: &[char], b: &str) -> (r: bool)
    ensures
        r == (a@ == b@),
{
    let n = b.unicode_len();
    if n != a.len() {
        return false;
    }
    let mut i: usize = 0;
    while i < n
        invariant
            n == b@.len(),
            n == a@.len(),
            i <= n,
            forall|k: int| 0 <= k < i ==> a@[k] == b@[k],
        decreases n - i,
    {
        if a[i] != b.get_char(i) {
            return false;
        }
        i = i + 1;
    }
    assert(a@ =~= b@);
    true
}

/// Every ASCII letter of `s` lower-cased (`to_ascii_lowercase`).
pub open spec fn lower_all(s: Seq<char>) -> Seq<char> {
    s.map_values(|c: char| ascii_lower(c))
}

pub fn lowered(s: &[char]) -> (r: Vec<char>)
    ensures
        r@ == lower_all(s@),
{
    let mut out: Vec<char> = Vec::new();
    let mut i: usize = 0;
    while i < s.len()
        invariant
            i <= s@.len(),
            out@ == lower_all(s@.take(i as int)),
        decreases s@.len() - i,
    {
        out.push(to_ascii_lower(s[i]));
        i = i + 1;
        assert(lower_all(s@.take(i as int)) =~= lower_all(s@.take(i - 1)).push(ascii_lower(s@[i - 1])));
    }
    assert(s@.take(i as int) =~= s@);
    out
}


/// Index of the first `q` at or after `i`, or the length of `s`.
pub open spec fn find_char(s: Seq<char>, i: int, q: char) -> int
    decreases s.len() - i,
{
    if 0 <= i < s.len() && s[i] != q {
        find_char(s, i + 1, q)
    } else {
        i
    }
}

pub fn find_char_of(s: &[char], i: usize, q: char) -> (r: usize)
    requires
        i <= s@.len(),
    ensures
        r as int == find_char(s@, i as int, q),
        i <= r <= s@.len(),
        r < s@.len() ==> s@[r as int] == q,
{
    let mut j = i;
    while j < s.len() && s[j] != q
        invariant
            i <= j <= s@.len(),
            find_char(s@, i as int, q) == find_char(s@, j as int, q),
        decreases s@.len() - j,
    {
        j = j + 1;
    }
    j
}

/// The decimal digit for `d < 10`.
pub open spec fn digit(d: nat) -> char {
    ((48 + d) as u32) as char
}

/// The decimal numeral of `n`, without sign or leading zeros.
pub open spec fn decimal(n: nat) -> Seq<char>
    decreases n,
{
    if n < 10 {
        seq![digit(n)]
    } else {
        decimal(n / 10).push(digit(n % 10))
    }
}

pub fn decimal_of(n: usize) -> (r: Vec<char>)
    ensures
        r@ == decimal(n as nat),
    decreases n,
{
    if n < 10 {
        let b: u8 = (48 + n) as u8;
        let mut v: Vec<char> = Vec::new();
        v.push(b as char);
        v
    } else {
        let mut v = decimal_of(n / 10);
        let b: u8 = (48 + n % 10) as u8;
        v.push(b as char);
        v
    }
}


pub open spec fn opt_string_view(o: Option<String>) -> Option<Seq<char>> {
    match o {
        Some(s) => Some(s@),
        None => None,
    }
}

/// Index of the last `c` before `j`, or -1.
pub open spec fn last_index_of(s: Seq<char>, c: char, j: int) -> int
    decreases j,
{
    if j <= 0 || j > s.len() {
        -1
    } else if s[j - 1] == c {
        j - 1
    } else {
        last_index_of(s, c, j - 1)
    }
}

/// Number of bytes of `c` in UTF-8 (the widths of vstd's `encode_scalar`;
/// the surrogate range, which holds no `char`, falls to the last case there).
pub open spec fn utf8_len(c: char) -> nat {
    let v = c as u32;
    if v < 0x80 {
        1
    } else if v < 0x800 {
        2
    } else if v < 0x10000 && !(0xD800 <= v <= 0xDFFF) {
        3
    } else {
        4
    }
}

/// Number of bytes of `s` in UTF-8.
pub open spec fn utf8_size(s: Seq<char>) -> nat
    decreases s.len(),
{
    if s.len() == 0 {
        0
    } else {
        utf8_len(s[0]) + utf8_size(s.drop_first())
    }
}

pub proof fn lemma_utf8_size_encoding(s: Seq<char>)
    ensures
        utf8_size(s) == vstd::utf8::encode_utf8(s).len(),
    decreases s.len(),
{
    if s.len() > 0 {
        lemma_utf8_size_encoding(s.drop_first());
        assert(vstd::utf8::encode_scalar(s[0] as u32).len() == utf8_len(s[0]));
    }
}

pub proof fn lemma_utf8_size_append(a: Seq<char>, b: Seq<char>)
    ensures
        utf8_size(a + b) == utf8_size(a) + utf8_size(b),
    decreases a.len(),
{
    if a.len() == 0 {
        assert(a + b =~= b);
    } else {
        assert((a + b).drop_first() =~= a.drop_first() + b);
        lemma_utf8_size_append(a.drop_first(), b);
    }
}

/// Number of bytes of `c` in UTF-8 (`char::len_utf8`).
pub fn char_utf8_len(c: char) -> (r: usize)
    ensures
        r == utf8_len(c),
{
    let v = c as u32;
    if v < 0x80 {
        1
    } else if v < 0x800 {
        2
    } else if v < 0x10000 && !(0xD800 <= v && v <= 0xDFFF) {
        3
    } else {
        4
    }
}

/// The byte offset in `s` of its character `k`: the UTF-8 size of the
/// characters before it.
pub fn byte_offset(s: &str, k: usize) -> (r: usize)
    requires
        k <= s@.len(),
    ensures
        r == utf8_size(s@.take(k as int)),
{
    let bytes = s.as_bytes();
    let chars = chars_of(s);
    proof {
        lemma_utf8_size_encoding(s@);
    }
    let nbytes = bytes.len();
    proof {
        assert(nbytes == bytes@.len());
    }
    let mut off: usize = 0;
    let mut i: usize = 0;
    while i < k
        invariant
            i <= k <= chars@.len(),
            chars@ == s@,
            off == utf8_size(s@.take(i as int)),
            utf8_size(s@) <= usize::MAX,
        decreases k - i,
    {
        proof {
            assert(s@.take(i + 1) =~= s@.take(i as int) + seq![s@[i as int]]);
            lemma_utf8_size_append(s@.take(i as int), seq![s@[i as int]]);
            assert(seq![s@[i as int]].drop_first() =~= Seq::<char>::empty());
            assert(utf8_size(seq![s@[i as int]]) == utf8_len(s@[i as int]) + utf8_size(Seq::<char>::empty()));
            assert(s@ =~= s@.take(i + 1) + s@.skip(i + 1));
            lemma_utf8_size_append(s@.take(i + 1), s@.skip(i + 1));
        }
        off = off + char_utf8_len(chars[i]);
        i = i + 1;
    }
    off
}

} // verus!

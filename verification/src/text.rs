//! Character-level text handling shared by the AT, SMS and eSIM parsers.
//!
//! Every parser in this crate works on the `Seq<char>` view of its input. The
//! functions here give those parsers the familiar `str` operations (trimming,
//! prefix stripping, searching, splitting, number parsing and formatting) with
//! contracts stated over that view.

use vstd::prelude::*;

verus! {

/// The sets of characters that the parsers strip from the ends of a field.
#[derive(Clone, Copy)]
pub enum CharClass {
    /// Unicode `White_Space`, the set that `str::trim` removes.
    Whitespace,
    /// The double quote that wraps AT string fields.
    Quote,
    /// Carriage return, line feed, space and tab: the noise around a modem line.
    LineNoise,
}

/// Unicode `White_Space`, as `char::is_whitespace` defines it.
pub open spec fn is_unicode_whitespace(c: char) -> bool {
    let x = c as u32;
    ||| 0x09 <= x <= 0x0D
    ||| x == 0x20
    ||| x == 0x85
    ||| x == 0xA0
    ||| x == 0x1680
    ||| 0x2000 <= x <= 0x200A
    ||| x == 0x2028
    ||| x == 0x2029
    ||| x == 0x202F
    ||| x == 0x205F
    ||| x == 0x3000
}

pub open spec fn in_class(cls: CharClass, c: char) -> bool {
    match cls {
        CharClass::Whitespace => is_unicode_whitespace(c),
        CharClass::Quote => c == '"',
        CharClass::LineNoise => c == '\r' || c == '\n' || c == ' ' || c == '\t',
    }
}

pub fn char_in_class(cls: CharClass, c: char) -> (b: bool)
    ensures
        b == in_class(cls, c),
{
    let x = c as u32;
    match cls {
        CharClass::Whitespace => {
            (0x09 <= x && x <= 0x0D) || x == 0x20 || x == 0x85 || x == 0xA0 || x == 0x1680 || (
            0x2000 <= x && x <= 0x200A) || x == 0x2028 || x == 0x2029 || x == 0x202F || x
                == 0x205F || x == 0x3000
        },
        CharClass::Quote => c == '"',
        CharClass::LineNoise => c == '\r' || c == '\n' || c == ' ' || c == '\t',
    }
}

pub open spec fn is_ascii_digit(c: char) -> bool {
    '0' <= c && c <= '9'
}

pub open spec fn is_ascii_hexdigit(c: char) -> bool {
    ||| '0' <= c && c <= '9'
    ||| 'a' <= c && c <= 'f'
    ||| 'A' <= c && c <= 'F'
}

pub open spec fn is_ascii_alphanumeric(c: char) -> bool {
    ||| '0' <= c && c <= '9'
    ||| 'a' <= c && c <= 'z'
    ||| 'A' <= c && c <= 'Z'
}

pub fn char_is_ascii_digit(c: char) -> (b: bool)
    ensures
        b == is_ascii_digit(c),
{
    '0' <= c && c <= '9'
}

pub fn char_is_ascii_hexdigit(c: char) -> (b: bool)
    ensures
        b == is_ascii_hexdigit(c),
{
    ('0' <= c && c <= '9') || ('a' <= c && c <= 'f') || ('A' <= c && c <= 'F')
}

pub fn char_is_ascii_alphanumeric(c: char) -> (b: bool)
    ensures
        b == is_ascii_alphanumeric(c),
{
    ('0' <= c && c <= '9') || ('a' <= c && c <= 'z') || ('A' <= c && c <= 'Z')
}

/// `char::to_ascii_lowercase`.
pub open spec fn ascii_lower(c: char) -> char {
    if 'A' <= c && c <= 'Z' {
        (((c as u32) + 32) as u8) as char
    } else {
        c
    }
}

/// `char::to_ascii_uppercase`.
pub open spec fn ascii_upper(c: char) -> char {
    if 'a' <= c && c <= 'z' {
        (((c as u32) - 32) as u8) as char
    } else {
        c
    }
}

pub fn char_ascii_lower(c: char) -> (r: char)
    ensures
        r == ascii_lower(c),
{
    if 'A' <= c && c <= 'Z' {
        let x = (c as u32) + 32;
        let r = x as u8 as char;
        r
    } else {
        c
    }
}

pub fn char_ascii_upper(c: char) -> (r: char)
    ensures
        r == ascii_upper(c),
{
    if 'a' <= c && c <= 'z' {
        let x = (c as u32) - 32;
        let r = x as u8 as char;
        r
    } else {
        c
    }
}

pub open spec fn lower_seq(s: Seq<char>) -> Seq<char> {
    s.map_values(|c: char| ascii_lower(c))
}

pub open spec fn upper_seq(s: Seq<char>) -> Seq<char> {
    s.map_values(|c: char| ascii_upper(c))
}

/// The full Unicode lower-case mapping of a text (`str::to_lowercase`).
pub uninterp spec fn unicode_lowercase(s: Seq<char>) -> Seq<char>;

/// `str::to_lowercase`. Unicode case mapping can change the length of a text,
/// so the contract names the result instead of restating the tables.
#[verifier::external_body]
pub(crate) fn to_lowercase(s: &str) -> (r: String)
    ensures
        r@ == unicode_lowercase(s@),
{
    s.to_lowercase()
}

pub fn ascii_lower_chars(s: &Vec<char>) -> (r: Vec<char>)
    ensures
        r@ == lower_seq(s@),
{
    let mut r: Vec<char> = Vec::new();
    let mut i: usize = 0;
    while i < s.len()
        invariant
            0 <= i <= s.len(),
            r@ == lower_seq(s@.take(i as int)),
        decreases s.len() - i,
    {
        r.push(char_ascii_lower(s[i]));
        assert(lower_seq(s@.take(i + 1)) =~= lower_seq(s@.take(i as int)).push(ascii_lower(s@[i as int])));
        i = i + 1;
    }
    assert(s@.take(s.len() as int) =~= s@);
    r
}

pub fn ascii_upper_chars(s: &Vec<char>) -> (r: Vec<char>)
    ensures
        r@ == upper_seq(s@),
{
    let mut r: Vec<char> = Vec::new();
    let mut i: usize = 0;
    while i < s.len()
        invariant
            0 <= i <= s.len(),
            r@ == upper_seq(s@.take(i as int)),
        decreases s.len() - i,
    {
        r.push(char_ascii_upper(s[i]));
        assert(upper_seq(s@.take(i + 1)) =~= upper_seq(s@.take(i as int)).push(ascii_upper(s@[i as int])));
        i = i + 1;
    }
    assert(s@.take(s.len() as int) =~= s@);
    r
}

// ---------------------------------------------------------------------------
// Conversions between `str`/`String` and `Vec<char>`.
// ---------------------------------------------------------------------------

pub fn chars_of(s: &str) -> (v: Vec<char>)
    ensures
        v@ == s@,
{
    let mut v: Vec<char> = Vec::new();
    for c in it: s.chars()
        invariant
            v@ == it.seq().take(it.index() as int),
            it.seq() == s@,
    {
        v.push(c);
    }
    v
}

/// Appends one character to a `String` (`String::push`).
#[verifier::external_body]
pub(crate) fn push_char(s: &mut String, c: char)
    ensures
        final(s)@ == old(s)@.push(c),
{
    s.push(c);
}

pub fn string_of(v: &Vec<char>) -> (s: String)
    ensures
        s@ == v@,
{
    let mut s = String::new();
    let mut i: usize = 0;
    while i < v.len()
        invariant
            0 <= i <= v.len(),
            s@ == v@.take(i as int),
        decreases v.len() - i,
    {
        push_char(&mut s, v[i]);
        assert(v@.take(i + 1) == v@.take(i as int).push(v@[i as int]));
        i = i + 1;
    }
    assert(v@.take(v.len() as int) == v@);
    s
}

pub open spec fn strings_view(v: Seq<String>) -> Seq<Seq<char>> {
    v.map_values(|x: String| x@)
}

/// `Seq::contains` for a character.
pub open spec fn has_char(s: Seq<char>, c: char) -> bool {
    exists|i: int| 0 <= i < s.len() && s[i] == c
}

pub fn contains_char(s: &Vec<char>, c: char) -> (b: bool)
    ensures
        b == has_char(s@, c),
{
    let r = find_char(s, c, 0);
    proof {
        lemma_find_char_from(s@, c, 0);
    }
    r.is_some()
}

pub fn str_to_string(s: &str) -> (r: String)
    ensures
        r@ == s@,
{
    s.to_owned()
}

pub fn append_chars(dst: &mut Vec<char>, src: &Vec<char>)
    ensures
        final(dst)@ == old(dst)@ + src@,
{
    let mut i: usize = 0;
    let ghost start = dst@;
    while i < src.len()
        invariant
            0 <= i <= src.len(),
            dst@ == start + src@.take(i as int),
        decreases src.len() - i,
    {
        dst.push(src[i]);
        assert(src@.take(i + 1) == src@.take(i as int).push(src@[i as int]));
        i = i + 1;
    }
    assert(src@.take(src.len() as int) == src@);
}

pub fn append_str(dst: &mut Vec<char>, src: &str)
    ensures
        final(dst)@ == old(dst)@ + src@,
{
    let v = chars_of(src);
    append_chars(dst, &v);
}

pub fn sub_chars(s: &Vec<char>, a: usize, b: usize) -> (r: Vec<char>)
    requires
        a <= b <= s.len(),
    ensures
        r@ == s@.subrange(a as int, b as int),
{
    let mut r: Vec<char> = Vec::new();
    let mut i = a;
    while i < b
        invariant
            a <= i <= b <= s.len(),
            r@ == s@.subrange(a as int, i as int),
        decreases b - i,
    {
        r.push(s[i]);
        assert(s@.subrange(a as int, i + 1) == s@.subrange(a as int, i as int).push(s@[i as int]));
        i = i + 1;
    }
    r
}

pub fn chars_eq(a: &Vec<char>, b: &Vec<char>) -> (r: bool)
    ensures
        r == (a@ == b@),
{
    if a.len() != b.len() {
        return false;
    }
    let mut i: usize = 0;
    while i < a.len()
        invariant
            a.len() == b.len(),
            0 <= i <= a.len(),
            forall|k: int| 0 <= k < i ==> a@[k] == b@[k],
        decreases a.len() - i,
    {
        if a[i] != b[i] {
            return false;
        }
        i = i + 1;
    }
    assert(a@ =~= b@);
    true
}

pub fn chars_eq_str(a: &Vec<char>, b: &str) -> (r: bool)
    ensures
        r == (a@ == b@),
{
    let bv = chars_of(b);
    chars_eq(a, &bv)
}

// ---------------------------------------------------------------------------
// Trimming.
// ---------------------------------------------------------------------------

/// Index of the first character at or after `i` that is not in `cls`.
pub open spec fn skip_class_from(s: Seq<char>, cls: CharClass, i: int) -> int
    decreases s.len() - i,
{
    if 0 <= i < s.len() && in_class(cls, s[i]) {
        skip_class_from(s, cls, i + 1)
    } else {
        i
    }
}

/// End of `s[lo..j]` once the trailing characters in `cls` are dropped.
pub open spec fn skip_class_back(s: Seq<char>, cls: CharClass, lo: int, j: int) -> int
    decreases j - lo,
{
    if lo < j && j <= s.len() && in_class(cls, s[j - 1]) {
        skip_class_back(s, cls, lo, j - 1)
    } else {
        j
    }
}

/// `s` without the leading and trailing characters in `cls`
/// (`str::trim` for whitespace, `str::trim_matches` otherwise).
pub open spec fn trim_cls(s: Seq<char>, cls: CharClass) -> Seq<char> {
    let a = skip_class_from(s, cls, 0);
    s.subrange(a, skip_class_back(s, cls, a, s.len() as int))
}

pub open spec fn trim(s: Seq<char>) -> Seq<char> {
    trim_cls(s, CharClass::Whitespace)
}

/// Start and end of the trimmed part of `s`.
pub fn trim_bounds(s: &Vec<char>, cls: CharClass) -> (r: (usize, usize))
    ensures
        r.0 == skip_class_from(s@, cls, 0),
        r.1 == skip_class_back(s@, cls, r.0 as int, s@.len() as int),
        r.0 <= r.1 <= s.len(),
{
    let mut a: usize = 0;
    while a < s.len() && char_in_class(cls, s[a])
        invariant
            0 <= a <= s.len(),
            skip_class_from(s@, cls, 0) == skip_class_from(s@, cls, a as int),
        decreases s.len() - a,
    {
        a = a + 1;
    }
    let mut b: usize = s.len();
    while b > a && char_in_class(cls, s[b - 1])
        invariant
            a <= b <= s.len(),
            skip_class_back(s@, cls, a as int, s@.len() as int) == skip_class_back(
                s@,
                cls,
                a as int,
                b as int,
            ),
        decreases b - a,
    {
        b = b - 1;
    }
    (a, b)
}

pub fn trim_chars(s: &Vec<char>, cls: CharClass) -> (r: Vec<char>)
    ensures
        r@ == trim_cls(s@, cls),
{
    let (a, b) = trim_bounds(s, cls);
    sub_chars(s, a, b)
}

pub fn trim_ws(s: &Vec<char>) -> (r: Vec<char>)
    ensures
        r@ == trim(s@),
{
    trim_chars(s, CharClass::Whitespace)
}

// ---------------------------------------------------------------------------
// Prefixes, searching and splitting.
// ---------------------------------------------------------------------------

pub open spec fn has_prefix(s: Seq<char>, p: Seq<char>) -> bool {
    p.len() <= s.len() && s.subrange(0, p.len() as int) == p
}

pub open spec fn strip_prefix(s: Seq<char>, p: Seq<char>) -> Option<Seq<char>> {
    if has_prefix(s, p) {
        Some(s.subrange(p.len() as int, s.len() as int))
    } else {
        None
    }
}

pub open spec fn occurs_at(s: Seq<char>, p: Seq<char>, i: int) -> bool {
    0 <= i && i + p.len() <= s.len() && s.subrange(i, i + p.len()) == p
}

/// `str::contains` with a string pattern.
pub open spec fn contains(s: Seq<char>, p: Seq<char>) -> bool {
    exists|i: int| occurs_at(s, p, i)
}

/// First position at or after `i` where `p` occurs in `s` (`str::find`).
pub open spec fn find_from(s: Seq<char>, p: Seq<char>, i: int) -> Option<int>
    decreases s.len() + 1 - i,
{
    if i < 0 || i + p.len() > s.len() {
        None
    } else if occurs_at(s, p, i) {
        Some(i)
    } else {
        find_from(s, p, i + 1)
    }
}

pub open spec fn find(s: Seq<char>, p: Seq<char>) -> Option<int> {
    find_from(s, p, 0)
}

/// First position at or after `i` holding the character `c`.
pub open spec fn find_char_from(s: Seq<char>, c: char, i: int) -> Option<int>
    decreases s.len() - i,
{
    if i < 0 || i >= s.len() {
        None
    } else if s[i] == c {
        Some(i)
    } else {
        find_char_from(s, c, i + 1)
    }
}

pub proof fn lemma_find_char_from(s: Seq<char>, c: char, i: int)
    requires
        0 <= i,
    ensures
        find_char_from(s, c, i) matches Some(k) ==> i <= k < s.len() && s[k] == c && (forall|
            j: int,
        | i <= j < k ==> s[j] != c),
        find_char_from(s, c, i) is None ==> forall|j: int| i <= j < s.len() ==> s[j] != c,
    decreases s.len() - i,
{
    if i < s.len() && s[i] != c {
        lemma_find_char_from(s, c, i + 1);
    }
}

pub proof fn lemma_find_from(s: Seq<char>, p: Seq<char>, i: int)
    requires
        0 <= i,
    ensures
        find_from(s, p, i) matches Some(k) ==> i <= k && occurs_at(s, p, k) && (forall|j: int|
            i <= j < k ==> !occurs_at(s, p, j)),
        find_from(s, p, i) is None ==> forall|j: int| i <= j ==> !occurs_at(s, p, j),
    decreases s.len() + 1 - i,
{
    if i + p.len() <= s.len() && !occurs_at(s, p, i) {
        lemma_find_from(s, p, i + 1);
    }
}

pub fn starts_with_at(s: &Vec<char>, p: &Vec<char>, i: usize) -> (b: bool)
    ensures
        b == occurs_at(s@, p@, i as int),
{
    if p.len() > s.len() || i > s.len() - p.len() {
        return false;
    }
    let mut k: usize = 0;
    while k < p.len()
        invariant
            i + p.len() <= s.len(),
            0 <= k <= p.len(),
            forall|j: int| 0 <= j < k ==> s@[i + j] == p@[j],
        decreases p.len() - k,
    {
        if s[i + k] != p[k] {
            assert(s@.subrange(i as int, i + p.len())[k as int] != p@[k as int]);
            return false;
        }
        k = k + 1;
    }
    assert(s@.subrange(i as int, i + p.len()) =~= p@);
    true
}

pub fn starts_with(s: &Vec<char>, p: &Vec<char>) -> (b: bool)
    ensures
        b == has_prefix(s@, p@),
{
    starts_with_at(s, p, 0)
}

pub fn starts_with_str(s: &Vec<char>, p: &str) -> (b: bool)
    ensures
        b == has_prefix(s@, p@),
{
    let pv = chars_of(p);
    starts_with(s, &pv)
}

pub fn strip_prefix_str(s: &Vec<char>, p: &str) -> (r: Option<Vec<char>>)
    ensures
        r matches Some(v) ==> strip_prefix(s@, p@) == Some(v@),
        r is None ==> strip_prefix(s@, p@) is None,
{
    let pv = chars_of(p);
    if starts_with(s, &pv) {
        Some(sub_chars(s, pv.len(), s.len()))
    } else {
        None
    }
}

pub fn find_char(s: &Vec<char>, c: char, from: usize) -> (r: Option<usize>)
    ensures
        r matches Some(k) ==> find_char_from(s@, c, from as int) == Some(k as int),
        r is None ==> find_char_from(s@, c, from as int) is None,
{
    let mut i = from;
    while i < s.len()
        invariant
            from <= i,
            find_char_from(s@, c, from as int) == find_char_from(s@, c, i as int),
        decreases s.len() - i,
    {
        if s[i] == c {
            return Some(i);
        }
        i = i + 1;
    }
    None
}

pub fn find_seq(s: &Vec<char>, p: &Vec<char>, from: usize) -> (r: Option<usize>)
    ensures
        r matches Some(k) ==> find_from(s@, p@, from as int) == Some(k as int),
        r is None ==> find_from(s@, p@, from as int) is None,
{
    if p.len() > s.len() {
        return None;
    }
    let mut i = from;
    while i <= s.len() - p.len()
        invariant
            p.len() <= s.len(),
            from <= i,
            find_from(s@, p@, from as int) == find_from(s@, p@, i as int),
        decreases s.len() + 1 - i,
    {
        if starts_with_at(s, p, i) {
            return Some(i);
        }
        if i == s.len() - p.len() {
            assert(find_from(s@, p@, i + 1) is None);
            return None;
        }
        i = i + 1;
    }
    None
}

pub fn contains_seq(s: &Vec<char>, p: &Vec<char>) -> (b: bool)
    ensures
        b == contains(s@, p@),
{
    let r = find_seq(s, p, 0);
    proof {
        lemma_find_from(s@, p@, 0);
    }
    r.is_some()
}

pub fn contains_str(s: &Vec<char>, p: &str) -> (b: bool)
    ensures
        b == contains(s@, p@),
{
    let pv = chars_of(p);
    contains_seq(s, &pv)
}

/// `str::split_once` at the first `c`.
pub open spec fn split_once(s: Seq<char>, c: char) -> Option<(Seq<char>, Seq<char>)> {
    match find_char_from(s, c, 0) {
        Some(k) => Some((s.subrange(0, k), s.subrange(k + 1, s.len() as int))),
        None => None,
    }
}

pub fn split_once_char(s: &Vec<char>, c: char) -> (r: Option<(Vec<char>, Vec<char>)>)
    ensures
        r matches Some(p) ==> split_once(s@, c) == Some((p.0@, p.1@)),
        r is None ==> split_once(s@, c) is None,
{
    match find_char(s, c, 0) {
        Some(k) => {
            proof {
                lemma_find_char_from(s@, c, 0);
            }
            Some((sub_chars(s, 0, k), sub_chars(s, k + 1, s.len())))
        },
        None => None,
    }
}

/// The part of `s` before the first `c` (the first item of `str::split(c)`).
pub open spec fn before_char(s: Seq<char>, c: char) -> Seq<char> {
    match find_char_from(s, c, 0) {
        Some(k) => s.subrange(0, k),
        None => s,
    }
}

pub fn before_char_chars(s: &Vec<char>, c: char) -> (r: Vec<char>)
    ensures
        r@ == before_char(s@, c),
{
    match find_char(s, c, 0) {
        Some(k) => {
            proof {
                lemma_find_char_from(s@, c, 0);
            }
            sub_chars(s, 0, k)
        },
        None => sub_chars(s, 0, s.len()),
    }
}

/// The part of `s` after the last `c` (the first item of `str::rsplit(c)`).
pub open spec fn after_last_char(s: Seq<char>, c: char) -> Seq<char> {
    s.subrange(last_char_end(s, c, s.len() as int), s.len() as int)
}

/// One past the last position before `j` that holds `c`, or 0.
pub open spec fn last_char_end(s: Seq<char>, c: char, j: int) -> int
    decreases j,
{
    if j <= 0 || j > s.len() {
        0
    } else if s[j - 1] == c {
        j
    } else {
        last_char_end(s, c, j - 1)
    }
}

pub fn after_last_char_chars(s: &Vec<char>, c: char) -> (r: Vec<char>)
    ensures
        r@ == after_last_char(s@, c),
{
    let mut j = s.len();
    while j > 0 && s[j - 1] != c
        invariant
            0 <= j <= s.len(),
            last_char_end(s@, c, s@.len() as int) == last_char_end(s@, c, j as int),
        decreases j,
    {
        j = j - 1;
    }
    sub_chars(s, j, s.len())
}

// ---------------------------------------------------------------------------
// Lines.
// ---------------------------------------------------------------------------

/// The pieces of `s` between line feeds, the last one included even when empty.
pub open spec fn split_at_newlines(s: Seq<char>) -> Seq<Seq<char>>
    decreases s.len(),
{
    if s.len() == 0 {
        seq![Seq::empty()]
    } else {
        let before = split_at_newlines(s.drop_last());
        if s.last() == '\n' {
            before.push(Seq::empty())
        } else {
            before.update(before.len() - 1, before.last().push(s.last()))
        }
    }
}

pub proof fn lemma_split_nonempty(s: Seq<char>)
    ensures
        split_at_newlines(s).len() >= 1,
    decreases s.len(),
{
    if s.len() > 0 {
        lemma_split_nonempty(s.drop_last());
    }
}

pub open spec fn without_cr(l: Seq<char>) -> Seq<char> {
    if l.len() > 0 && l.last() == '\r' {
        l.drop_last()
    } else {
        l
    }
}

/// `str::lines`: the pieces between line feeds, each without one trailing
/// carriage return, and no empty piece after a final line feed.
pub open spec fn str_lines(s: Seq<char>) -> Seq<Seq<char>> {
    let pieces = split_at_newlines(s);
    let kept = if pieces.last().len() == 0 {
        pieces.drop_last()
    } else {
        pieces
    };
    kept.map_values(|l: Seq<char>| without_cr(l))
}

pub fn lines_of(s: &Vec<char>) -> (r: Vec<Vec<char>>)
    ensures
        views_of(r@) == str_lines(s@),
{
    let mut pieces: Vec<Vec<char>> = Vec::new();
    let mut cur: Vec<char> = Vec::new();
    let mut i: usize = 0;
    while i < s.len()
        invariant
            0 <= i <= s.len(),
            views_of(pieces@).push(cur@) == split_at_newlines(s@.take(i as int)),
        decreases s.len() - i,
    {
        let ghost pre = s@.take(i as int);
        let ghost nxt = s@.take(i + 1);
        assert(nxt.drop_last() =~= pre);
        assert(nxt.last() == s@[i as int]);
        proof {
            lemma_split_nonempty(pre);
        }
        let ghost before = views_of(pieces@);
        if s[i] == '\n' {
            let done = cur;
            pieces.push(done);
            cur = Vec::new();
            assert(views_of(pieces@) =~= before.push(done@));
            assert(views_of(pieces@).push(cur@) =~= split_at_newlines(nxt));
        } else {
            cur.push(s[i]);
            assert(views_of(pieces@).push(cur@) =~= split_at_newlines(nxt));
        }
        i = i + 1;
    }
    assert(s@.take(s.len() as int) =~= s@);
    let ghost all = views_of(pieces@).push(cur@);
    if cur.len() > 0 {
        let ghost before = views_of(pieces@);
        pieces.push(cur);
        assert(views_of(pieces@) =~= all);
    } else {
        assert(views_of(pieces@) =~= all.drop_last());
    }
    let mut r: Vec<Vec<char>> = Vec::new();
    let mut k: usize = 0;
    while k < pieces.len()
        invariant
            0 <= k <= pieces.len(),
            views_of(r@) == views_of(pieces@).take(k as int).map_values(
                |l: Seq<char>| without_cr(l),
            ),
        decreases pieces.len() - k,
    {
        let p = &pieces[k];
        let q = if p.len() > 0 && p[p.len() - 1] == '\r' {
            sub_chars(p, 0, p.len() - 1)
        } else {
            sub_chars(p, 0, p.len())
        };
        assert(q@ == without_cr(p@));
        assert(views_of(pieces@).take(k + 1).last() == p@);
        let ghost before = views_of(r@);
        r.push(q);
        assert(views_of(r@) =~= before.push(q@));
        assert(views_of(pieces@).take(k + 1).map_values(|l: Seq<char>| without_cr(l))
            =~= views_of(pieces@).take(k as int).map_values(|l: Seq<char>| without_cr(l)).push(
            without_cr(pieces@[k as int]@),
        ));
        k = k + 1;
    }
    assert(views_of(pieces@).take(pieces.len() as int) =~= views_of(pieces@));
    r
}

/// `char::from_u32`: the character with the code point `x`, where `x` is a
/// Unicode scalar value.
#[verifier::external_body]
pub(crate) fn char_from_u32(x: u32) -> (r: Option<char>)
    ensures
        r matches Some(c) ==> c as u32 == x && c == x as char,
        (x < 0xD800 || (0xE000 <= x && x <= 0x10FFFF)) <==> r is Some,
{
    char::from_u32(x)
}

// ---------------------------------------------------------------------------
// Joining.
// ---------------------------------------------------------------------------

/// `parts.join(sep)`.
pub open spec fn join(parts: Seq<Seq<char>>, sep: Seq<char>) -> Seq<char>
    decreases parts.len(),
{
    if parts.len() == 0 {
        Seq::empty()
    } else if parts.len() == 1 {
        parts[0]
    } else {
        join(parts.drop_last(), sep) + sep + parts.last()
    }
}

pub open spec fn views_of(v: Seq<Vec<char>>) -> Seq<Seq<char>> {
    v.map_values(|x: Vec<char>| x@)
}

pub fn join_chars(parts: &Vec<Vec<char>>, sep: &str) -> (r: Vec<char>)
    ensures
        r@ == join(views_of(parts@), sep@),
{
    let sv = chars_of(sep);
    let mut out: Vec<char> = Vec::new();
    let mut i: usize = 0;
    while i < parts.len()
        invariant
            0 <= i <= parts.len(),
            sv@ == sep@,
            out@ == join(views_of(parts@).take(i as int), sep@),
        decreases parts.len() - i,
    {
        let ghost before = views_of(parts@).take(i as int);
        if i > 0 {
            append_chars(&mut out, &sv);
        }
        append_chars(&mut out, &parts[i]);
        proof {
            let now = views_of(parts@).take(i + 1);
            assert(now.drop_last() =~= before);
            assert(now.last() == parts@[i as int]@);
            if i == 0 {
                assert(before.len() == 0);
                assert(now.len() == 1);
            }
        }
        i = i + 1;
    }
    assert(views_of(parts@).take(parts.len() as int) =~= views_of(parts@));
    out
}

// ---------------------------------------------------------------------------
// Numbers.
// ---------------------------------------------------------------------------

pub open spec fn digit_value(c: char) -> nat {
    ((c as u32) - ('0' as u32)) as nat
}

pub open spec fn all_digits(s: Seq<char>) -> bool {
    forall|i: int| 0 <= i < s.len() ==> is_ascii_digit(#[trigger] s[i])
}

/// The number that the decimal digits `s` spell.
pub open spec fn digits_value(s: Seq<char>) -> nat
    decreases s.len(),
{
    if s.len() == 0 {
        0
    } else {
        digits_value(s.drop_last()) * 10 + digit_value(s.last())
    }
}

/// `u32::from_str`: an optional `+`, then one or more decimal digits whose value fits.
pub open spec fn parse_u32(s: Seq<char>) -> Option<u32> {
    let d = if s.len() > 0 && s[0] == '+' {
        s.drop_first()
    } else {
        s
    };
    if d.len() > 0 && all_digits(d) && digits_value(d) <= u32::MAX {
        Some(digits_value(d) as u32)
    } else {
        None
    }
}

/// `i32::from_str`: an optional sign, then one or more decimal digits whose value fits.
pub open spec fn parse_i32(s: Seq<char>) -> Option<i32> {
    let neg = s.len() > 0 && s[0] == '-';
    let d = if s.len() > 0 && (s[0] == '+' || s[0] == '-') {
        s.drop_first()
    } else {
        s
    };
    if d.len() > 0 && all_digits(d) {
        if neg && digits_value(d) <= 0x8000_0000 {
            Some((0 - digits_value(d)) as i32)
        } else if !neg && digits_value(d) <= 0x7fff_ffff {
            Some(digits_value(d) as i32)
        } else {
            None
        }
    } else {
        None
    }
}

pub proof fn lemma_digits_value_monotone(s: Seq<char>, i: int)
    requires
        0 <= i <= s.len(),
        all_digits(s),
    ensures
        digits_value(s.subrange(0, i)) <= digits_value(s),
    decreases s.len() - i,
{
    if i < s.len() {
        lemma_digits_value_monotone(s, i + 1);
        let t = s.subrange(0, i + 1);
        assert(t.drop_last() =~= s.subrange(0, i));
    } else {
        assert(s.subrange(0, i) =~= s);
    }
}

/// Value of an all-digit run, or `None` once it exceeds `limit` (at most `u32::MAX`).
pub fn digits_value_capped(s: &Vec<char>, a: usize, limit: u64) -> (r: Option<u64>)
    requires
        a <= s.len(),
        limit <= 0x1_0000_0000,
        all_digits(s@.subrange(a as int, s.len() as int)),
    ensures
        r matches Some(v) ==> v == digits_value(s@.subrange(a as int, s.len() as int)) && v
            <= limit,
        r is None ==> digits_value(s@.subrange(a as int, s.len() as int)) > limit,
{
    let ghost d = s@.subrange(a as int, s.len() as int);
    let mut acc: u64 = 0;
    let mut i = a;
    while i < s.len()
        invariant
            a <= i <= s.len(),
            limit <= 0x1_0000_0000,
            d == s@.subrange(a as int, s.len() as int),
            all_digits(d),
            acc == digits_value(d.subrange(0, i - a)),
            acc <= limit,
        decreases s.len() - i,
    {
        let c = s[i];
        assert(d[i - a] == c);
        let dv = (c as u32 - '0' as u32) as u64;
        let next = acc * 10 + dv;
        proof {
            let t = d.subrange(0, i - a + 1);
            assert(t.drop_last() =~= d.subrange(0, i - a));
            assert(t.last() == c);
        }
        if next > limit {
            proof {
                lemma_digits_value_monotone(d, i - a + 1);
            }
            return None;
        }
        acc = next;
        i = i + 1;
    }
    assert(d.subrange(0, s.len() - a) =~= d);
    Some(acc)
}

pub fn all_digits_from(s: &Vec<char>, a: usize) -> (b: bool)
    requires
        a <= s.len(),
    ensures
        b == all_digits(s@.subrange(a as int, s.len() as int)),
{
    let mut i = a;
    while i < s.len()
        invariant
            a <= i <= s.len(),
            forall|k: int| a <= k < i ==> is_ascii_digit(#[trigger] s@[k]),
        decreases s.len() - i,
    {
        if !char_is_ascii_digit(s[i]) {
            assert(!is_ascii_digit(s@.subrange(a as int, s.len() as int)[i - a]));
            return false;
        }
        i = i + 1;
    }
    assert forall|k: int| 0 <= k < s.len() - a implies is_ascii_digit(
        #[trigger] s@.subrange(a as int, s.len() as int)[k],
    ) by {
        assert(s@.subrange(a as int, s.len() as int)[k] == s@[a + k]);
    }
    true
}

pub fn parse_u32_chars(s: &Vec<char>) -> (r: Option<u32>)
    ensures
        r == parse_u32(s@),
{
    let a: usize = if s.len() > 0 && s[0] == '+' {
        1
    } else {
        0
    };
    proof {
        if a == 1 {
            assert(s@.drop_first() =~= s@.subrange(1, s.len() as int));
        } else {
            assert(s@ =~= s@.subrange(0, s.len() as int));
        }
    }
    if a >= s.len() || !all_digits_from(s, a) {
        return None;
    }
    match digits_value_capped(s, a, 0xffff_ffff) {
        Some(v) => Some(v as u32),
        None => None,
    }
}

pub fn parse_i32_chars(s: &Vec<char>) -> (r: Option<i32>)
    ensures
        r == parse_i32(s@),
{
    let signed = s.len() > 0 && (s[0] == '+' || s[0] == '-');
    let neg = s.len() > 0 && s[0] == '-';
    let a: usize = if signed {
        1
    } else {
        0
    };
    proof {
        if a == 1 {
            assert(s@.drop_first() =~= s@.subrange(1, s.len() as int));
        } else {
            assert(s@ =~= s@.subrange(0, s.len() as int));
        }
    }
    if a >= s.len() || !all_digits_from(s, a) {
        return None;
    }
    let limit: u64 = if neg {
        0x8000_0000
    } else {
        0x7fff_ffff
    };
    match digits_value_capped(s, a, limit) {
        Some(v) => {
            if neg {
                if v == 0x8000_0000 {
                    Some(i32::MIN)
                } else {
                    Some(0 - (v as i32))
                }
            } else {
                Some(v as i32)
            }
        },
        None => None,
    }
}

pub open spec fn digit_char(d: nat) -> char {
    ((d + 48) as u8) as char
}

/// Decimal representation of `n` without leading zeros (`n.to_string()`).
pub open spec fn decimal(n: nat) -> Seq<char>
    decreases n,
{
    if n < 10 {
        seq![digit_char(n)]
    } else {
        decimal(n / 10).push(digit_char(n % 10))
    }
}

/// The decimal text of `n` is one or more ASCII digits that spell `n`.
pub proof fn lemma_decimal_digits(n: nat)
    ensures
        decimal(n).len() >= 1,
        all_digits(decimal(n)),
        digits_value(decimal(n)) == n,
    decreases n,
{
    if n < 10 {
        let c = digit_char(n);
        assert(c as u32 == n + 48) by {
            assert(((n + 48) as u8) as char as u32 == n + 48);
        }
        assert(seq![c].drop_last() =~= Seq::<char>::empty());
        assert(digits_value(seq![c]) == digits_value(Seq::<char>::empty()) * 10 + digit_value(c));
    } else {
        lemma_decimal_digits(n / 10);
        let d = decimal(n / 10);
        let c = digit_char(n % 10);
        assert(c as u32 == n % 10 + 48) by {
            assert(((n % 10 + 48) as u8) as char as u32 == n % 10 + 48);
        }
        assert(d.push(c).drop_last() =~= d);
        assert(digits_value(d.push(c)) == digits_value(d) * 10 + digit_value(c));
        assert((n / 10) * 10 + n % 10 == n);
    }
}

/// Skipping from a character outside the class skips nothing.
pub proof fn lemma_skip_from_stops(s: Seq<char>, cls: CharClass, i: int)
    requires
        0 <= i < s.len(),
        !in_class(cls, s[i]),
    ensures
        skip_class_from(s, cls, i) == i,
{
}

/// Trailing characters of the class are dropped no further back than the
/// last character outside it.
pub proof fn lemma_skip_back_at_least(s: Seq<char>, cls: CharClass, lo: int, j: int, k: int)
    requires
        lo <= k < j <= s.len(),
        0 <= k,
        !in_class(cls, s[k]),
    ensures
        k + 1 <= skip_class_back(s, cls, lo, j) <= j,
    decreases j - lo,
{
    if k + 1 < j && in_class(cls, s[j - 1]) {
        lemma_skip_back_at_least(s, cls, lo, j - 1, k);
    }
}

/// Skipping forward ends at the end of the text or at a character outside the class.
pub proof fn lemma_skip_from_bounds(s: Seq<char>, cls: CharClass, i: int)
    requires
        0 <= i <= s.len(),
    ensures
        i <= skip_class_from(s, cls, i) <= s.len(),
        skip_class_from(s, cls, i) < s.len() ==> !in_class(cls, s[skip_class_from(s, cls, i)]),
    decreases s.len() - i,
{
    if i < s.len() && in_class(cls, s[i]) {
        lemma_skip_from_bounds(s, cls, i + 1);
    }
}

/// Skipping back ends at `lo` or just after a character outside the class.
pub proof fn lemma_skip_back_bounds(s: Seq<char>, cls: CharClass, lo: int, j: int)
    requires
        0 <= lo <= j <= s.len(),
    ensures
        lo <= skip_class_back(s, cls, lo, j) <= j,
        skip_class_back(s, cls, lo, j) > lo ==> !in_class(cls, s[skip_class_back(s, cls, lo, j) - 1]),
    decreases j - lo,
{
    if lo < j && in_class(cls, s[j - 1]) {
        lemma_skip_back_bounds(s, cls, lo, j - 1);
    }
}

/// Trimming twice trims no more than trimming once.
pub proof fn lemma_trim_idempotent(s: Seq<char>)
    ensures
        trim(trim(s)) == trim(s),
{
    let cls = CharClass::Whitespace;
    lemma_skip_from_bounds(s, cls, 0);
    let a = skip_class_from(s, cls, 0);
    lemma_skip_back_bounds(s, cls, a, s.len() as int);
    let e = skip_class_back(s, cls, a, s.len() as int);
    let t = s.subrange(a, e);
    if t.len() == 0 {
        assert(trim(t) =~= t);
    } else {
        assert(t[0] == s[a]);
        lemma_skip_from_stops(t, cls, 0);
        assert(t[t.len() - 1] == s[e - 1]);
        assert(skip_class_back(t, cls, 0, t.len() as int) == t.len());
        assert(trim(t) =~= t);
    }
}

/// The first occurrence of `c` is the one at `k` when none comes before it.
pub proof fn lemma_find_char_first(s: Seq<char>, c: char, i: int, k: int)
    requires
        0 <= i <= k < s.len(),
        s[k] == c,
        forall|j: int| i <= j < k ==> s[j] != c,
    ensures
        find_char_from(s, c, i) == Some(k),
    decreases k - i,
{
    if i < k {
        lemma_find_char_first(s, c, i + 1, k);
    }
}

/// `u32::from_str` reads back the decimal text of a `u32`.
pub proof fn lemma_parse_decimal(n: u32)
    ensures
        parse_u32(decimal(n as nat)) == Some(n),
{
    lemma_decimal_digits(n as nat);
    let d = decimal(n as nat);
    assert(is_ascii_digit(d[0]));
}

fn digit_to_char(d: u64) -> (c: char)
    requires
        d < 10,
    ensures
        c == digit_char(d as nat),
{
    let x = (d as u32) + 48;
    let c = x as u8 as char;
    c
}

pub fn push_decimal(out: &mut Vec<char>, n: u64)
    ensures
        final(out)@ == old(out)@ + decimal(n as nat),
    decreases n,
{
    if n < 10 {
        out.push(digit_to_char(n));
        assert(old(out)@ + decimal(n as nat) =~= old(out)@.push(digit_char(n as nat)));
    } else {
        push_decimal(out, n / 10);
        out.push(digit_to_char(n % 10));
        assert(old(out)@ + decimal(n as nat) =~= (old(out)@ + decimal((n / 10) as nat)).push(
            digit_char((n % 10) as nat),
        ));
    }
}

pub open spec fn hex_digit_upper(d: nat) -> char {
    if d < 10 {
        digit_char(d)
    } else {
        ((d - 10 + 65) as u8) as char
    }
}

pub open spec fn hex_digit_lower(d: nat) -> char {
    if d < 10 {
        digit_char(d)
    } else {
        ((d - 10 + 97) as u8) as char
    }
}

/// Upper-case hexadecimal representation of `n` without leading zeros (`{:X}`).
pub open spec fn hex_upper(n: nat) -> Seq<char>
    decreases n,
{
    if n < 16 {
        seq![hex_digit_upper(n)]
    } else {
        hex_upper(n / 16).push(hex_digit_upper(n % 16))
    }
}

fn hex_upper_char(d: u64) -> (c: char)
    requires
        d < 16,
    ensures
        c == hex_digit_upper(d as nat),
{
    if d < 10 {
        digit_to_char(d)
    } else {
        let x = (d as u32) + 55;
        let c = x as u8 as char;
        c
    }
}

fn hex_lower_char(d: u64) -> (c: char)
    requires
        d < 16,
    ensures
        c == hex_digit_lower(d as nat),
{
    if d < 10 {
        digit_to_char(d)
    } else {
        let x = (d as u32) + 87;
        let c = x as u8 as char;
        c
    }
}

pub fn push_hex_upper(out: &mut Vec<char>, n: u64)
    ensures
        final(out)@ == old(out)@ + hex_upper(n as nat),
    decreases n,
{
    if n < 16 {
        out.push(hex_upper_char(n));
        assert(old(out)@ + hex_upper(n as nat) =~= old(out)@.push(hex_digit_upper(n as nat)));
    } else {
        push_hex_upper(out, n / 16);
        out.push(hex_upper_char(n % 16));
        assert(old(out)@ + hex_upper(n as nat) =~= (old(out)@ + hex_upper((n / 16) as nat)).push(
            hex_digit_upper((n % 16) as nat),
        ));
    }
}

/// Lower-case hexadecimal with exactly four digits (`{:04x}` of a `u16`).
pub open spec fn hex4_lower(n: u16) -> Seq<char> {
    seq![
        hex_digit_lower((n as nat / 4096) % 16),
        hex_digit_lower((n as nat / 256) % 16),
        hex_digit_lower((n as nat / 16) % 16),
        hex_digit_lower(n as nat % 16),
    ]
}

pub fn push_hex4_lower(out: &mut Vec<char>, n: u16)
    ensures
        final(out)@ == old(out)@ + hex4_lower(n),
{
    let x = n as u64;
    out.push(hex_lower_char((x / 4096) % 16));
    out.push(hex_lower_char((x / 256) % 16));
    out.push(hex_lower_char((x / 16) % 16));
    out.push(hex_lower_char(x % 16));
    assert(out@ =~= old(out)@ + hex4_lower(n));
}

// ---------------------------------------------------------------------------
// Bytes from a device.
// ---------------------------------------------------------------------------

/// The text that `String::from_utf8_lossy` makes of some bytes: valid UTF-8
/// decoded, each invalid sequence replaced by U+FFFD.
pub uninterp spec fn utf8_lossy_text(bytes: Seq<u8>) -> Seq<char>;

/// `String::from_utf8_lossy(bytes).into_owned()`. The decoding is a function
/// of the bytes alone; the contract names it and says no more.
#[verifier::external_body]
pub(crate) fn utf8_lossy(bytes: &[u8]) -> (r: String)
    ensures
        r@ == utf8_lossy_text(bytes@),
{
    String::from_utf8_lossy(bytes).into_owned()
}

pub fn sub_bytes(s: &Vec<u8>, a: usize, b: usize) -> (r: Vec<u8>)
    requires
        a <= b <= s.len(),
    ensures
        r@ == s@.subrange(a as int, b as int),
{
    let mut r: Vec<u8> = Vec::new();
    let mut i = a;
    while i < b
        invariant
            a <= i <= b <= s.len(),
            r@ == s@.subrange(a as int, i as int),
        decreases b - i,
    {
        r.push(s[i]);
        assert(r@ =~= s@.subrange(a as int, i + 1));
        i = i + 1;
    }
    r
}

} // verus!

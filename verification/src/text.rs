//! Searching and cutting text, character by character.

use vstd::prelude::*;
use vstd::string::StrSliceExecFns;
use vstd::utf8::decode_utf8;
use vstd::utf8::valid_utf8;

verus! {

/// Whether `needle` stands in `s` at position `at`.
pub open spec fn occurs_at<T>(s: Seq<T>, needle: Seq<T>, at: int) -> bool {
    0 <= at && at + needle.len() <= s.len() && s.subrange(at, at + needle.len()) == needle
}

/// Whether `needle` stands anywhere in `s`.
pub open spec fn occurs<T>(s: Seq<T>, needle: Seq<T>) -> bool {
    exists|at: int| occurs_at(s, needle, at)
}

/// Whether `s` begins with `prefix`.
pub open spec fn begins_with<T>(s: Seq<T>, prefix: Seq<T>) -> bool {
    occurs_at(s, prefix, 0)
}

/// Whether `s` ends with `suffix`.
pub open spec fn finishes_with<T>(s: Seq<T>, suffix: Seq<T>) -> bool {
    occurs_at(s, suffix, s.len() - suffix.len())
}

/// Whether `at` is the first position where `needle` stands in `s`.
pub open spec fn first_at<T>(s: Seq<T>, needle: Seq<T>, at: int) -> bool {
    occurs_at(s, needle, at) && forall|j: int| 0 <= j < at ==> !occurs_at(s, needle, j)
}

/// Whether `at` is the last position where `needle` stands in `s`.
pub open spec fn last_at<T>(s: Seq<T>, needle: Seq<T>, at: int) -> bool {
    occurs_at(s, needle, at) && forall|j: int| at < j ==> !occurs_at(s, needle, j)
}

/// The first position where `needle` stands in `s`, where there is one.
pub open spec fn first_index<T>(s: Seq<T>, needle: Seq<T>) -> int {
    choose|at: int| first_at(s, needle, at)
}

/// The last position where `needle` stands in `s`, where there is one.
pub open spec fn last_index<T>(s: Seq<T>, needle: Seq<T>) -> int {
    choose|at: int| last_at(s, needle, at)
}

/// The characters with the Unicode property `White_Space`.
pub open spec fn is_white_space(c: char) -> bool {
    let n = c as u32;
    ||| 9 <= n <= 13
    ||| n == 32
    ||| n == 133
    ||| n == 160
    ||| n == 5760
    ||| 8192 <= n <= 8202
    ||| n == 8232
    ||| n == 8233
    ||| n == 8239
    ||| n == 8287
    ||| n == 12288
}

/// `s` without the white space that it begins with.
pub open spec fn trimmed_front(s: Seq<char>) -> Seq<char>
    decreases s.len(),
{
    if s.len() > 0 && is_white_space(s[0]) {
        trimmed_front(s.drop_first())
    } else {
        s
    }
}

/// `s` without the white space that it ends with.
pub open spec fn trimmed_back(s: Seq<char>) -> Seq<char>
    decreases s.len(),
{
    if s.len() > 0 && is_white_space(s.last()) {
        trimmed_back(s.drop_last())
    } else {
        s
    }
}

/// `s` without white space at either end.
pub open spec fn trimmed(s: Seq<char>) -> Seq<char> {
    trimmed_back(trimmed_front(s))
}

/// The characters of an optional text.
pub open spec fn text_view(text: Option<String>) -> Option<Seq<char>> {
    match text {
        Some(t) => Some(t@),
        None => None,
    }
}

/// The texts of some items.
pub open spec fn texts(items: Seq<String>) -> Seq<Seq<char>> {
    items.map_values(|i: String| i@)
}

pub open spec fn texts_view(items: Option<Vec<String>>) -> Option<Seq<Seq<char>>> {
    match items {
        Some(v) => Some(texts(v@)),
        None => None,
    }
}

/// What a sequence that is searched is made of.
pub trait Symbol: Copy {
    fn same(a: Self, b: Self) -> (r: bool)
        ensures
            r == (a == b),
    ;
}

impl Symbol for char {
    fn same(a: char, b: char) -> (r: bool) {
        a == b
    }
}

impl Symbol for u8 {
    fn same(a: u8, b: u8) -> (r: bool) {
        a == b
    }
}

/// The characters of a text.
pub fn characters(text: &str) -> (r: Vec<char>)
    ensures
        r@ == text@,
{
    let mut r: Vec<char> = Vec::new();
    for c in it: text.chars()
        invariant
            it.seq() == text@,
            r@ == text@.take(it.index()),
    {
        r.push(c);
    }
    assert(text@.take(text@.len() as int) == text@);
    r
}

/// Whether `needle` stands in `s` at position `at`.
fn stands_at<T: Symbol>(s: &[T], needle: &[T], at: usize) -> (r: bool)
    requires
        at + needle.len() <= s.len(),
    ensures
        r == occurs_at(s@, needle@, at as int),
{
    let mut i: usize = 0;
    while i < needle.len()
        invariant
            i <= needle.len(),
            at + needle.len() <= s.len(),
            forall|j: int| 0 <= j < i ==> s@[at + j] == needle@[j],
        decreases needle.len() - i,
    {
        if !T::same(s[at + i], needle[i]) {
            assert(s@.subrange(at as int, at + needle.len())[i as int] != needle@[i as int]);
            return false;
        }
        i = i + 1;
    }
    assert(s@.subrange(at as int, at + needle.len()) =~= needle@);
    true
}

/// The first position where `needle` stands in `s`.
pub fn find_slice<T: Symbol>(s: &[T], needle: &[T]) -> (r: Option<usize>)
    ensures
        r matches Some(at) ==> first_at(s@, needle@, at as int),
        r is None ==> !occurs(s@, needle@),
{
    if needle.len() > s.len() {
        return None;
    }
    let mut at: usize = 0;
    while at <= s.len() - needle.len()
        invariant
            needle.len() <= s.len(),
            at <= s.len() - needle.len() + 1,
            forall|j: int| 0 <= j < at ==> !occurs_at(s@, needle@, j),
        decreases s.len() + 1 - at,
    {
        if stands_at(s, needle, at) {
            return Some(at);
        }
        if at == s.len() - needle.len() {
            return None;
        }
        at = at + 1;
    }
    None
}

/// The last position where `needle` stands in `s`.
pub fn rfind_slice<T: Symbol>(s: &[T], needle: &[T]) -> (r: Option<usize>)
    ensures
        r matches Some(at) ==> last_at(s@, needle@, at as int),
        r is None ==> !occurs(s@, needle@),
{
    if needle.len() > s.len() {
        return None;
    }
    let mut end: usize = s.len() - needle.len();
    loop
        invariant
            needle.len() <= s.len(),
            end <= s.len() - needle.len(),
            forall|j: int| end < j ==> !occurs_at(s@, needle@, j),
        decreases end,
    {
        if stands_at(s, needle, end) {
            return Some(end);
        }
        if end == 0 {
            return None;
        }
        end = end - 1;
    }
}

/// Whether `s` begins with `prefix`.
pub fn slice_begins_with<T: Symbol>(s: &[T], prefix: &[T]) -> (r: bool)
    ensures
        r == begins_with(s@, prefix@),
{
    prefix.len() <= s.len() && stands_at(s, prefix, 0)
}

/// Whether `s` ends with `suffix`.
pub fn slice_finishes_with<T: Symbol>(s: &[T], suffix: &[T]) -> (r: bool)
    ensures
        r == finishes_with(s@, suffix@),
{
    suffix.len() <= s.len() && stands_at(s, suffix, s.len() - suffix.len())
}

/// Whether the two texts hold the same characters.
pub fn same_text(a: &str, b: &str) -> (r: bool)
    ensures
        r == (a@ == b@),
{
    let x = characters(a);
    let y = characters(b);
    let r = x.len() == y.len() && slice_begins_with(x.as_slice(), y.as_slice());
    assert(x.len() == y.len() ==> a@.subrange(0, b@.len() as int) =~= a@);
    r
}

/// Whether `text` begins with `prefix`.
pub fn starts_with(text: &str, prefix: &str) -> (r: bool)
    ensures
        r == begins_with(text@, prefix@),
{
    slice_begins_with(characters(text).as_slice(), characters(prefix).as_slice())
}

/// Whether `text` ends with `suffix`.
pub fn ends_with(text: &str, suffix: &str) -> (r: bool)
    ensures
        r == finishes_with(text@, suffix@),
{
    slice_finishes_with(characters(text).as_slice(), characters(suffix).as_slice())
}

/// Whether `needle` stands anywhere in `text`.
pub fn contains(text: &str, needle: &str) -> (r: bool)
    ensures
        r == occurs(text@, needle@),
{
    find(text, needle).is_some()
}

/// The first position, counted in characters, where `needle` stands in `text`.
pub fn find(text: &str, needle: &str) -> (r: Option<usize>)
    ensures
        r is Some <==> occurs(text@, needle@),
        r matches Some(at) ==> first_at(text@, needle@, at as int) && at == first_index(
            text@,
            needle@,
        ),
{
    let r = find_slice(characters(text).as_slice(), characters(needle).as_slice());
    proof {
        if let Some(at) = r {
            lemma_first_index(text@, needle@, at as int);
        }
    }
    r
}

/// The last position, counted in characters, where `needle` stands in `text`.
pub fn rfind(text: &str, needle: &str) -> (r: Option<usize>)
    ensures
        r is Some <==> occurs(text@, needle@),
        r matches Some(at) ==> last_at(text@, needle@, at as int) && at == last_index(
            text@,
            needle@,
        ),
{
    let r = rfind_slice(characters(text).as_slice(), characters(needle).as_slice());
    proof {
        if let Some(at) = r {
            lemma_last_index(text@, needle@, at as int);
        }
    }
    r
}

/// The first position is the only one of its kind.
pub proof fn lemma_first_index<T>(s: Seq<T>, needle: Seq<T>, at: int)
    requires
        first_at(s, needle, at),
    ensures
        first_index(s, needle) == at,
{
    let other = first_index(s, needle);
    assert(first_at(s, needle, other));
    assert(!(other < at));
    assert(!(at < other));
}

/// The last position is the only one of its kind.
pub proof fn lemma_last_index<T>(s: Seq<T>, needle: Seq<T>, at: int)
    requires
        last_at(s, needle, at),
    ensures
        last_index(s, needle) == at,
{
    let other = last_index(s, needle);
    assert(last_at(s, needle, other));
    assert(!(other < at));
    assert(!(at < other));
}

/// What follows `prefix` in `text`, where `text` begins with it.
pub fn strip_prefix<'a>(text: &'a str, prefix: &str) -> (r: Option<&'a str>)
    ensures
        r is Some <==> begins_with(text@, prefix@),
        r matches Some(rest) ==> rest@ == text@.skip(prefix@.len() as int),
{
    if starts_with(text, prefix) {
        Some(text.substring_char(prefix.unicode_len(), text.unicode_len()))
    } else {
        None
    }
}

/// What stands before `suffix` in `text`, where `text` ends with it.
pub fn strip_suffix<'a>(text: &'a str, suffix: &str) -> (r: Option<&'a str>)
    ensures
        r is Some <==> finishes_with(text@, suffix@),
        r matches Some(rest) ==> rest@ == text@.take(text@.len() - suffix@.len()),
{
    if ends_with(text, suffix) {
        Some(text.substring_char(0, text.unicode_len() - suffix.unicode_len()))
    } else {
        None
    }
}

/// `text` from the first place where `needle` stands, `needle` included.
pub fn from_first<'a>(text: &'a str, needle: &str) -> (r: Option<&'a str>)
    ensures
        r is Some <==> occurs(text@, needle@),
        r matches Some(rest) ==> rest@ == text@.skip(first_index(text@, needle@)),
{
    match find(text, needle) {
        Some(at) => Some(text.substring_char(at, text.unicode_len())),
        None => None,
    }
}

/// What follows the first place where `needle` stands in `text`.
pub fn after_first<'a>(text: &'a str, needle: &str) -> (r: Option<&'a str>)
    ensures
        r is Some <==> occurs(text@, needle@),
        r matches Some(rest) ==> rest@ == text@.skip(first_index(text@, needle@) + needle@.len()),
{
    match find(text, needle) {
        Some(at) => {
            let end = text.unicode_len();
            assert(at + needle@.len() <= end);
            Some(text.substring_char(at + needle.unicode_len(), end))
        },
        None => None,
    }
}

/// `text` up to the last place where `needle` stands, `needle` included.
pub fn through_last<'a>(text: &'a str, needle: &str) -> (r: Option<&'a str>)
    ensures
        r is Some <==> occurs(text@, needle@),
        r matches Some(rest) ==> rest@ == text@.take(last_index(text@, needle@) + needle@.len()),
{
    match rfind(text, needle) {
        Some(at) => {
            let after = text.unicode_len() - at;
            assert(needle@.len() <= after);
            Some(text.substring_char(0, at + needle.unicode_len()))
        },
        None => None,
    }
}

/// Whether `c` has the Unicode property `White_Space`.
pub fn white_space(c: char) -> (r: bool)
    ensures
        r == is_white_space(c),
{
    let n = c as u32;
    (9 <= n && n <= 13) || n == 32 || n == 133 || n == 160 || n == 5760 || (8192 <= n && n <= 8202)
        || n == 8232 || n == 8233 || n == 8239 || n == 8287 || n == 12288
}

/// `text` without white space at either end.
pub fn trim<'a>(text: &'a str) -> (r: &'a str)
    ensures
        r@ == trimmed(text@),
{
    let chars = characters(text);
    let mut start: usize = 0;
    assert(text@.skip(0) == text@);
    while start < chars.len() && white_space(chars[start])
        invariant
            start <= chars.len(),
            chars@ == text@,
            trimmed_front(text@) == trimmed_front(text@.skip(start as int)),
        decreases chars.len() - start,
    {
        assert(text@.skip(start as int).drop_first() == text@.skip(start + 1));
        start = start + 1;
    }
    let ghost front = text@.skip(start as int);
    assert(trimmed_front(text@) == front);
    let mut end: usize = chars.len();
    assert(text@.subrange(start as int, end as int) == front);
    while start < end && white_space(chars[end - 1])
        invariant
            start <= end <= chars.len(),
            chars@ == text@,
            trimmed_back(front) == trimmed_back(text@.subrange(start as int, end as int)),
        decreases end,
    {
        assert(text@.subrange(start as int, end as int).drop_last() == text@.subrange(
            start as int,
            end - 1,
        ));
        end = end - 1;
    }
    text.substring_char(start, end)
}

/// The text that a sequence of bytes encodes, where it is valid UTF-8.
///
/// `String::from_utf8` of the standard library.
#[verifier::external_body]
pub(crate) fn utf8_text(data: Vec<u8>) -> (r: Option<String>)
    ensures
        r is Some <==> valid_utf8(data@),
        r is Some ==> r->0@ == decode_utf8(data@),
{
    String::from_utf8(data).ok()
}

} // verus!

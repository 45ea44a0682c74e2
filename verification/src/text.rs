//! Text as a sequence of characters: searching, comparing and trimming.

use vstd::prelude::*;

verus! {

/// The characters of a text that may be missing.
pub open spec fn optional(s: Option<String>) -> Option<Seq<char>> {
    match s {
        Some(text) => Some(text@),
        None => None,
    }
}

/// The text that is given, or the default where none is.
pub open spec fn given_or(given: Option<Seq<char>>, default: Seq<char>) -> Seq<char> {
    match given {
        Some(text) => text,
        None => default,
    }
}

/// The text that is given, or the default where none is.
pub fn or_default(given: Option<String>, default: &str) -> (text: String)
    ensures
        text@ == given_or(optional(given), default@),
{
    match given {
        Some(text) => text,
        None => default.to_owned(),
    }
}

/// The small letter for a capital one of ASCII; every other character as it is.
pub open spec fn ascii_lower(c: char) -> char {
    if 'A' <= c && c <= 'Z' {
        (c as u32 + 32) as char
    } else {
        c
    }
}

/// Whether every character is one of ASCII.
pub open spec fn all_ascii(s: Seq<char>) -> bool {
    forall|i: int| 0 <= i < s.len() ==> (#[trigger] s[i] as u32) < 128
}

/// What `str::to_lowercase` makes of a text.
pub uninterp spec fn lowercase(s: Seq<char>) -> Seq<char>;

/// `str::to_lowercase`. On a text of ASCII characters it turns each capital letter into its small
/// one and changes nothing else; what it makes of other characters has only a name here.
#[verifier::external_body]
pub(crate) fn to_lowercase(s: &str) -> (res: String)
    ensures
        res@ == lowercase(s@),
        all_ascii(s@) ==> res@ == s@.map_values(|c: char| ascii_lower(c)),
{
    s.to_lowercase()
}

/// The position of the first `c` in `s`, or the length of `s` where there is none.
pub open spec fn position_of(s: Seq<char>, c: char) -> int
    decreases s.len(),
{
    if s.len() == 0 || s[0] == c {
        0
    } else {
        1 + position_of(s.skip(1), c)
    }
}

/// What stands in `s` before the first `c`; all of `s` where there is none.
pub open spec fn before_first(s: Seq<char>, c: char) -> Seq<char> {
    s.take(position_of(s, c))
}

/// What stands in `s` behind the first `c`, or nothing at all where there is none.
pub open spec fn after_first(s: Seq<char>, c: char) -> Option<Seq<char>> {
    if position_of(s, c) < s.len() {
        Some(s.skip(position_of(s, c) + 1))
    } else {
        None
    }
}

/// Whether the last characters of `s` are those of `suffix`.
pub open spec fn ends_with(s: Seq<char>, suffix: Seq<char>) -> bool {
    &&& suffix.len() <= s.len()
    &&& s.skip(s.len() - suffix.len()) == suffix
}

/// What stands in `s` before `suffix`, where `s` ends with it. One `suffix` is taken off, no more.
pub open spec fn without_suffix(s: Seq<char>, suffix: Seq<char>) -> Option<Seq<char>> {
    if ends_with(s, suffix) {
        Some(s.take(s.len() - suffix.len()))
    } else {
        None
    }
}

/// `position_of` is in range, holds a `c` unless it is the end, and nothing before it is a `c`.
pub proof fn lemma_position_of(s: Seq<char>, c: char)
    ensures
        0 <= position_of(s, c) <= s.len(),
        position_of(s, c) < s.len() ==> s[position_of(s, c)] == c,
        forall|j: int| 0 <= j < position_of(s, c) ==> s[j] != c,
    decreases s.len(),
{
    if s.len() == 0 || s[0] == c {
    } else {
        lemma_position_of(s.skip(1), c);
        assert forall|j: int| 0 <= j < position_of(s, c) implies s[j] != c by {
            if j > 0 {
                assert(s.skip(1)[j - 1] == s[j]);
            }
        }
    }
}

/// The first place that holds a `c`, or the end where no place does, is `position_of`.
pub proof fn lemma_position_is(s: Seq<char>, c: char, at: int)
    requires
        0 <= at <= s.len(),
        at < s.len() ==> s[at] == c,
        forall|j: int| 0 <= j < at ==> s[j] != c,
    ensures
        position_of(s, c) == at,
{
    lemma_position_of(s, c);
    let found = position_of(s, c);
    if found < at {
        assert(s[found] != c);
    }
    if at < found {
        assert(s[at] != c);
    }
}

/// The characters of `s`, in order.
pub fn chars_of(s: &str) -> (chars: Vec<char>)
    ensures
        chars@ == s@,
{
    let mut chars: Vec<char> = Vec::new();
    for c in it: s.chars()
        invariant
            chars@ == s@.take(it.index()),
            it.seq() == s@,
    {
        chars.push(c);
    }
    chars
}

/// Whether two texts hold the same characters.
pub fn same(a: &str, b: &str) -> (res: bool)
    ensures
        res == (a@ == b@),
{
    let left = chars_of(a);
    let right = chars_of(b);
    if left.len() != right.len() {
        return false;
    }
    let mut i: usize = 0;
    while i < left.len()
        invariant
            i <= left.len(),
            left.len() == right.len(),
            left@ == a@,
            right@ == b@,
            forall|j: int| 0 <= j < i ==> left@[j] == right@[j],
        decreases left.len() - i,
    {
        if left[i] != right[i] {
            return false;
        }
        i += 1;
    }
    assert(left@ =~= right@);
    true
}

/// The first place in `chars` that holds `c`, or the length where none does.
fn find(chars: &Vec<char>, c: char) -> (at: usize)
    ensures
        at == position_of(chars@, c),
        at <= chars.len(),
{
    let mut i: usize = 0;
    while i < chars.len()
        invariant
            i <= chars.len(),
            forall|j: int| 0 <= j < i ==> chars@[j] != c,
        decreases chars.len() - i,
    {
        if chars[i] == c {
            proof {
                lemma_position_is(chars@, c, i as int);
            }
            return i;
        }
        i += 1;
    }
    proof {
        lemma_position_is(chars@, c, i as int);
    }
    i
}

/// Splits `s` at the first `c`: what stands before it, and what stands behind it if there is one.
pub fn split_first(s: &str, c: char) -> (parts: (String, Option<String>))
    ensures
        parts.0@ == before_first(s@, c),
        parts.1 is Some <==> after_first(s@, c) is Some,
        parts.1 matches Some(rest) ==> after_first(s@, c) == Some(rest@),
{
    let chars = chars_of(s);
    let at = find(&chars, c);
    let head = s.substring_char(0, at).to_owned();
    assert(s@.subrange(0, at as int) =~= s@.take(at as int));
    if at < chars.len() {
        let tail = s.substring_char(at + 1, chars.len()).to_owned();
        assert(s@.subrange(at + 1, chars.len() as int) =~= s@.skip(at + 1));
        (head, Some(tail))
    } else {
        (head, None)
    }
}

/// What stands in `s` before `suffix`, where `s` ends with it.
pub fn strip_suffix(s: &str, suffix: &str) -> (res: Option<String>)
    ensures
        optional(res) == without_suffix(s@, suffix@),
{
    let chars = chars_of(s);
    let end = chars_of(suffix);
    if end.len() > chars.len() {
        return None;
    }
    let start = chars.len() - end.len();
    let mut i: usize = 0;
    while i < end.len()
        invariant
            i <= end.len(),
            start + end.len() == chars.len(),
            chars@ == s@,
            end@ == suffix@,
            forall|j: int| 0 <= j < i ==> chars@[start + j] == end@[j],
        decreases end.len() - i,
    {
        if chars[start + i] != end[i] {
            assert(s@.skip(start as int)[i as int] != suffix@[i as int]);
            return None;
        }
        i += 1;
    }
    assert(s@.skip(start as int) =~= suffix@);
    assert(s@.subrange(0, start as int) =~= s@.take(start as int));
    Some(s.substring_char(0, start).to_owned())
}

/// What is given stands as it is, and the default only where nothing is given.
pub proof fn law_given_or(given: Option<Seq<char>>, default: Seq<char>)
    ensures
        given matches Some(text) ==> given_or(given, default) == text,
        given is None ==> given_or(given, default) == default,
{
}

/// A text that is there is read character for character.
pub proof fn law_optional(s: Option<String>)
    ensures
        s matches Some(text) ==> optional(s) == Some(text@),
        s is None ==> optional(s) is None,
{
}

/// The small letter of a capital one stands thirty-two places behind it; nothing else changes.
pub proof fn law_ascii_lower(c: char)
    ensures
        65 <= c as u32 <= 90 ==> ascii_lower(c) as u32 == c as u32 + 32,
        !(65 <= c as u32 <= 90) ==> ascii_lower(c) == c,
{
}

/// A text is what stands before the first `c`, the `c`, and what stands behind it; where there is
/// no `c`, all of it stands before.
pub proof fn law_split(s: Seq<char>, c: char)
    ensures
        forall|j: int| 0 <= j < before_first(s, c).len() ==> #[trigger] before_first(s, c)[j] != c,
        after_first(s, c) matches Some(rest) ==> s == before_first(s, c) + seq![c] + rest,
        after_first(s, c) is None ==> s == before_first(s, c),
{
    lemma_position_of(s, c);
    let at = position_of(s, c);
    assert forall|j: int| 0 <= j < before_first(s, c).len() implies #[trigger] before_first(
        s,
        c,
    )[j] != c by {
        assert(s[j] != c);
    }
    if at < s.len() {
        assert(s =~= s.take(at) + seq![c] + s.skip(at + 1));
    } else {
        assert(s =~= s.take(at));
    }
}

/// What stands before a suffix is what makes the text together with the suffix; where nothing does,
/// there is none.
pub proof fn law_without_suffix(s: Seq<char>, suffix: Seq<char>)
    ensures
        without_suffix(s + suffix, suffix) == Some(s),
        without_suffix(s, suffix) matches Some(front) ==> front + suffix == s,
        without_suffix(s, suffix) is None ==> forall|front: Seq<char>|
            #[trigger] (front + suffix) != s,
{
    let whole = s + suffix;
    assert(whole.skip(whole.len() - suffix.len()) =~= suffix);
    assert(whole.take(whole.len() - suffix.len()) =~= s);
    if let Some(front) = without_suffix(s, suffix) {
        assert(s.skip(s.len() - suffix.len()) == suffix);
        assert(front + suffix =~= s);
    } else {
        assert forall|front: Seq<char>| #[trigger] (front + suffix) != s by {
            if front + suffix == s {
                assert(s.skip(s.len() - suffix.len()) =~= suffix);
            }
        }
    }
}

} // verus!

//! Strings as sequences of characters: the few operations the index needs on
//! them, and the calls into `regex` and `std` that produce its tokens.

use vstd::prelude::*;
use vstd::string::StringExecFns;

verus! {

/// The character sequences of a list of strings.
pub open spec fn texts(strings: Seq<String>) -> Seq<Seq<char>> {
    strings.map_values(|s: String| s@)
}

/// The character sequences of a list of optional strings.
pub open spec fn optional_texts(strings: Seq<Option<String>>) -> Seq<Option<Seq<char>>> {
    strings.map_values(
        |s: Option<String>|
            match s {
                Some(s) => Some(s@),
                None => None,
            },
    )
}

/// What `str::to_lowercase` returns for `text`.
pub uninterp spec fn lowercased(text: Seq<char>) -> Seq<char>;

/// What `str::split_whitespace` yields for `text`, in order.
pub uninterp spec fn whitespace_split(text: Seq<char>) -> Seq<Seq<char>>;

/// What the first capture group of `pattern` holds in each successive match
/// that `regex` finds in `text`: `None` for a match in which the group took no
/// part. The whole is `None` where `regex` does not accept `pattern`.
pub uninterp spec fn pattern_groups(pattern: Seq<char>, text: Seq<char>) -> Option<
    Seq<Option<Seq<char>>>,
>;

/// Calls `str::to_lowercase`. Trusted: the result is a function of the text
/// alone, which [`lowercased`] names; nothing more is claimed of it.
#[verifier::external_body]
pub(crate) fn to_lowercase(text: &str) -> (lower: String)
    ensures
        lower@ == lowercased(text@),
{
    text.to_lowercase()
}

/// Calls `str::split_whitespace` and copies each word it yields. Trusted: the
/// words are a function of the text alone, which [`whitespace_split`] names;
/// nothing more is claimed of them.
#[verifier::external_body]
pub(crate) fn split_whitespace(text: &str) -> (words: Vec<String>)
    ensures
        texts(words@) == whitespace_split(text@),
{
    text.split_whitespace().map(|word| word.to_string()).collect()
}

/// Compiles `pattern` with `regex::Regex::new` and walks `text` with
/// `Regex::captures_iter`, copying what `Captures::get(1)` holds in each match.
/// Trusted: the outcome is a function of the pattern and the text alone, which
/// [`pattern_groups`] names; nothing is claimed of what matches.
#[verifier::external_body]
pub(crate) fn first_groups(pattern: &str, text: &str) -> (found: Option<Vec<Option<String>>>)
    ensures
        match found {
            Some(groups) => pattern_groups(pattern@, text@) == Some(optional_texts(groups@)),
            None => pattern_groups(pattern@, text@) is None,
        },
{
    match regex::Regex::new(pattern) {
        Ok(compiled) => Some(
            compiled.captures_iter(text).map(
                |caps| caps.get(1).map(|group| group.as_str().to_string()),
            ).collect(),
        ),
        Err(_) => None,
    }
}

/// The groups that took part in their match, in order.
pub open spec fn present(groups: Seq<Option<Seq<char>>>) -> Seq<Seq<char>>
    decreases groups.len(),
{
    if groups.len() == 0 {
        Seq::empty()
    } else {
        match groups.last() {
            Some(group) => present(groups.drop_last()).push(group),
            None => present(groups.drop_last()),
        }
    }
}

/// The text of the first capture group in each match of `pattern` in `text`;
/// nothing where the pattern is not accepted.
pub open spec fn captured(pattern: Seq<char>, text: Seq<char>) -> Seq<Seq<char>> {
    match pattern_groups(pattern, text) {
        Some(groups) => present(groups),
        None => Seq::empty(),
    }
}

/// Each text lowercased.
pub open spec fn lowered_each(words: Seq<Seq<char>>) -> Seq<Seq<char>> {
    words.map_values(|word: Seq<char>| lowercased(word))
}

/// `needle` occurs in `hay` as a contiguous run.
pub open spec fn occurs_in(needle: Seq<char>, hay: Seq<char>) -> bool {
    exists|at: int|
        0 <= at <= hay.len() - needle.len() && #[trigger] hay.subrange(at, at + needle.len())
            == needle
}

/// `a` and `b` joined by one space.
pub open spec fn spaced(a: Seq<char>, b: Seq<char>) -> Seq<char> {
    a + seq![' '] + b
}

/// The characters of a string.
pub fn characters(text: &str) -> (chars: Vec<char>)
    ensures
        chars@ == text@,
{
    let mut chars: Vec<char> = Vec::new();
    for c in it: text.chars()
        invariant
            it.seq() == text@,
            chars@ == it.seq().take(it.index() as int),
    {
        chars.push(c);
    }
    chars
}

/// Whether `text` begins with `prefix`.
pub fn has_prefix(text: &str, prefix: &Vec<char>) -> (yes: bool)
    ensures
        yes == prefix@.is_prefix_of(text@),
{
    let mut matched: usize = 0;
    for c in it: text.chars()
        invariant
            it.seq() == text@,
            matched == it.index(),
            matched <= prefix.len(),
            prefix@.take(matched as int) == text@.take(matched as int),
    {
        if matched == prefix.len() {
            assert(prefix@.take(matched as int) == prefix@);
            return true;
        }
        if c != prefix[matched] {
            proof {
                if prefix@.len() <= text@.len() {
                    assert(text@.subrange(0, prefix@.len() as int)[matched as int]
                        == text@[matched as int]);
                }
            }
            return false;
        }
        assert(prefix@.take(matched + 1) == prefix@.take(matched as int).push(prefix@[matched as int]));
        assert(text@.take(matched + 1) == text@.take(matched as int).push(text@[matched as int]));
        matched = matched + 1;
    }
    assert(prefix@.take(prefix@.len() as int) == prefix@);
    matched == prefix.len()
}

/// Whether `needle` lies in `hay` at position `at`.
fn matches_at(hay: &Vec<char>, needle: &Vec<char>, at: usize) -> (yes: bool)
    requires
        at + needle.len() <= hay.len(),
    ensures
        yes == (hay@.subrange(at as int, at + needle.len()) == needle@),
{
    let mut k: usize = 0;
    while k < needle.len()
        invariant
            k <= needle.len(),
            at + needle.len() <= hay.len(),
            forall|j: int| 0 <= j < k ==> hay@[at + j] == needle@[j],
        decreases needle.len() - k,
    {
        if hay[at + k] != needle[k] {
            assert(hay@.subrange(at as int, at + needle.len())[k as int] != needle@[k as int]);
            return false;
        }
        k = k + 1;
    }
    assert(hay@.subrange(at as int, at + needle.len()) =~= needle@);
    true
}

/// Whether `needle` occurs in `hay` as a contiguous run.
pub fn contains_run(hay: &Vec<char>, needle: &Vec<char>) -> (yes: bool)
    ensures
        yes == occurs_in(needle@, hay@),
{
    if needle.len() > hay.len() {
        return false;
    }
    let last: usize = hay.len() - needle.len();
    let mut at: usize = 0;
    while at < last
        invariant
            last == hay.len() - needle.len(),
            at <= last,
            forall|j: int| 0 <= j < at ==> #[trigger] hay@.subrange(j, j + needle.len()) != needle@,
        decreases last - at,
    {
        if matches_at(hay, needle, at) {
            return true;
        }
        at = at + 1;
    }
    matches_at(hay, needle, last)
}

/// Whether the character `c` occurs in `text`.
pub fn contains_char(text: &Vec<char>, c: char) -> (yes: bool)
    ensures
        yes == text@.contains(c),
{
    let mut i: usize = 0;
    while i < text.len()
        invariant
            i <= text.len(),
            forall|j: int| 0 <= j < i ==> text@[j] != c,
        decreases text.len() - i,
    {
        if text[i] == c {
            return true;
        }
        i = i + 1;
    }
    false
}

/// `a` and `b` joined by one space.
pub fn join_spaced(a: &str, b: &str) -> (joined: String)
    ensures
        joined@ == spaced(a@, b@),
{
    let mut joined = String::from_str(a);
    proof {
        reveal_strlit(" ");
    }
    joined.append(" ");
    joined.append(b);
    assert(" "@ =~= seq![' ']);
    joined
}

/// Drops the groups that took no part in their match.
pub fn present_groups(groups: Vec<Option<String>>) -> (kept: Vec<String>)
    ensures
        texts(kept@) == present(optional_texts(groups@)),
{
    let ghost all = optional_texts(groups@);
    let mut kept: Vec<String> = Vec::new();
    for group in it: groups
        invariant
            optional_texts(it.seq()) == all,
            texts(kept@) == present(all.take(it.index() as int)),
    {
        proof {
            let i = it.index() as int;
            assert(all.take(i + 1).drop_last() == all.take(i));
            assert(all.take(i + 1).last() == all[i]);
        }
        match group {
            Some(text) => {
                let ghost before = kept@;
                kept.push(text);
                assert(texts(kept@) == texts(before).push(text@));
            },
            None => {},
        }
    }
    assert(all.take(all.len() as int) == all);
    kept
}

/// The text of the first capture group in each match of `pattern` in `text`.
pub fn captures(pattern: &str, text: &str) -> (found: Vec<String>)
    ensures
        texts(found@) == captured(pattern@, text@),
{
    match first_groups(pattern, text) {
        Some(groups) => present_groups(groups),
        None => {
            let none: Vec<String> = Vec::new();
            assert(texts(none@) == Seq::<Seq<char>>::empty());
            none
        },
    }
}

/// Lowercases each word.
pub fn lowercase_each(words: &Vec<String>) -> (lowered: Vec<String>)
    ensures
        texts(lowered@) == lowered_each(texts(words@)),
{
    let mut lowered: Vec<String> = Vec::new();
    let mut i: usize = 0;
    while i < words.len()
        invariant
            i <= words.len(),
            lowered.len() == i,
            forall|j: int| 0 <= j < i ==> lowered@[j]@ == lowercased(#[trigger] words@[j]@),
        decreases words.len() - i,
    {
        lowered.push(to_lowercase(words[i].as_str()));
        i = i + 1;
    }
    assert(texts(lowered@) =~= lowered_each(texts(words@)));
    lowered
}

} // verus!

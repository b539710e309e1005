//! What the library takes on trust from std and from outside crates.

use vstd::prelude::*;
use vstd::utf8::is_ascii_chars;

use crate::search::contains;
use crate::text::opt_text;

verus! {

/// `String::push`: the string grows by the one character, at its end.
pub assume_specification[ String::push ](s: &mut String, c: char)
    ensures
        final(s)@ == old(s)@.push(c),
;

/// `==` on `str`: equal exactly when both hold the same characters.
pub assume_specification[ <str as PartialEq>::eq ](a: &str, b: &str) -> (same: bool)
    ensures
        same == (a@ == b@),
;

/// What `str::to_uppercase` makes of a text: it goes by Unicode's tables.
pub uninterp spec fn uppercased(s: Seq<char>) -> Seq<char>;

/// What `str::to_lowercase` makes of a text: it goes by Unicode's tables.
pub uninterp spec fn lowercased(s: Seq<char>) -> Seq<char>;

/// An ASCII letter as a capital; any other character as it is.
pub open spec fn ascii_upper(c: char) -> char {
    if 'a' <= c <= 'z' {
        ((c as u8 - 32) as u8) as char
    } else {
        c
    }
}

/// An ASCII capital as a small letter; any other character as it is.
pub open spec fn ascii_lower(c: char) -> char {
    if 'A' <= c <= 'Z' {
        ((c as u8 + 32) as u8) as char
    } else {
        c
    }
}

/// Calls `str::to_uppercase`, whose result is named `uppercased`. Of a text of
/// ASCII characters it is claimed that its small letters become capitals and
/// nothing else changes.
#[verifier::external_body]
pub(crate) fn to_upper(s: &str) -> (out: String)
    ensures
        out@ == uppercased(s@),
        is_ascii_chars(s@) ==> out@ == s@.map_values(|c: char| ascii_upper(c)),
{
    s.to_uppercase()
}

/// Calls `str::to_lowercase`, whose result is named `lowercased`. Of a text of
/// ASCII characters it is claimed that its capitals become small letters and
/// nothing else changes.
#[verifier::external_body]
pub(crate) fn to_lower(s: &str) -> (out: String)
    ensures
        out@ == lowercased(s@),
        is_ascii_chars(s@) ==> out@ == s@.map_values(|c: char| ascii_lower(c)),
{
    s.to_lowercase()
}

/// What serde_json finds in a text: nothing where it is no JSON; else whether it is
/// an object with a member, and there, where the value of its first member has a
/// member of that name with a boolean in it, the boolean. Which member is the first
/// is up to the order of the crate's own map.
pub uninterp spec fn first_member_flag(text: Seq<char>, name: Seq<char>) -> Option<
    Option<Option<bool>>,
>;

/// Calls `serde_json::from_str` and, on the value, `Value::as_object`,
/// `Map::values`, `Value::get` and `Value::as_bool`. What comes out is a function of
/// the two texts, named `first_member_flag`.
#[verifier::external_body]
pub(crate) fn read_first_member_flag(text: &str, name: &str) -> (flag: Option<
    Option<Option<bool>>,
>)
    ensures
        flag == first_member_flag(text@, name@),
{
    let value: serde_json::Value = serde_json::from_str(text).ok()?;
    let first = value.as_object().and_then(|object| object.values().next());
    Some(first.map(|info| info.get(name).and_then(|flag| flag.as_bool())))
}

/// What serde_json finds in a text: nothing where it is no JSON; else, where it is an
/// object with a member of that name and a string in it, the string.
pub uninterp spec fn text_member(text: Seq<char>, name: Seq<char>) -> Option<Option<Seq<char>>>;

/// The text of what was found.
pub open spec fn found_text(found: Option<Option<String>>) -> Option<Option<Seq<char>>> {
    match found {
        Some(s) => Some(opt_text(s)),
        None => None,
    }
}

/// Calls `serde_json::from_str` and, on the value, `Value::get` and `Value::as_str`.
/// What comes out is a function of the two texts, named `text_member`.
#[verifier::external_body]
pub(crate) fn read_text_member(text: &str, name: &str) -> (found: Option<Option<String>>)
    ensures
        found_text(found) == text_member(text@, name@),
{
    let value: serde_json::Value = serde_json::from_str(text).ok()?;
    Some(value.get(name).and_then(|member| member.as_str()).map(|s| s.to_string()))
}

/// What the regex crate finds in a text: nothing where the pattern is no regular
/// expression; else whether it matches, and there, for the leftmost match, the texts
/// of its first two groups, each where the group took part in the match.
pub uninterp spec fn two_groups(pattern: Seq<char>, text: Seq<char>) -> Option<
    Option<(Option<Seq<char>>, Option<Seq<char>>)>,
>;

/// The texts of what was found.
pub open spec fn group_texts(found: Option<Option<(Option<String>, Option<String>)>>) -> Option<
    Option<(Option<Seq<char>>, Option<Seq<char>>)>,
> {
    match found {
        Some(Some((one, two))) => Some(Some((opt_text(one), opt_text(two)))),
        Some(None) => Some(None),
        None => None,
    }
}

/// Calls `regex::Regex::new` and, on the expression, `Regex::captures`,
/// `Captures::get` and `Match::as_str`. What comes out is a function of the two
/// texts, named `two_groups`. A group holds a part of the text that was searched.
#[verifier::external_body]
pub(crate) fn find_two_groups(pattern: &str, text: &str) -> (found: Option<
    Option<(Option<String>, Option<String>)>,
>)
    ensures
        group_texts(found) == two_groups(pattern@, text@),
        found matches Some(Some((Some(one), _))) ==> contains(text@, one@),
        found matches Some(Some((_, Some(two)))) ==> contains(text@, two@),
{
    let re = regex::Regex::new(pattern).ok()?;
    Some(re.captures(text).map(|caps| {
        let one = caps.get(1).map(|group| group.as_str().to_string());
        let two = caps.get(2).map(|group| group.as_str().to_string());
        (one, two)
    }))
}

/// A capital and its small letter are 32 apart, and no other character changes.
pub proof fn law_ascii_letters(c: char)
    ensures
        'a' <= c <= 'z' ==> ascii_upper(c) as u32 == c as u32 - 32,
        !('a' <= c <= 'z') ==> ascii_upper(c) == c,
        'A' <= c <= 'Z' ==> ascii_lower(c) as u32 == c as u32 + 32,
        !('A' <= c <= 'Z') ==> ascii_lower(c) == c,
{
}

/// What was found says its texts, and where nothing was found that.
pub proof fn law_found_says_all(one: Option<String>, two: Option<String>)
    ensures
        found_text(None) is None,
        found_text(Some(one)) == Some(opt_text(one)),
        group_texts(None) is None,
        group_texts(Some(None)) == Some(None::<(Option<Seq<char>>, Option<Seq<char>>)>),
        group_texts(Some(Some((one, two)))) == Some(Some((opt_text(one), opt_text(two)))),
{
}

} // verus!

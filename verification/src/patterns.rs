//! Calls into the `regex` and `glob` crates, with what they are trusted to
//! return, and std's class of white-space characters.
use vstd::prelude::*;

verus! {

/// Whether `regex` accepts `pattern` (what `Regex::new` decides).
pub uninterp spec fn regex_valid(pattern: Seq<char>) -> bool;

/// What `Regex::replace_all` gives for `text`, every match of `pattern`
/// replaced by `rep`.
pub uninterp spec fn regex_replaced(pattern: Seq<char>, text: Seq<char>, rep: Seq<char>) -> Seq<char>;

/// What `Regex::is_match` answers: whether `pattern` matches somewhere in `text`.
pub uninterp spec fn regex_matches(pattern: Seq<char>, text: Seq<char>) -> bool;

/// What `Regex::captures` gives for `text`: `None` where `pattern` does not
/// match, else the text of each group of the first match (the whole match
/// first), `None` for a group that took no part in it.
pub uninterp spec fn regex_captured(pattern: Seq<char>, text: Seq<char>) -> Option<Seq<Option<Seq<char>>>>;

/// Whether `glob` accepts `pattern` (what `Pattern::new` decides).
pub uninterp spec fn glob_valid(pattern: Seq<char>) -> bool;

/// What `Pattern::matches` answers: whether the whole of `text` matches `pattern`.
pub uninterp spec fn glob_matches(pattern: Seq<char>, text: Seq<char>) -> bool;

/// Calls `glob::Pattern::new(pattern)` and, where the pattern is accepted,
/// `matches(text)`. Claims: where the pattern is accepted the answer is
/// `glob_matches` of the two texts; where it is refused, `false`.
#[verifier::external_body]
pub(crate) fn glob_is_match(pattern: &str, text: &str) -> (res: bool)
    ensures
        glob_valid(pattern@) ==> res == glob_matches(pattern@, text@),
        !glob_valid(pattern@) ==> !res,
{
    match glob::Pattern::new(pattern) {
        Ok(p) => p.matches(text),
        Err(_) => false,
    }
}

/// Whether `c` is white space as std counts it (`char::is_whitespace`):
/// whether it has Unicode's White_Space property.
pub open spec fn char_ws(c: char) -> bool {
    let n = c as u32;
    ||| 0x9 <= n <= 0xD
    ||| n == 0x20
    ||| n == 0x85
    ||| n == 0xA0
    ||| n == 0x1680
    ||| 0x2000 <= n <= 0x200A
    ||| n == 0x2028
    ||| n == 0x2029
    ||| n == 0x202F
    ||| n == 0x205F
    ||| n == 0x3000
}

/// Calls `Regex::new(pattern)` and, where the pattern is accepted,
/// `replace_all(text, rep)`. Claims: where the pattern is accepted the result
/// is `regex_replaced` of the three texts; where it is refused, `text` itself.
#[verifier::external_body]
pub(crate) fn regex_replace_all(pattern: &str, text: &str, rep: &str) -> (res: String)
    ensures
        regex_valid(pattern@) ==> res@ == regex_replaced(pattern@, text@, rep@),
        !regex_valid(pattern@) ==> res@ == text@,
{
    match regex::Regex::new(pattern) {
        Ok(re) => re.replace_all(text, rep).into_owned(),
        Err(_) => text.to_string(),
    }
}

/// Calls `Regex::new(pattern)` and, where the pattern is accepted,
/// `is_match(text)`. Claims: where the pattern is accepted the answer is
/// `regex_matches` of the two texts; where it is refused, `false`.
#[verifier::external_body]
pub(crate) fn regex_is_match(pattern: &str, text: &str) -> (res: bool)
    ensures
        regex_valid(pattern@) ==> res == regex_matches(pattern@, text@),
        !regex_valid(pattern@) ==> !res,
{
    match regex::Regex::new(pattern) {
        Ok(re) => re.is_match(text),
        Err(_) => false,
    }
}

/// The view of the groups of a match.
pub open spec fn groups_view(v: Seq<Option<String>>) -> Seq<Option<Seq<char>>> {
    v.map_values(|g: Option<String>| match g {
        Some(s) => Some(s@),
        None => None,
    })
}

/// Calls `Regex::new(pattern)` and, where the pattern is accepted,
/// `captures(text)`, handing each group out as an owned string. Claims: where
/// the pattern is accepted the groups are `regex_captured` of the two texts;
/// where it is refused, `None`.
#[verifier::external_body]
pub(crate) fn regex_captures(pattern: &str, text: &str) -> (res: Option<Vec<Option<String>>>)
    ensures
        regex_valid(pattern@) ==> match res {
            Some(v) => regex_captured(pattern@, text@) == Some(groups_view(v@)),
            None => regex_captured(pattern@, text@) is None,
        },
        !regex_valid(pattern@) ==> res is None,
{
    let re = match regex::Regex::new(pattern) {
        Ok(re) => re,
        Err(_) => return None,
    };
    re.captures(text).map(|c| c.iter().map(|m| m.map(|m| m.as_str().to_string())).collect())
}

/// Whether `c` is white space; see `char_ws`.
pub(crate) fn is_whitespace(c: char) -> (res: bool)
    ensures
        res == char_ws(c),
        (c == ' ' || c == '\t' || c == '\n' || c == '\r') ==> res,
{
    let n = c as u32;
    (0x9 <= n && n <= 0xD) || n == 0x20 || n == 0x85 || n == 0xA0 || n == 0x1680 || (0x2000 <= n && n <= 0x200A)
        || n == 0x2028 || n == 0x2029 || n == 0x202F || n == 0x205F || n == 0x3000
}

} // verus!

//! Regular expressions, as the `regex` crate matches them.
use crate::text;
use vstd::prelude::*;

verus! {

/// The groups of a match: the whole match first, then each group of the
/// pattern, absent where it took no part in the match.
pub open spec fn groups(v: Seq<Option<String>>) -> Seq<Option<Seq<char>>> {
    Seq::new(v.len(), |i: int| text::opt_text(v[i]))
}

/// The groups of each of several matches.
pub open spec fn all_groups(v: Seq<Vec<Option<String>>>) -> Seq<Seq<Option<Seq<char>>>> {
    Seq::new(v.len(), |i: int| groups(v[i]@))
}

/// The groups of the leftmost match of a pattern in a text; `None` where the
/// pattern does not compile or nothing matches.
pub uninterp spec fn regex_captures(pattern: Seq<char>, text: Seq<char>) -> Option<
    Seq<Option<Seq<char>>>,
>;

/// The groups of every match of a pattern in a text, from left to right; none
/// where the pattern does not compile.
pub uninterp spec fn regex_captures_iter(pattern: Seq<char>, text: Seq<char>) -> Seq<
    Seq<Option<Seq<char>>>,
>;

/// `regex::Regex::captures` on the pattern that `regex::Regex::new` compiles:
/// the groups of the leftmost match, by name of that result alone.
#[verifier::external_body]
pub(crate) fn captures(pattern: &str, text: &str) -> (r: Option<Vec<Option<String>>>)
    ensures
        match r {
            Some(v) => regex_captures(pattern@, text@) == Some(groups(v@)),
            None => regex_captures(pattern@, text@) is None,
        },
{
    let compiled = regex::Regex::new(pattern).ok()?;
    let found = compiled.captures(text)?;
    Some(found.iter().map(|group| group.map(|m| m.as_str().to_string())).collect())
}

/// `regex::Regex::captures_iter` on the pattern that `regex::Regex::new`
/// compiles: the groups of each match, by name of that result alone.
#[verifier::external_body]
pub(crate) fn captures_iter(pattern: &str, text: &str) -> (r: Vec<Vec<Option<String>>>)
    ensures
        all_groups(r@) == regex_captures_iter(pattern@, text@),
{
    let Ok(compiled) = regex::Regex::new(pattern) else {
        return Vec::new();
    };
    compiled
        .captures_iter(text)
        .map(|found| found.iter().map(|group| group.map(|m| m.as_str().to_string())).collect())
        .collect()
}

/// Group `n` of a match, where there is a match and the group took part in it.
pub open spec fn group(found: Option<Seq<Option<Seq<char>>>>, n: int) -> Option<Seq<char>> {
    match found {
        Some(all) => if 0 <= n < all.len() {
            all[n]
        } else {
            None
        },
        None => None,
    }
}

} // verus!

//! Path filters: regular expressions that decide which paths are left out.

use vstd::prelude::*;

verus! {

/// A compiled regular expression.
#[verifier::external_type_specification]
#[verifier::external_body]
pub struct ExRegex(regex::Regex);

/// Why a pattern is no regular expression.
#[verifier::external_type_specification]
#[verifier::external_body]
pub struct ExRegexError(regex::Error);

/// Whether `pattern` is a regular expression that `Regex::new` accepts.
pub uninterp spec fn regex_compiles(pattern: Seq<char>) -> bool;

/// The pattern that a compiled expression was made from (`Regex::as_str`).
pub uninterp spec fn regex_source(re: regex::Regex) -> Seq<char>;

/// Whether the expression written as `pattern` matches somewhere in `text`
/// (`Regex::is_match`).
pub uninterp spec fn regex_matches(pattern: Seq<char>, text: Seq<char>) -> bool;

/// `Regex::new`. Not proved: that whether it succeeds depends on the pattern
/// alone, and that the expression it returns remembers its pattern.
#[verifier::external_body]
pub(crate) fn compile(pattern: &str) -> (r: Result<regex::Regex, regex::Error>)
    ensures
        r is Ok <==> regex_compiles(pattern@),
        r matches Ok(re) ==> regex_source(re) == pattern@,
{
    regex::Regex::new(pattern)
}

/// `Regex::is_match`. Not proved: that whether a compiled expression matches
/// depends on its pattern and the text alone.
#[verifier::external_body]
pub(crate) fn is_match(re: &regex::Regex, text: &str) -> (r: bool)
    ensures
        r == regex_matches(regex_source(*re), text@),
{
    re.is_match(text)
}

/// Whether `path` is matched by one of `patterns`; a pattern that is no
/// regular expression matches nothing.
pub open spec fn matches_any(patterns: Seq<Seq<char>>, path: Seq<char>) -> bool {
    exists|i: int|
        0 <= i < patterns.len() && regex_compiles(#[trigger] patterns[i]) && regex_matches(
            patterns[i],
            path,
        )
}

/// Whether one of `patterns` matches `path`. A pattern that is no regular
/// expression matches nothing.
pub fn path_excluded(path: &str, patterns: &Vec<String>) -> (r: bool)
    ensures
        r == matches_any(patterns@.map_values(|p: String| p@), path@),
{
    let ghost views = patterns@.map_values(|p: String| p@);
    let mut i: usize = 0;
    while i < patterns.len()
        invariant
            i <= patterns.len(),
            views == patterns@.map_values(|p: String| p@),
            forall|j: int| 0 <= j < i ==> !(regex_compiles(#[trigger] views[j]) && regex_matches(views[j], path@)),
        decreases patterns.len() - i,
    {
        match compile(patterns[i].as_str()) {
            Ok(re) => {
                if is_match(&re, path) {
                    assert(regex_compiles(views[i as int]) && regex_matches(views[i as int], path@));
                    return true;
                }
            },
            Err(_) => {},
        }
        i += 1;
    }
    false
}

} // verus!

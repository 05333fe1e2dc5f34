//! Regular expressions, compiled and matched by the `regex` crate.

use vstd::prelude::*;

verus! {

#[verifier::external_type_specification]
#[verifier::external_body]
pub struct ExRegex(regex::Regex);

/// The pattern `pattern` is a regular expression that `regex::Regex::new`
/// accepts.
pub uninterp spec fn regex_compiles(pattern: Seq<char>) -> bool;

/// The regular expression `pattern` matches somewhere in `text`, as
/// `regex::Regex::is_match` decides it.
pub uninterp spec fn regex_matches(pattern: Seq<char>, text: Seq<char>) -> bool;

/// The text of the leftmost-first match of the regular expression `pattern`
/// in `text`, as `regex::Regex::captures` reports it in its group 0; `None`
/// when it matches nowhere.
pub uninterp spec fn regex_first_match(pattern: Seq<char>, text: Seq<char>) -> Option<Seq<char>>;

/// The view of an optional string.
pub open spec fn option_view(o: Option<String>) -> Option<Seq<char>> {
    match o {
        Some(s) => Some(s@),
        None => None,
    }
}

/// A compiled regular expression together with the pattern it was compiled
/// from. Values are made only by `Pattern::new`, so `regex` is always the
/// compilation of `source`.
pub struct Pattern {
    regex: regex::Regex,
    source: String,
}

impl Pattern {
    /// The pattern this regular expression was compiled from.
    pub closed spec fn source(&self) -> Seq<char> {
        self.source@
    }

    /// Compiles `source`; `None` where the crate refuses the pattern.
    pub fn new(source: &str) -> (r: Option<Pattern>)
        ensures
            r is Some <==> regex_compiles(source@),
            r matches Some(p) ==> p.source() == source@,
    {
        compile(source)
    }

    /// The regular expression matches somewhere in `text`.
    pub fn is_match(&self, text: &str) -> (b: bool)
        ensures
            b == regex_matches(self.source(), text@),
    {
        regex_is_match(self, text)
    }

    /// The text of the first match of the regular expression in `text`.
    pub fn first_match(&self, text: &str) -> (r: Option<String>)
        ensures
            option_view(r) == regex_first_match(self.source(), text@),
            r is Some <==> regex_matches(self.source(), text@),
    {
        regex_captures(self, text)
    }
}

/// Calls `regex::Regex::new`. Claimed of it: it succeeds exactly on the
/// patterns of `regex_compiles`, and the result keeps the pattern it was
/// compiled from. Which patterns compile is not stated.
#[verifier::external_body]
fn compile(source: &str) -> (r: Option<Pattern>)
    ensures
        r is Some <==> regex_compiles(source@),
        r matches Some(p) ==> p.source() == source@,
{
    match regex::Regex::new(source) {
        Ok(regex) => Some(Pattern { regex, source: source.to_string() }),
        Err(_) => None,
    }
}

/// Calls `regex::Regex::is_match` on the compiled pattern. Claimed of it: the
/// answer is `regex_matches` of the pattern's source and the text; what a
/// pattern matches is not stated.
#[verifier::external_body]
fn regex_is_match(p: &Pattern, text: &str) -> (b: bool)
    ensures
        b == regex_matches(p.source(), text@),
{
    p.regex.is_match(text)
}

/// Calls `regex::Regex::captures` on the compiled pattern and takes the text
/// of its group 0. Claimed of it: the result is `regex_first_match` of the
/// pattern's source and the text; it is `Some` exactly where `is_match` is
/// true (`captures` returns `None` only when no match is found, and group 0
/// is always present in a match). Which text the match is, is not stated.
#[verifier::external_body]
fn regex_captures(p: &Pattern, text: &str) -> (r: Option<String>)
    ensures
        option_view(r) == regex_first_match(p.source(), text@),
        r is Some <==> regex_matches(p.source(), text@),
{
    match p.regex.captures(text) {
        Some(caps) => match caps.get(0) {
            Some(m) => Some(m.as_str().to_string()),
            None => None,
        },
        None => None,
    }
}

} // verus!

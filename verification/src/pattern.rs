//! Regular expressions, through the `regex` crate.
//!
//! A compiled expression is carried together with the pattern it was built
//! from; the contracts below speak of that pattern.
use vstd::prelude::*;

verus! {

#[verifier::external_type_specification]
#[verifier::external_body]
pub struct ExRegex(regex::Regex);

/// Whether `regex::Regex::new` accepts the pattern.
pub uninterp spec fn regex_compiles(pattern: Seq<char>) -> bool;

/// What `regex::Regex::replace_all` gives for a regex built from `pattern`,
/// the haystack `text` and the replacement string `replacement` (with its
/// `$name` / `${name}` group references expanded).
pub uninterp spec fn regex_replace_all(pattern: Seq<char>, text: Seq<char>, replacement: Seq<char>) -> Seq<char>;

/// For a regex built from `pattern`: the successive non-overlapping matches of
/// `regex::Regex::captures_iter` in `text`, each mapped to the text of its group
/// named `group` (`None` where the group did not take part in the match).
pub uninterp spec fn regex_named_captures(pattern: Seq<char>, text: Seq<char>, group: Seq<char>) -> Seq<Option<Seq<char>>>;

/// What `regex::Regex::is_match` answers for a regex built from `pattern` on `text`.
pub uninterp spec fn regex_is_match(pattern: Seq<char>, text: Seq<char>) -> bool;

/// A compiled regular expression together with the pattern it was compiled from.
pub struct Pattern {
    source: String,
    compiled: regex::Regex,
}

impl View for Pattern {
    type V = Seq<char>;

    closed spec fn view(&self) -> Seq<char> {
        self.source@
    }
}

pub open spec fn opt_text(o: Option<String>) -> Option<Seq<char>> {
    match o {
        Some(s) => Some(s@),
        None => None,
    }
}

impl Pattern {
    /// Compiles `pattern` with `regex::Regex::new`.
    /// Claimed: `Some` exactly where the crate accepts the pattern (a function of
    /// the pattern alone), and the result carries that pattern.
    #[verifier::external_body]
    pub(crate) fn compile(pattern: &str) -> (r: Option<Pattern>)
        ensures
            r is Some <==> regex_compiles(pattern@),
            r matches Some(p) ==> p@ == pattern@,
    {
        match regex::Regex::new(pattern) {
            Ok(compiled) => Some(Pattern { source: pattern.to_string(), compiled }),
            Err(_) => None,
        }
    }

    /// `regex::Regex::replace_all` with a string replacement.
    /// Claimed: the result is the named function of the pattern, the haystack and
    /// the replacement.
    #[verifier::external_body]
    pub(crate) fn replace_all(&self, text: &str, replacement: &str) -> (r: String)
        ensures
            r@ == regex_replace_all(self@, text@, replacement@),
    {
        self.compiled.replace_all(text, replacement).into_owned()
    }

    /// `regex::Regex::captures_iter`, each match mapped by `Captures::name` to the
    /// text of the group `group`.
    /// Claimed: the result, element by element, is the named function of the
    /// pattern, the haystack and the group name.
    #[verifier::external_body]
    pub(crate) fn named_captures(&self, text: &str, group: &str) -> (r: Vec<Option<String>>)
        ensures
            r@.map_values(|o: Option<String>| opt_text(o)) == regex_named_captures(self@, text@, group@),
    {
        self.compiled.captures_iter(text).map(|c| c.name(group).map(|m| m.as_str().to_string())).collect()
    }

    /// `regex::Regex::is_match`.
    /// Claimed: the answer is the named function of the pattern and the haystack.
    #[verifier::external_body]
    pub(crate) fn is_match(&self, text: &str) -> (r: bool)
        ensures
            r == regex_is_match(self@, text@),
    {
        self.compiled.is_match(text)
    }
}

} // verus!

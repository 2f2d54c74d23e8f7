//! Regular expressions (the `regex` crate), held with the pattern they were
//! compiled from.
use vstd::prelude::*;
use regex::Regex;

verus! {

#[verifier::external_type_specification]
#[verifier::external_body]
pub struct ExRegex(Regex);

/// Whether `regex` accepts `pattern`.
pub uninterp spec fn regex_compiles(pattern: Seq<char>) -> bool;

/// What `Regex::replace_all` gives for `text` with replacement template `rep`.
pub uninterp spec fn regex_replace_all(pattern: Seq<char>, text: Seq<char>, rep: Seq<char>) -> Seq<char>;

/// For each successive non-overlapping match of `pattern` in `text`, the text
/// of capture group `group` if it took part in the match.
pub uninterp spec fn regex_group_matches(pattern: Seq<char>, text: Seq<char>, group: usize) -> Seq<Option<Seq<char>>>;

/// Whether `pattern` matches somewhere in `text`.
pub uninterp spec fn regex_is_match(pattern: Seq<char>, text: Seq<char>) -> bool;

/// A compiled regular expression together with its source pattern.
pub struct Pattern {
    source: String,
    re: Regex,
}

impl Pattern {
    /// The pattern this regular expression was compiled from.
    pub closed spec fn source(&self) -> Seq<char> {
        self.source@
    }

    /// Compiles `pattern` with `Regex::new`; `None` when the crate rejects it.
    #[verifier::external_body]
    pub(crate) fn new(pattern: &str) -> (r: Option<Pattern>)
        ensures
            r is Some == regex_compiles(pattern@),
            r matches Some(p) ==> p.source() == pattern@,
    {
        match Regex::new(pattern) {
            Ok(re) => Some(Pattern { source: pattern.to_string(), re }),
            Err(_) => None,
        }
    }

    /// Every match replaced by `rep` (with `$n` group references), by
    /// `Regex::replace_all`; a text without a match comes back unchanged, as
    /// the crate documents.
    #[verifier::external_body]
    pub(crate) fn replace_all(&self, text: &str, rep: &str) -> (r: String)
        ensures
            r@ == regex_replace_all(self.source(), text@, rep@),
            !regex_is_match(self.source(), text@) ==> r@ == text@,
    {
        self.re.replace_all(text, rep).to_string()
    }

    /// The text of group `group` in each match, by `Regex::captures_iter`.
    #[verifier::external_body]
    pub(crate) fn group_matches(&self, text: &str, group: usize) -> (r: Vec<Option<String>>)
        ensures
            crate::module_items::opt_views(r@) == regex_group_matches(self.source(), text@, group),
    {
        self.re.captures_iter(text).map(|c| c.get(group).map(|m| m.as_str().to_string())).collect()
    }

    /// Whether the pattern matches somewhere in `text`, by `Regex::is_match`.
    #[verifier::external_body]
    pub(crate) fn is_match(&self, text: &str) -> (r: bool)
        ensures
            r == regex_is_match(self.source(), text@),
    {
        self.re.is_match(text)
    }
}

} // verus!

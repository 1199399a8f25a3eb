//! Compiled regular expressions, with what the library relies on of them.
use vstd::prelude::*;

verus! {

#[verifier::external_type_specification]
#[verifier::external_body]
pub struct ExRegex(regex::Regex);

#[verifier::external_type_specification]
#[verifier::external_body]
pub struct ExRegexError(regex::Error);

/// Whether `pattern` compiles, with the default size limit.
pub uninterp spec fn regex_compiles(pattern: Seq<char>) -> bool;

/// Whether the regular expression written `pattern` matches anywhere in `text`.
pub uninterp spec fn regex_matches(pattern: Seq<char>, text: Seq<char>) -> bool;

/// The first capture group of the leftmost-first match of `pattern` in
/// `text`; `None` where there is no match, or the group took no part in it.
pub uninterp spec fn regex_first_group(pattern: Seq<char>, text: Seq<char>) -> Option<Seq<char>>;

/// For each successive non-overlapping match of `pattern` in `text`, in
/// order, its first capture group (`None` where the group took no part).
pub uninterp spec fn regex_all_first_groups(pattern: Seq<char>, text: Seq<char>) -> Seq<Option<Seq<char>>>;

/// A regular expression together with the text it was compiled from.
pub struct Pattern {
    source: String,
    re: regex::Regex,
}

impl View for Pattern {
    type V = Seq<char>;

    closed spec fn view(&self) -> Seq<char> {
        self.source@
    }
}

pub open spec fn opt_view(o: Option<String>) -> Option<Seq<char>> {
    match o {
        Some(s) => Some(s@),
        None => None,
    }
}

impl Pattern {
    /// Relies on regex::Regex::new: compiles `source`, or says why it cannot
    /// (an invalid pattern, or one over the default size limit). The source
    /// text is kept beside the compiled expression.
    #[verifier::external_body]
    pub(crate) fn compile(source: &str) -> (r: Result<Pattern, regex::Error>)
        ensures
            r is Ok <==> regex_compiles(source@),
            r matches Ok(p) ==> p@ == source@,
    {
        match regex::Regex::new(source) {
            Ok(re) => Ok(Pattern { source: source.to_string(), re }),
            Err(e) => Err(e),
        }
    }

    /// Relies on regex::Regex::is_match: whether the expression matches
    /// anywhere in `text`.
    #[verifier::external_body]
    pub(crate) fn is_match(&self, text: &str) -> (r: bool)
        ensures
            r == regex_matches(self@, text@),
    {
        self.re.is_match(text)
    }

    /// Relies on regex::Regex::captures: the text of group 1 in the first
    /// match.
    #[verifier::external_body]
    pub(crate) fn first_group(&self, text: &str) -> (r: Option<String>)
        ensures
            opt_view(r) == regex_first_group(self@, text@),
    {
        self.re.captures(text).and_then(|c| c.get(1)).map(|m| m.as_str().to_string())
    }

    /// Relies on regex::Regex::captures_iter: the text of group 1 in every
    /// successive match.
    #[verifier::external_body]
    pub(crate) fn all_first_groups(&self, text: &str) -> (r: Vec<Option<String>>)
        ensures
            r@.map_values(|o: Option<String>| opt_view(o)) == regex_all_first_groups(self@, text@),
    {
        self.re.captures_iter(text).map(|c| c.get(1).map(|m| m.as_str().to_string())).collect()
    }
}

} // verus!

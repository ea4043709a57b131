//! A set of patterns searched for in a text at once, with the `aho-corasick`
//! crate.
use vstd::prelude::*;
use aho_corasick::{AhoCorasick, BuildError};

verus! {

#[verifier::external_type_specification]
#[verifier::external_body]
pub struct ExAhoCorasick(AhoCorasick);

#[verifier::external_type_specification]
#[verifier::external_body]
pub struct ExBuildError(BuildError);

/// Whether `p` occurs in `text` as a run of consecutive characters.
pub open spec fn occurs(text: Seq<char>, p: Seq<char>) -> bool {
    exists|i: int| 0 <= i && i + p.len() <= text.len() && #[trigger] text.subrange(i, i + p.len()) == p
}

/// Whether one of `patterns` occurs in `text`.
pub open spec fn any_occurs(text: Seq<char>, patterns: Seq<Seq<char>>) -> bool {
    exists|k: int| 0 <= k < patterns.len() && occurs(text, #[trigger] patterns[k])
}

/// Whether `AhoCorasick::new` refuses to build an automaton for these
/// patterns (it does when they exceed its limits on patterns and states).
pub uninterp spec fn automaton_fails(patterns: Seq<Seq<char>>) -> bool;

/// `AhoCorasick::new` from `aho-corasick`: an automaton for the patterns,
/// or the error when they are too many for it. Whether it fails depends on
/// the patterns alone, and is named by `automaton_fails`.
#[verifier::external_body]
fn automaton(patterns: &Vec<String>) -> (r: Result<AhoCorasick, BuildError>)
    ensures
        r is Err <==> automaton_fails(patterns.deep_view()),
{
    AhoCorasick::new(patterns)
}

/// Patterns, and an automaton built from them that finds them in a text.
pub struct Matcher {
    patterns: Vec<String>,
    matcher: AhoCorasick,
}

impl Matcher {
    /// The patterns.
    pub closed spec fn patterns(&self) -> Seq<Seq<char>> {
        self.patterns.deep_view()
    }

    /// Builds the automaton for `patterns`.
    pub fn new(patterns: Vec<String>) -> (r: Result<Matcher, BuildError>)
        ensures
            r matches Ok(m) ==> m.patterns() == patterns.deep_view(),
            r is Err <==> automaton_fails(patterns.deep_view()),
    {
        let matcher = automaton(&patterns)?;
        Ok(Matcher { patterns, matcher })
    }

    /// `AhoCorasick::find` with the automaton built from the patterns, in its
    /// standard match kind: the text of a match, which is one of the patterns
    /// occurring in `haystack`; `None` exactly where none occurs. Which
    /// pattern is reported where several occur is not stated.
    #[verifier::external_body]
    pub fn find(&self, haystack: &str) -> (r: Option<String>)
        ensures
            r matches Some(t) ==> occurs(haystack@, t@) && exists|k: int|
                0 <= k < self.patterns().len() && #[trigger] self.patterns()[k] == t@,
            r is None <==> !any_occurs(haystack@, self.patterns()),
    {
        match self.matcher.find(haystack) {
            Some(m) => Some(haystack[m.start()..m.end()].to_owned()),
            None => None,
        }
    }
}

} // verus!

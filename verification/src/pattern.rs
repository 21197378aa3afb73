//! Matching of names against regular expressions, done by the `regex` crate.

use vstd::prelude::*;

verus! {

/// A compiled expression of the `regex` crate. Nothing of its inside is known here.
#[verifier::external_type_specification]
#[verifier::external_body]
pub struct ExRegex(regex::Regex);

/// The error that the `regex` crate gives for a pattern that does not compile.
#[verifier::external_type_specification]
#[verifier::external_body]
pub struct ExRegexError(regex::Error);

/// The pattern that a compiled expression was made from: the text that
/// `regex::Regex::as_str` gives back.
pub uninterp spec fn pattern_source(re: regex::Regex) -> Seq<char>;

/// Whether the expression written as `pattern`, compiled as `regex::Regex::new`
/// compiles it, matches somewhere in `text`: what `regex::Regex::is_match` answers
/// for such an expression. Nothing more is known of it here.
///
/// An expression that a builder of the crate made with other settings may answer
/// otherwise for the same pattern. This name says nothing of such an expression,
/// and the library holds none: see `Matcher`.
pub uninterp spec fn pattern_matches(pattern: Seq<char>, text: Seq<char>) -> bool;

/// An expression as `regex::Regex::new` compiles it, with the settings of that
/// function and no others. Only `compile` makes one.
pub struct Matcher {
    re: regex::Regex,
}

impl Matcher {
    /// The pattern this expression was compiled from.
    pub closed spec fn source(&self) -> Seq<char> {
        pattern_source(self.re)
    }
}

/// A pattern that did not compile.
#[derive(Debug)]
pub struct BadPattern {
    /// The pattern as it was written.
    pub pattern: String,
    /// What the compiler said of it.
    pub cause: regex::Error,
}

/// Calls `regex::Regex::new`. Believed, not proved: a compiled expression keeps the
/// text it was made from. Nothing is said of which patterns compile: an invalid
/// pattern, and one that compiles to more than the crate's size limit, gives an
/// error.
#[verifier::external_body]
fn compile(pattern: &str) -> (r: Result<Matcher, regex::Error>)
    ensures
        r matches Ok(matcher) ==> pattern_source(matcher.re) == pattern@,
{
    match regex::Regex::new(pattern) {
        Ok(re) => Ok(Matcher { re }),
        Err(error) => Err(error),
    }
}

/// Calls `regex::Regex::is_match`, which tells whether the expression matches
/// anywhere in `text`. Believed, not proved: for an expression that
/// `regex::Regex::new` compiled, the answer depends on the pattern and the text
/// alone. Every `Matcher` is such an expression.
#[verifier::external_body]
fn is_match(matcher: &Matcher, text: &str) -> (b: bool)
    ensures
        b == pattern_matches(pattern_source(matcher.re), text@),
{
    matcher.re.is_match(text)
}

impl Matcher {
    /// Compiles `pattern`, or tells that it does not compile.
    pub fn new(pattern: &str) -> (r: Result<Matcher, BadPattern>)
        ensures
            match r {
                Ok(matcher) => matcher.source() == pattern@,
                Err(bad) => bad.pattern@ == pattern@,
            },
    {
        match compile(pattern) {
            Ok(matcher) => Ok(matcher),
            Err(cause) => Err(BadPattern { pattern: pattern.to_owned(), cause }),
        }
    }

    /// Whether this expression matches somewhere in `text`.
    pub fn matches(&self, text: &str) -> (b: bool)
        ensures
            b == pattern_matches(self.source(), text@),
    {
        is_match(self, text)
    }
}

} // verus!

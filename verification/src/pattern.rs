//! Regular expressions, through the `regex` crate.
//!
//! What a pattern matches is not restated here: it is named by the
//! specification functions below, which the `regex` crate computes.
//! Escaping is short enough to be stated in full.

use vstd::prelude::*;
use crate::text::owned;

verus! {

#[verifier::external_type_specification]
#[verifier::external_body]
pub struct ExRegex(regex::Regex);

/// The pattern text is a valid regular expression for `regex::Regex::new`.
pub uninterp spec fn regex_compiles(pattern: Seq<char>) -> bool;

/// `regex::Regex::is_match`: the pattern matches somewhere in the haystack.
pub uninterp spec fn regex_matches(pattern: Seq<char>, haystack: Seq<char>) -> bool;

/// The characters that `regex::escape` puts a backslash before.
pub open spec fn is_regex_meta(c: char) -> bool {
    c == '\\' || c == '.' || c == '+' || c == '*' || c == '?' || c == '(' || c == ')'
        || c == '|' || c == '[' || c == ']' || c == '{' || c == '}' || c == '^' || c == '$'
        || c == '#' || c == '&' || c == '-' || c == '~'
}

/// `regex::escape`: the text with a backslash put before every meta character.
/// Kept opaque so that proofs that only carry an escaped text along do not unfold it.
#[verifier::opaque]
pub open spec fn regex_escape(text: Seq<char>) -> Seq<char>
    decreases text.len(),
{
    if text.len() == 0 {
        Seq::empty()
    } else {
        let c = text.last();
        regex_escape(text.drop_last()) + if is_regex_meta(c) {
            seq!['\\', c]
        } else {
            seq![c]
        }
    }
}

/// `regex::Regex::replace`: the haystack with the leftmost match of the pattern replaced
/// by the replacement text (where `${1}` stands for the first group).
pub uninterp spec fn regex_replaced(pattern: Seq<char>, haystack: Seq<char>, replacement: Seq<char>) -> Seq<char>;

/// A valid pattern that matches the haystack.
pub open spec fn regex_hit(pattern: Seq<char>, haystack: Seq<char>) -> bool {
    regex_compiles(pattern) && regex_matches(pattern, haystack)
}

/// A compiled regular expression together with the text it was compiled from.
pub struct Pattern {
    source: String,
    compiled: regex::Regex,
}

/// Calls `regex::Regex::new`; `Some` exactly when the pattern compiles.
#[verifier::external_body]
fn regex_new(pattern: &str) -> (r: Option<regex::Regex>)
    ensures
        r is Some <==> regex_compiles(pattern@),
{
    regex::Regex::new(pattern).ok()
}

/// Calls `regex::Regex::is_match` on the expression that `Pattern::new` compiled
/// from `p.source`; the result is named by `regex_matches` of that source text.
#[verifier::external_body]
fn regex_is_match(p: &Pattern, haystack: &str) -> (r: bool)
    ensures
        r == regex_matches(p.source@, haystack@),
{
    p.compiled.is_match(haystack)
}

/// Calls `regex::Regex::replace` on the expression that `Pattern::new` compiled from
/// `p.source`; the result is named by `regex_replaced` of that source text.
#[verifier::external_body]
fn regex_replace(p: &Pattern, haystack: &str, replacement: &str) -> (r: String)
    ensures
        r@ == regex_replaced(p.source@, haystack@, replacement@),
{
    p.compiled.replace(haystack, replacement).into_owned()
}

/// Calls `regex::escape`, which puts a backslash before each meta character
/// (`regex_escape`) and leaves every other character as it is.
#[verifier::external_body]
pub(crate) fn escape(text: &str) -> (r: String)
    ensures
        r@ == regex_escape(text@),
{
    regex::escape(text)
}

impl Pattern {
    /// The text the expression was compiled from.
    pub closed spec fn source(&self) -> Seq<char> {
        self.source@
    }

    /// Compiles a pattern; `None` when it is not a valid regular expression.
    pub fn new(source: &str) -> (r: Option<Pattern>)
        ensures
            r is Some <==> regex_compiles(source@),
            r matches Some(p) ==> p.source() == source@,
    {
        match regex_new(source) {
            Some(c) => Some(Pattern { source: owned(source), compiled: c }),
            None => None,
        }
    }

    /// Does the expression match somewhere in `haystack`?
    pub fn is_match(&self, haystack: &str) -> (r: bool)
        ensures
            r == regex_matches(self.source(), haystack@),
    {
        regex_is_match(self, haystack)
    }

    /// The haystack with the leftmost match replaced by `replacement`.
    pub fn replace(&self, haystack: &str, replacement: &str) -> (r: String)
        ensures
            r@ == regex_replaced(self.source(), haystack@, replacement@),
    {
        regex_replace(self, haystack, replacement)
    }
}

/// `p` is the expression compiled from `source`, or `None` when `source` does not compile.
pub open spec fn compiled_from(p: Option<Pattern>, source: Seq<char>) -> bool {
    match p {
        Some(q) => q.source() == source && regex_compiles(source),
        None => !regex_compiles(source),
    }
}

/// Compiles a pattern, once, to match it against many lines.
pub fn compile_pattern(source: &str) -> (r: Option<Pattern>)
    ensures
        compiled_from(r, source@),
{
    Pattern::new(source)
}

/// Matches a pattern compiled by `compile_pattern`; false when it did not compile.
pub(crate) fn pattern_hit(p: &Option<Pattern>, source: Ghost<Seq<char>>, line: &str) -> (r: bool)
    requires
        compiled_from(*p, source@),
    ensures
        r == regex_hit(source@, line@),
{
    match p {
        Some(q) => q.is_match(line),
        None => false,
    }
}

/// Compiles `pattern` and matches it against `haystack`; false when it does not compile.
pub fn matches_str(pattern: &str, haystack: &str) -> (r: bool)
    ensures
        r == regex_hit(pattern@, haystack@),
{
    match Pattern::new(pattern) {
        Some(p) => p.is_match(haystack),
        None => false,
    }
}

} // verus!

//! Compiled pattern matchers, backed by the `regex` crate.
//!
//! A `Matcher` pairs a compiled regular expression with the (ghost) pattern
//! text it was compiled from. What `is_match` returns for a given pattern and
//! text is named by the uninterpreted function `re_match`: matching is a pure
//! function of the pattern and the text alone.

use vstd::prelude::*;
use vstd::string::StringExecFns;

verus! {

/// What `regex::Regex::is_match` returns for a compiled `pattern` applied to
/// `text`. Matching is deterministic in the pattern and the text, so the
/// result can be named; nothing further is assumed about it.
pub uninterp spec fn re_match(pattern: Seq<char>, text: Seq<char>) -> bool;

/// Whether `regex::Regex::new` accepts `pattern`: valid regular-expression
/// syntax within the engine's default size limit. Acceptance is a function of
/// the pattern text alone, so it can be named.
pub uninterp spec fn re_valid(pattern: Seq<char>) -> bool;

#[verifier::external_type_specification]
#[verifier::external_body]
pub struct ExRegex(regex::Regex);

#[verifier::external_type_specification]
#[verifier::external_body]
pub struct ExRegexError(regex::Error);

/// A compiled pattern matcher over text lines.
pub struct Matcher {
    re: regex::Regex,
    pat: Ghost<Seq<char>>,
}

/// Why a pattern string could not be turned into a `Matcher`.
#[derive(Debug, PartialEq, Eq, Structural, Clone, Copy)]
pub enum PatternError {
    /// The pattern is not valid regular-expression syntax (or exceeds the
    /// engine's size limit).
    Invalid,
}

impl Matcher {
    /// The pattern text this matcher was compiled from.
    pub closed spec fn pattern(&self) -> Seq<char> {
        self.pat@
    }

    /// Compile a pattern string into a matcher. Succeeds exactly when the
    /// pattern is acceptable to the engine.
    pub fn new(pattern: &str) -> (r: Result<Matcher, PatternError>)
        ensures
            r is Ok <==> re_valid(pattern@),
            r matches Ok(m) ==> m.pattern() == pattern@,
    {
        match compile_regex(pattern) {
            Ok(re) => Ok(Matcher { re, pat: Ghost(pattern@) }),
            Err(_) => Err(PatternError::Invalid),
        }
    }

    /// Compile a pattern string anchored to the start of the line: the whole
    /// pattern is wrapped in a non-capturing group behind `^`, so that a
    /// top-level alternation stays anchored too.
    pub fn new_anchored(pattern: &str) -> (r: Result<Matcher, PatternError>)
        ensures
            r is Ok <==> re_valid("^(?:"@ + pattern@ + ")"@),
            r matches Ok(m) ==> m.pattern() == "^(?:"@ + pattern@ + ")"@,
    {
        let mut anchored = String::new();
        anchored.append("^(?:");
        anchored.append(pattern);
        anchored.append(")");
        proof {
            assert(anchored@ =~= "^(?:"@ + pattern@ + ")"@);
        }
        Matcher::new(anchored.as_str())
    }

    /// Test whether this matcher's pattern matches anywhere in `text`.
    pub fn is_match(&self, text: &str) -> (r: bool)
        ensures
            r == re_match(self.pattern(), text@),
    {
        regex_is_match(self, text)
    }
}

/// Relies on `regex::Regex::new`: compiles the given pattern string, returning
/// an error exactly when the pattern is invalid (or too large for the engine).
/// Either way acceptance depends on the pattern text alone, here named
/// `re_valid`.
#[verifier::external_body]
fn compile_regex(pattern: &str) -> (r: Result<regex::Regex, regex::Error>)
    ensures
        r is Ok <==> re_valid(pattern@),
{
    regex::Regex::new(pattern)
}

/// Relies on `regex::Regex::is_match`: the result is a pure function of the
/// compiled pattern and the text, here named `re_match`. Every `Matcher` is
/// built by `Matcher::new`, which stores alongside `re` exactly the pattern
/// text that `re` was compiled from, so `m.pattern()` is `m.re`'s pattern.
#[verifier::external_body]
fn regex_is_match(m: &Matcher, text: &str) -> (r: bool)
    ensures
        r == re_match(m.pattern(), text@),
{
    m.re.is_match(text)
}

} // verus!

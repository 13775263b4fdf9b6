//! Name patterns: regular expressions over event kind names.

use vstd::prelude::*;

verus! {

/// `regex::Regex`, a compiled regular expression. Nothing is known of its inside.
#[verifier::external_type_specification]
#[verifier::external_body]
pub struct ExRegex(regex::Regex);

/// `regex::Error`, the error of compiling a regular expression. Nothing is
/// known of its inside.
#[verifier::external_type_specification]
#[verifier::external_body]
pub struct ExRegexError(regex::Error);

/// Whether `regex::Regex::new` accepts `pattern`: it is well-formed and its
/// compiled form stays within the engine's default size limit.
pub uninterp spec fn pattern_is_valid(pattern: Seq<char>) -> bool;

/// Whether the regular expression written as `pattern` finds a match
/// somewhere in `text`, as `regex::Regex::is_match` reports it.
pub uninterp spec fn pattern_accepts(pattern: Seq<char>, text: Seq<char>) -> bool;

/// A compiled regular expression together with the text it was compiled from.
///
/// The fields are private and `compile` is the only place that builds a value,
/// so `compiled` is always the expression that `source` spells.
#[derive(Debug)]
pub struct NamePattern {
    source: String,
    compiled: regex::Regex,
}

impl View for NamePattern {
    type V = Seq<char>;

    /// The pattern text.
    closed spec fn view(&self) -> Seq<char> {
        self.source@
    }
}

/// Calls `regex::Regex::new` on `pattern` and keeps the pattern text beside
/// the compiled expression. Trusted: the call succeeds exactly on the patterns
/// that `pattern_is_valid` names, and the value stands for `pattern`.
#[verifier::external_body]
fn compile(pattern: &str) -> (result: Result<NamePattern, regex::Error>)
    ensures
        result is Ok <==> pattern_is_valid(pattern@),
        result is Ok ==> result->Ok_0@ == pattern@,
{
    match regex::Regex::new(pattern) {
        Ok(compiled) => Ok(NamePattern { source: pattern.to_string(), compiled }),
        Err(error) => Err(error),
    }
}

/// Calls `regex::Regex::is_match` of the compiled expression on `text`.
/// Trusted: the answer is the one that `pattern_accepts` names for the
/// pattern text and `text`.
#[verifier::external_body]
fn search(pattern: &NamePattern, text: &str) -> (found: bool)
    ensures
        found == pattern_accepts(pattern@, text@),
{
    pattern.compiled.is_match(text)
}

/// Formats a compile error of `regex` as text, through its `Display`.
/// Trusted for nothing: no claim is made about the text.
#[verifier::external_body]
fn error_text(error: &regex::Error) -> (text: String) {
    error.to_string()
}

/// Why a pattern did not compile, in the words of the regular expression engine.
#[derive(Debug, Clone, PartialEq, Eq)]
pub struct PatternError {
    pub message: String,
}

impl NamePattern {
    /// Whether this pattern matches somewhere in `text`.
    pub open spec fn accepts(&self, text: Seq<char>) -> bool {
        pattern_accepts(self@, text)
    }

    /// Compiles `pattern`, or says why it is no regular expression.
    pub fn new(pattern: &str) -> (result: Result<NamePattern, PatternError>)
        ensures
            result is Ok <==> pattern_is_valid(pattern@),
            result is Ok ==> result->Ok_0@ == pattern@,
    {
        match compile(pattern) {
            Ok(compiled) => Ok(compiled),
            Err(error) => Err(PatternError { message: error_text(&error) }),
        }
    }

    /// Tests whether this pattern matches somewhere in `text`.
    pub fn is_match(&self, text: &str) -> (found: bool)
        ensures
            found == self.accepts(text@),
    {
        search(self, text)
    }

    /// The pattern text.
    pub fn as_str(&self) -> (source: &str)
        ensures
            source@ == self@,
    {
        self.source.as_str()
    }
}

} // verus!

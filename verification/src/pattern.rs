use vstd::prelude::*;

verus! {

/// Declares `regex::Regex`, so that a compiled pattern can be kept in a field.
#[verifier::external_type_specification]
#[verifier::external_body]
pub struct ExRegex(regex::Regex);

/// What `regex::Regex::new(pattern)` gives: `None` when the pattern compiles,
/// else the text of the error (its `Display`).
pub uninterp spec fn regex_compile_error(pattern: Seq<char>) -> Option<Seq<char>>;

/// What `is_match(text)` answers for the regex compiled from `pattern`:
/// whether it matches anywhere in `text`.
pub uninterp spec fn regex_is_match(pattern: Seq<char>, text: Seq<char>) -> bool;

/// A regular expression together with the pattern it was compiled from.
pub struct CompiledPattern {
    pattern: String,
    regex: regex::Regex,
}

impl View for CompiledPattern {
    type V = Seq<char>;

    closed spec fn view(&self) -> Seq<char> {
        self.pattern@
    }
}

/// Compiles `pattern`.
///
/// Trusted: calls `regex::Regex::new`, which either builds the regex or fails
/// with an error whose text is `Display`ed; the contract ties both outcomes to
/// the named result [`regex_compile_error`] of the pattern, and the compiled
/// pattern to its source text.
#[verifier::external_body]
pub(crate) fn compile_pattern(pattern: &str) -> (r: Result<CompiledPattern, String>)
    ensures
        match r {
            Ok(c) => regex_compile_error(pattern@) is None && c@ == pattern@,
            Err(e) => regex_compile_error(pattern@) == Some(e@),
        },
{
    match regex::Regex::new(pattern) {
        Ok(regex) => Ok(CompiledPattern { pattern: pattern.to_string(), regex }),
        Err(e) => Err(e.to_string()),
    }
}

/// Whether the pattern matches anywhere in `text`.
///
/// Trusted: calls `regex::Regex::is_match`; the contract says only that the
/// answer is the named result [`regex_is_match`] of the pattern and the text.
#[verifier::external_body]
pub(crate) fn pattern_matches(p: &CompiledPattern, text: &str) -> (r: bool)
    ensures
        r == regex_is_match(p@, text@),
{
    p.regex.is_match(text)
}

} // verus!

//! The regular-expression engine of the `regex` crate, as the rest of the library sees it.
//!
//! A `CompiledRegex` is only made by `compile_regex`, from the pattern text that it keeps beside
//! the compiled program; searches are stated over that pattern text.

use vstd::prelude::*;
use vstd::utf8::*;

verus! {

#[verifier::external_type_specification]
#[verifier::external_body]
pub struct ExRegex(regex::Regex);

#[verifier::external_type_specification]
#[verifier::external_body]
pub struct ExRegexError(regex::Error);

/// Whether `regex::RegexBuilder::new(pattern).size_limit(size_limit).build()` succeeds.
pub uninterp spec fn regex_compiles(pattern: Seq<char>, size_limit: usize) -> bool;

/// The byte ranges that `regex::Regex::find_iter` reports for the regex compiled from `pattern`,
/// searched in `text`, in the order in which they are reported.
pub uninterp spec fn regex_find_spans(pattern: Seq<char>, text: Seq<char>) -> Seq<(usize, usize)>;

/// What the `regex` crate documents of every search result on a `&str` haystack: each match is a
/// range of the haystack's UTF-8 bytes whose ends are on character boundaries, and successive
/// matches do not overlap and come in order.
pub open spec fn spans_well_formed(spans: Seq<(usize, usize)>, text: Seq<char>) -> bool {
    let bytes = encode_utf8(text);
    &&& forall|i: int|
        0 <= i < spans.len() ==> {
            &&& (#[trigger] spans[i]).0 <= spans[i].1
            &&& spans[i].1 <= bytes.len()
            &&& is_char_boundary(bytes, spans[i].0 as int)
            &&& is_char_boundary(bytes, spans[i].1 as int)
        }
    &&& forall|i: int| 0 <= i < spans.len() - 1 ==> (#[trigger] spans[i]).1 <= spans[i + 1].0
}

/// A regular expression compiled from the pattern text that it keeps.
pub struct CompiledRegex {
    regex: regex::Regex,
    source: String,
}

impl CompiledRegex {
    /// The pattern text that this regex was compiled from.
    pub closed spec fn source(&self) -> Seq<char> {
        self.source@
    }
}

/// Compiles `pattern` with `regex::RegexBuilder`, with the given limit on the size of the
/// compiled program (`RegexBuilder::size_limit`). The contract claims that compilation succeeds
/// exactly when the named predicate `regex_compiles` holds, and that the result keeps `pattern`.
#[verifier::external_body]
pub(crate) fn compile_regex(pattern: &str, size_limit: usize) -> (r: Result<CompiledRegex, regex::Error>)
    ensures
        r is Ok <==> regex_compiles(pattern@, size_limit),
        r matches Ok(c) ==> c.source() == pattern@,
{
    match regex::RegexBuilder::new(pattern).size_limit(size_limit).build() {
        Ok(regex) => Ok(CompiledRegex { regex, source: pattern.to_string() }),
        Err(e) => Err(e),
    }
}

/// Runs `regex::Regex::find_iter` over `text` and returns the byte range of every match. The
/// contract claims that the result is the named `regex_find_spans` of the pattern and the text,
/// and what the crate documents of every match (`spans_well_formed`).
#[verifier::external_body]
pub(crate) fn find_spans(compiled: &CompiledRegex, text: &str) -> (r: Vec<(usize, usize)>)
    ensures
        r@ == regex_find_spans(compiled.source(), text@),
        spans_well_formed(r@, text@),
{
    compiled.regex.find_iter(text).map(|m| (m.start(), m.end())).collect()
}

} // verus!

verus! {

/// Calls `regex::Error`'s `Display`; nothing is stated of the text.
#[verifier::external_body]
pub(crate) fn regex_error_text(e: &regex::Error) -> (r: String) {
    e.to_string()
}

} // verus!

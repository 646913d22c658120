//! Compiled regular expressions, from the `regex` crate.
//!
//! Everything here that Verus takes on trust is a thin wrapper over
//! `regex::Regex`: what a pattern matches is not restated, it is named by
//! `regex_find`, a function of the pattern and the haystack.
use vstd::prelude::*;
use vstd::utf8::*;

verus! {

#[verifier::external_type_specification]
#[verifier::external_body]
pub struct ExRegex(regex::Regex);

#[verifier::external_type_specification]
#[verifier::external_body]
pub struct ExRegexError(regex::Error);

/// Whether `regex::Regex::new` accepts `pattern` (it is well formed and
/// within the default size limit).
pub uninterp spec fn regex_compiles(pattern: Seq<char>) -> bool;

/// The byte offsets `(start, end)` of the leftmost-first match of `pattern`
/// in `haystack`, as `regex::Regex::find` reports it, or `None`.
pub uninterp spec fn regex_find(pattern: Seq<char>, haystack: Seq<char>) -> Option<(usize, usize)>;

/// Whether `m` is a match as `regex::Match` documents it for `haystack`:
/// start before end, both within the haystack's UTF-8 bytes and both on
/// character boundaries.
pub open spec fn well_placed(m: Option<(usize, usize)>, haystack: Seq<char>) -> bool {
    match m {
        Some((start, end)) => {
            &&& start <= end <= encode_utf8(haystack).len()
            &&& is_char_boundary(encode_utf8(haystack), start as int)
            &&& is_char_boundary(encode_utf8(haystack), end as int)
        },
        None => true,
    }
}

/// A regular expression together with the pattern it was compiled from.
pub struct CompiledPattern {
    source: String,
    regex: regex::Regex,
}

impl CompiledPattern {
    /// The pattern text this expression was compiled from.
    pub closed spec fn source(&self) -> Seq<char> {
        self.source@
    }
}

/// Relies on `regex::Regex::new`: compiles `pattern`, failing exactly when
/// the pattern is refused; the result keeps the pattern text beside it.
#[verifier::external_body]
pub(crate) fn compile(pattern: String) -> (r: Result<CompiledPattern, regex::Error>)
    ensures
        r is Ok <==> regex_compiles(pattern@),
        r matches Ok(c) ==> c.source() == pattern@,
{
    match regex::Regex::new(pattern.as_str()) {
        Ok(regex) => Ok(CompiledPattern { source: pattern, regex }),
        Err(e) => Err(e),
    }
}

/// Relies on `regex::Regex::find` and `regex::Match::{start, end}`: the
/// byte range of the first match in `haystack`, which the crate documents as
/// ordered, inside the haystack and on character boundaries.
#[verifier::external_body]
pub(crate) fn find(c: &CompiledPattern, haystack: &str) -> (r: Option<(usize, usize)>)
    ensures
        r == regex_find(c.source(), haystack@),
        well_placed(r, haystack@),
{
    match c.regex.find(haystack) {
        Some(m) => Some((m.start(), m.end())),
        None => None,
    }
}

} // verus!

//! Pattern compilation and per-line match discovery.
//!
//! The pattern language itself is the regex crate's: compilation and the
//! match search are its work, consumed here through trusted declarations.
//! Everything downstream of the returned spans is verified against them.

use vstd::prelude::*;

use crate::GrepError;
use crate::MatchSpan;
use crate::spans_of;
use crate::spans_wf;

verus! {

#[verifier::external_type_specification]
#[verifier::external_body]
pub struct ExRegex(regex::bytes::Regex);

#[verifier::external_type_specification]
#[verifier::external_body]
pub struct ExRegexError(regex::Error);

/// Whether the regex crate accepts `pattern` (with the given case
/// sensitivity) as a valid regular expression, within its default limits.
pub uninterp spec fn regex_compiles(pattern: Seq<char>, case_insensitive: bool) -> bool;

/// The spans of the successive non-overlapping, leftmost-first matches of
/// the pattern in `line`: half-open byte ranges, left to right.
pub uninterp spec fn regex_matches(pattern: Seq<char>, case_insensitive: bool, line: Seq<u8>) -> Seq<
    (int, int),
>;

/// Relies on regex::bytes::RegexBuilder: `build` succeeds exactly when the
/// pattern (compiled with the chosen case sensitivity) is a valid regular
/// expression, and the result is determined by those two arguments alone.
#[verifier::external_body]
fn build_regex(pattern: &str, case_insensitive: bool) -> (r: Result<
    regex::bytes::Regex,
    regex::Error,
>)
    ensures
        r is Ok <==> regex_compiles(pattern@, case_insensitive),
{
    regex::bytes::RegexBuilder::new(pattern).case_insensitive(case_insensitive).build()
}

/// The compiled, reusable form of a query: the pattern text and case flag,
/// kept beside the regex that was built from exactly them — the only
/// constructor is [`Matcher::compile`].
pub struct Matcher {
    pattern: String,
    case_insensitive: bool,
    re: regex::bytes::Regex,
}

impl Matcher {
    /// The pattern this matcher was compiled from.
    pub closed spec fn spec_pattern(self) -> Seq<char> {
        self.pattern@
    }

    /// Whether this matcher ignores case.
    pub closed spec fn spec_case_insensitive(self) -> bool {
        self.case_insensitive
    }

    /// Compiles a pattern once for the whole run. A pattern the regex crate
    /// rejects is fatal: no source is read after that.
    pub fn compile(pattern: &str, case_insensitive: bool) -> (r: Result<Matcher, GrepError>)
        ensures
            r is Ok <==> regex_compiles(pattern@, case_insensitive),
            r matches Ok(m) ==> m.spec_pattern() == pattern@ && m.spec_case_insensitive()
                == case_insensitive,
            r matches Err(e) ==> e == GrepError::InvalidPattern,
    {
        match build_regex(pattern, case_insensitive) {
            Ok(re) => Ok(Matcher { pattern: pattern.to_owned(), case_insensitive, re }),
            Err(_) => Err(GrepError::InvalidPattern),
        }
    }

    /// All matches of the pattern in `line`, leftmost first, one span per
    /// match: strictly ordered, non-overlapping, within the line.
    pub fn find_all(&self, line: &Vec<u8>) -> (r: Vec<MatchSpan>)
        ensures
            spans_of(r@) == regex_matches(
                self.spec_pattern(),
                self.spec_case_insensitive(),
                line@,
            ),
            spans_wf(spans_of(r@), line@.len() as int),
    {
        find_raw(self, line)
    }
}

/// Relies on regex::bytes::Regex::find_iter: the matches come leftmost
/// first and non-overlapping — each span lies within the haystack with
/// `start <= end`, and each successive search resumes at or after the
/// previous match's end (after an empty match the search advances), so no
/// span starts before the span before it ends. The matcher's one
/// constructor built `re` from its own pattern and case flag, so the spans
/// are those of that pattern.
#[verifier::external_body]
fn find_raw(m: &Matcher, line: &Vec<u8>) -> (r: Vec<MatchSpan>)
    ensures
        spans_of(r@) == regex_matches(m.spec_pattern(), m.spec_case_insensitive(), line@),
        spans_wf(spans_of(r@), line@.len() as int),
{
    m.re.find_iter(line).map(|f| MatchSpan { start: f.start(), end: f.end() }).collect()
}

} // verus!

//! Byte regexes, built and run by the `regex` crate.
use vstd::prelude::*;

verus! {

#[verifier::external_type_specification]
#[verifier::external_body]
pub struct ExBytesRegex(::regex::bytes::Regex);

/// What a regex is built from: its source expression, whether it is case
/// insensitive, and whether `.` matches a newline.
pub type RegexSource = (Seq<char>, bool, bool);

/// Whether `regex::bytes::RegexBuilder` accepts the expression of `source`,
/// with unicode, octal and multi-line off and the two flags of `source`.
pub uninterp spec fn regex_builds(source: RegexSource) -> bool;

/// The message (the `Display` text) of the error that
/// `regex::bytes::RegexBuilder` gives for the source `source`, when it does
/// not build.
pub uninterp spec fn regex_error_message(source: RegexSource) -> Seq<char>;

/// The leftmost-first match, as a `(start, end)` pair of offsets, of the regex
/// built from `source` in `haystack` (`regex::bytes::Regex::find`).
pub uninterp spec fn regex_find(source: RegexSource, haystack: Seq<u8>) -> Option<(usize, usize)>;

/// The leftmost-first match at or after `start` of the regex built from
/// `source` in `haystack`, the bytes before `start` being seen as context
/// (`regex::bytes::Regex::find_at`).
pub uninterp spec fn regex_find_at(source: RegexSource, haystack: Seq<u8>, start: usize) -> Option<
    (usize, usize),
>;

/// A compiled byte regex, together with what it was built from.
///
/// Only [`build_regex`] creates one, so the compiled regex always matches its
/// source.
#[derive(Debug)]
pub struct CompiledRegex {
    regex: ::regex::bytes::Regex,
    expr: String,
    case_insensitive: bool,
    dot_all: bool,
}

impl View for CompiledRegex {
    type V = RegexSource;

    closed spec fn view(&self) -> RegexSource {
        (self.expr@, self.case_insensitive, self.dot_all)
    }
}

/// Build a byte regex with `regex::bytes::RegexBuilder` from `expr`, with
/// unicode, octal and multi-line off. On failure, the error is given as its
/// message (its `Display` text).
///
/// Trusted: the build succeeds exactly when [`regex_builds`] holds of the
/// source, and the regex returned is the one of that source; otherwise the
/// message is the one named by [`regex_error_message`].
#[verifier::external_body]
pub(crate) fn build_regex(expr: &str, case_insensitive: bool, dot_all: bool) -> (r: Result<
    CompiledRegex,
    String,
>)
    ensures
        r is Ok <==> regex_builds((expr@, case_insensitive, dot_all)),
        r matches Ok(re) ==> re@ == (expr@, case_insensitive, dot_all),
        r matches Err(m) ==> m@ == regex_error_message((expr@, case_insensitive, dot_all)),
{
    let built = ::regex::bytes::RegexBuilder::new(expr).unicode(false).octal(false).multi_line(
        false,
    ).case_insensitive(case_insensitive).dot_matches_new_line(dot_all).build();
    match built {
        Ok(regex) => Ok(CompiledRegex { regex, expr: expr.to_owned(), case_insensitive, dot_all }),
        Err(e) => Err(e.to_string()),
    }
}

impl CompiledRegex {
    /// The leftmost-first match in `haystack` (`regex::bytes::Regex::find`).
    ///
    /// Trusted: the match is the one named by [`regex_find`], and it lies in
    /// the haystack.
    #[verifier::external_body]
    pub(crate) fn find(&self, haystack: &[u8]) -> (r: Option<(usize, usize)>)
        ensures
            r == regex_find(self@, haystack@),
            r matches Some((s, e)) ==> s <= e <= haystack@.len(),
    {
        match self.regex.find(haystack) {
            Some(m) => Some((m.start(), m.end())),
            None => None,
        }
    }

    /// The leftmost-first match at or after `start` in `haystack`
    /// (`regex::bytes::Regex::find_at`, which panics when `start` is past the
    /// end of the haystack).
    ///
    /// Trusted: the match is the one named by [`regex_find_at`], it starts at or
    /// after `start`, and it lies in the haystack.
    #[verifier::external_body]
    pub(crate) fn find_at(&self, haystack: &[u8], start: usize) -> (r: Option<(usize, usize)>)
        requires
            start <= haystack@.len(),
        ensures
            r == regex_find_at(self@, haystack@, start),
            r matches Some((s, e)) ==> start <= s <= e <= haystack@.len(),
    {
        match self.regex.find_at(haystack, start) {
            Some(m) => Some((m.start(), m.end())),
            None => None,
        }
    }
}

} // verus!

//! The pattern matcher, as far as the scanner relies on it.
//!
//! Patterns are regular expressions in the syntax of the `regex` crate.
//! This library does not say which text a pattern matches: what the matcher
//! answers is given a name, and the scanner's contracts say what becomes of
//! each answer. The one exception is the pattern for any one character,
//! whose answer the syntax of the crate settles in a line.

use crate::text::is_cut_point;
use vstd::prelude::*;
use vstd::string::*;
use vstd::utf8::*;

verus! {

/// The error of `regex::Regex::new`, carried from the matcher to the scanner
/// and never looked into.
#[verifier::external_type_specification]
#[verifier::external_body]
pub struct ExPatternError(regex::Error);

/// Whether `regex::Regex::new` compiles `pattern`.
pub uninterp spec fn pattern_compiles(pattern: Seq<char>) -> bool;

/// The leftmost match that `regex::Regex::find` reports for the compiled
/// `pattern` in `window`, as the byte offsets in `window` at which the match
/// starts and ends, or `None` where nothing in `window` matches.
pub uninterp spec fn leftmost_match(pattern: Seq<char>, window: Seq<char>) -> Option<
    (usize, usize),
>;

/// `start` and `end` bound a piece of `window`: they are in order and both
/// are cut points of it.
pub open spec fn span_fits(window: Seq<u8>, start: int, end: int) -> bool {
    &&& start <= end
    &&& is_cut_point(window, start)
    &&& is_cut_point(window, end)
}

/// The pattern `(?s).` for any one character: the dot, under the flag that
/// lets it stand for a line feed too.
pub open spec fn any_char_pattern() -> Seq<char> {
    seq!['(', '?', 's', ')', '.']
}

/// The bounds of the first character of `window`: from its start to the end
/// of the first encoded character. An empty window has none.
pub open spec fn first_char_span(window: Seq<u8>) -> Option<(usize, usize)> {
    if window.len() == 0 {
        None
    } else {
        Some((0usize, length_of_first_scalar(window) as usize))
    }
}

/// Compiles `pattern` with `regex::Regex::new`, searches `window` with
/// `regex::Regex::find`, and reads the bounds of the match with
/// `regex::Match::start` and `regex::Match::end`.
///
/// Believed, not proved: the call fails exactly for the patterns that do not
/// compile, whatever the window; a search with a pattern that compiles
/// answers with the leftmost match, which depends on the pattern and the
/// window alone; and, as the documentation of `regex::Match` promises, a
/// match starts no later than it ends, and both offsets lie on character
/// boundaries of the window.
///
/// Of one pattern more is believed, as the syntax of the `regex` crate
/// documents it: `(?s).` compiles, and it matches the encoding of any one
/// character, so its leftmost match is the first character of the window,
/// and an empty window holds no match.
#[verifier::external_body]
pub(crate) fn find_leftmost(pattern: &str, window: &str) -> (r: Result<
    Option<(usize, usize)>,
    regex::Error,
>)
    ensures
        r is Ok <==> pattern_compiles(pattern@),
        r matches Ok(found) ==> found == leftmost_match(pattern@, window@),
        r matches Ok(Some((start, end))) ==> span_fits(
            window.spec_bytes(),
            start as int,
            end as int,
        ),
        r matches Err(_) ==> pattern@ != any_char_pattern(),
        r matches Ok(found) ==> (pattern@ == any_char_pattern() ==> found == first_char_span(
            window.spec_bytes(),
        )),
{
    let compiled = regex::Regex::new(pattern)?;
    Ok(compiled.find(window).map(|m| (m.start(), m.end())))
}

} // verus!

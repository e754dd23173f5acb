//! The scanner: a buffer, a position in it, and the last match.

use crate::error::ScanError;
use crate::laws::lemma_getch_is_scan;
use crate::matcher::{any_char_pattern, find_leftmost, first_char_span, pattern_compiles};
use crate::model::ScannerView;
use crate::text::{
    between, byte_len, bytes_of, head, lemma_cut_point_in_suffix, outcome_bytes, tail,
};
use vstd::prelude::*;
use vstd::string::*;
use vstd::utf8::*;

verus! {

/// A cursor over a borrowed string that scans it from left to right.
#[derive(Debug)]
pub struct StringScanner<'input> {
    string: &'input str,
    position: usize,
    matched: Option<(usize, usize)>,
}

impl<'input> View for StringScanner<'input> {
    type V = ScannerView;

    closed spec fn view(&self) -> ScannerView {
        ScannerView {
            buffer: self.string.spec_bytes(),
            position: self.position as int,
            last_match: match self.matched {
                Some((start, end)) => Some((start as int, end as int)),
                None => None,
            },
        }
    }
}

impl<'input> StringScanner<'input> {
    /// The invariant of the scanner: see [`ScannerView::wf`].
    #[verifier::type_invariant]
    pub open spec fn wf(&self) -> bool {
        self@.wf()
    }

    /// A scanner at the start of `s`.
    pub fn new(s: &'input str) -> (r: StringScanner<'input>)
        ensures
            r.wf(),
            r@ == ScannerView::fresh(s.spec_bytes()),
    {
        proof {
            encode_utf8_valid_utf8(s@);
            is_char_boundary_start_end_of_seq(s.spec_bytes());
        }
        StringScanner { string: s, position: 0, matched: None }
    }

    /// The offset of the cursor.
    pub fn position(&self) -> (r: usize)
        ensures
            r == self@.position,
    {
        self.position
    }

    /// Whether the cursor stands at the beginning of a line.
    pub fn beginning_of_line(&self) -> (r: bool)
        ensures
            r == self@.at_line_start(),
    {
        proof {
            use_type_invariant(self);
        }
        self.position == 0 || self.string.as_bytes()[self.position - 1] == 10u8
    }

    /// Short for [`StringScanner::beginning_of_line`].
    pub fn bol(&self) -> (r: bool)
        ensures
            r == self@.at_line_start(),
    {
        self.beginning_of_line()
    }

    /// Whether the cursor stands at the last offset of the buffer, which is
    /// one before its end (and the end itself if the buffer is empty).
    pub fn eos(&self) -> (r: bool)
        ensures
            r == self@.at_last_offset(),
    {
        proof {
            use_type_invariant(self);
        }
        let len: usize = byte_len(self.string);
        if len == 0 {
            self.position == 0
        } else {
            self.position == len - 1
        }
    }

    /// Moves the cursor to `position` and forgets the last match. An offset
    /// that is not a cut point of the buffer is refused, and the scanner
    /// stays as it was.
    pub fn set_position(&mut self, position: usize) -> (r: Result<(), ScanError>)
        ensures
            final(self).wf(),
            final(self)@ == old(self)@.after_set_position(position as int),
            r == old(self)@.set_position_outcome(position as int),
    {
        proof {
            use_type_invariant(&*self);
        }
        if position <= byte_len(self.string) && self.string.is_char_boundary(position) {
            self.matched = None;
            self.position = position;
            Ok(())
        } else {
            Err(ScanError::InvalidPosition)
        }
    }

    /// Moves the cursor to the last offset of the buffer, as
    /// [`StringScanner::set_position`] would: to one before the end, or to
    /// the start of an empty buffer.
    pub fn terminate(&mut self) -> (r: Result<(), ScanError>)
        ensures
            final(self).wf(),
            final(self)@ == old(self)@.after_set_position(old(self)@.last_offset()),
            r == old(self)@.set_position_outcome(old(self)@.last_offset()),
    {
        let len: usize = byte_len(self.string);
        let last: usize = if len == 0 {
            0
        } else {
            len - 1
        };
        self.set_position(last)
    }

    /// The text of the last match, if the last attempt succeeded and the
    /// cursor has not been repositioned since.
    pub fn matched(&self) -> (r: Option<&'input str>)
        ensures
            bytes_of(r) == self@.matched_text(),
    {
        proof {
            use_type_invariant(self);
        }
        match self.matched {
            Some((start, end)) => Some(between(self.string, start, end)),
            None => None,
        }
    }

    /// The buffer before the start of the last match, under the conditions
    /// of [`StringScanner::matched`].
    pub fn pre_match(&self) -> (r: Option<&'input str>)
        ensures
            bytes_of(r) == self@.pre_match_text(),
    {
        proof {
            use_type_invariant(self);
        }
        match self.matched {
            Some((start, _)) => Some(head(self.string, start)),
            None => None,
        }
    }

    /// The buffer from the cursor on, under the conditions of
    /// [`StringScanner::matched`].
    pub fn post_match(&self) -> (r: Option<&'input str>)
        ensures
            bytes_of(r) == self@.post_match_text(),
    {
        proof {
            use_type_invariant(self);
        }
        match self.matched {
            Some(_) => Some(tail(self.string, self.position)),
            None => None,
        }
    }

    /// A fresh scanner over the unconsumed rest of the buffer. It shares
    /// nothing with this scanner but the borrowed text.
    pub fn subscan(&self) -> (r: StringScanner<'input>)
        ensures
            r.wf(),
            r@ == self@.rest(),
    {
        proof {
            use_type_invariant(self);
        }
        StringScanner::new(tail(self.string, self.position))
    }

    /// Updates the scanner with the answer `found` that the matcher gave for
    /// the window: the offsets in the window at which the leftmost match
    /// starts and ends, or `None`.
    ///
    /// An anchored attempt succeeds only if the match starts where the window
    /// starts. An answer that does not bound a piece of the window is no
    /// match. On success the match is remembered, the cursor moves to its end
    /// if `advance` is set, and the window up to the end of the match is
    /// returned. On failure nothing is remembered and the cursor stays.
    pub fn apply_match(
        &mut self,
        found: Option<(usize, usize)>,
        anchored: bool,
        advance: bool,
    ) -> (r: Option<&'input str>)
        ensures
            final(self).wf(),
            final(self)@ == old(self)@.after_attempt(found, anchored, advance),
            bytes_of(r) == old(self)@.attempt_text(found, anchored),
    {
        proof {
            use_type_invariant(&*self);
        }
        let from: usize = self.position;
        let window_len: usize = byte_len(self.string) - from;
        let window = tail(self.string, from);
        match found {
            Some((start, end)) => {
                if start <= end && end <= window_len && window.is_char_boundary(start)
                    && window.is_char_boundary(end) && (!anchored || start == 0) {
                    proof {
                        lemma_cut_point_in_suffix(self@.buffer, from as int, start as int);
                        lemma_cut_point_in_suffix(self@.buffer, from as int, end as int);
                    }
                    let text = head(window, end);
                    self.matched = Some((from + start, from + end));
                    if advance {
                        self.position = from + end;
                    }
                    Some(text)
                } else {
                    self.matched = None;
                    None
                }
            },
            None => {
                self.matched = None;
                None
            },
        }
    }

    /// Compiles `pattern`, asks the matcher for its leftmost match in the
    /// window, and updates the scanner with the answer.
    fn attempt(&mut self, pattern: &str, anchored: bool, advance: bool) -> (r: Result<
        Option<&'input str>,
        ScanError,
    >)
        ensures
            final(self).wf(),
            final(self)@ == old(self)@.after_scan(pattern@, anchored, advance),
            outcome_bytes(r) == old(self)@.scan_outcome(pattern@, anchored),
            pattern_compiles(pattern@) ==> old(self)@.search_fits(pattern@),
            pattern@ == any_char_pattern() ==> {
                &&& pattern_compiles(pattern@)
                &&& old(self)@.search(pattern@) == first_char_span(old(self)@.window())
            },
    {
        proof {
            use_type_invariant(&*self);
        }
        let window = tail(self.string, self.position);
        proof {
            encode_utf8_decode_utf8(window@);
        }
        match find_leftmost(pattern, window) {
            Ok(found) => Ok(self.apply_match(found, anchored, advance)),
            Err(_) => Err(ScanError::InvalidPattern),
        }
    }

    /// Matches `pattern` at the cursor. If the leftmost match in the window
    /// starts at the cursor, the cursor moves to its end and the matched text
    /// is returned; otherwise the cursor stays and nothing is returned.
    /// Either way the outcome replaces what was remembered of the last match.
    /// A pattern that does not compile is an error and changes nothing.
    pub fn scan(&mut self, pattern: &str) -> (r: Result<Option<&'input str>, ScanError>)
        ensures
            final(self).wf(),
            final(self)@ == old(self)@.after_scan(pattern@, true, true),
            outcome_bytes(r) == old(self)@.scan_outcome(pattern@, true),
            pattern_compiles(pattern@) ==> old(self)@.search_fits(pattern@),
    {
        self.attempt(pattern, true, true)
    }

    /// Searches the window for `pattern`. On a match the cursor moves to its
    /// end, and the text from the old cursor to the end of the match is
    /// returned. The rest is as for [`StringScanner::scan`].
    pub fn scan_until(&mut self, pattern: &str) -> (r: Result<Option<&'input str>, ScanError>)
        ensures
            final(self).wf(),
            final(self)@ == old(self)@.after_scan(pattern@, false, true),
            outcome_bytes(r) == old(self)@.scan_outcome(pattern@, false),
            pattern_compiles(pattern@) ==> old(self)@.search_fits(pattern@),
    {
        self.attempt(pattern, false, true)
    }

    /// Does what [`StringScanner::scan`] does, but leaves the cursor where it
    /// is.
    pub fn check(&mut self, pattern: &str) -> (r: Result<Option<&'input str>, ScanError>)
        ensures
            final(self).wf(),
            final(self)@ == old(self)@.after_scan(pattern@, true, false),
            outcome_bytes(r) == old(self)@.scan_outcome(pattern@, true),
            pattern_compiles(pattern@) ==> old(self)@.search_fits(pattern@),
    {
        self.attempt(pattern, true, false)
    }

    /// Does what [`StringScanner::scan_until`] does, but leaves the cursor
    /// where it is.
    pub fn check_until(&mut self, pattern: &str) -> (r: Result<Option<&'input str>, ScanError>)
        ensures
            final(self).wf(),
            final(self)@ == old(self)@.after_scan(pattern@, false, false),
            outcome_bytes(r) == old(self)@.scan_outcome(pattern@, false),
            pattern_compiles(pattern@) ==> old(self)@.search_fits(pattern@),
    {
        self.attempt(pattern, false, false)
    }

    /// Reads one character, whichever it is: before the end of the buffer it
    /// returns the character at the cursor, moves the cursor behind it and
    /// remembers it as the match; at the end it returns nothing and leaves
    /// nothing remembered. It is the scan with the pattern `(?s).`.
    pub fn getch(&mut self) -> (r: Option<&'input str>)
        ensures
            final(self).wf(),
            final(self)@ == old(self)@.after_getch(),
            bytes_of(r) == old(self)@.getch_text(),
            final(self)@ == old(self)@.after_scan(any_char_pattern(), true, true),
            Ok::<Option<Seq<u8>>, ScanError>(bytes_of(r)) == old(self)@.scan_outcome(
                any_char_pattern(),
                true,
            ),
    {
        proof {
            use_type_invariant(&*self);
            reveal_strlit("(?s).");
            assert("(?s)."@ =~= any_char_pattern());
        }
        let ghost before = self@;
        let outcome = self.attempt("(?s).", true, true);
        proof {
            lemma_getch_is_scan(before);
        }
        match outcome {
            Ok(text) => text,
            Err(_) => None,
        }
    }
}

} // verus!

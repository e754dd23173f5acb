//! The scanner as a mathematical value, and its operations as functions on
//! that value. The contracts of [`crate::StringScanner`] are stated over
//! these functions.

use crate::error::ScanError;
use crate::matcher::{leftmost_match, pattern_compiles, span_fits};
use crate::text::is_cut_point;
use vstd::prelude::*;
use vstd::utf8::*;

verus! {

/// What a scanner is: the bytes of its buffer, the offset of the cursor, and
/// the bounds of the last match as offsets into the buffer.
pub struct ScannerView {
    pub buffer: Seq<u8>,
    pub position: int,
    pub last_match: Option<(int, int)>,
}

impl ScannerView {
    /// The buffer is valid UTF-8 and every offset is a cut point of it. A
    /// remembered match starts at the cursor or after it, unless the cursor
    /// stands at its end.
    pub open spec fn wf(self) -> bool {
        &&& valid_utf8(self.buffer)
        &&& is_cut_point(self.buffer, self.position)
        &&& match self.last_match {
            Some((start, end)) => {
                &&& start <= end
                &&& is_cut_point(self.buffer, start)
                &&& is_cut_point(self.buffer, end)
                &&& (self.position <= start || self.position == end)
            },
            None => true,
        }
    }

    /// A scanner over `buffer` that has not scanned anything yet.
    pub open spec fn fresh(buffer: Seq<u8>) -> ScannerView {
        ScannerView { buffer, position: 0, last_match: None }
    }

    /// The unconsumed rest of the buffer.
    pub open spec fn window(self) -> Seq<u8> {
        self.buffer.subrange(self.position, self.buffer.len() as int)
    }

    /// The last offset of the buffer that is not its end: one before the
    /// length, and 0 for an empty buffer.
    pub open spec fn last_offset(self) -> int {
        if self.buffer.len() == 0 {
            0
        } else {
            self.buffer.len() - 1
        }
    }

    /// The cursor stands at the start of the buffer or right behind a line
    /// feed. In UTF-8 the byte 10 occurs only as the line feed character.
    pub open spec fn at_line_start(self) -> bool {
        self.position == 0 || self.buffer[self.position - 1] == 10u8
    }

    /// The cursor stands at the last offset.
    pub open spec fn at_last_offset(self) -> bool {
        self.position == self.last_offset()
    }

    /// The scanner after a repositioning to `position`. At a cut point of the
    /// buffer the cursor moves there and the last match is forgotten; any
    /// other offset leaves the scanner as it was.
    pub open spec fn after_set_position(self, position: int) -> ScannerView {
        if is_cut_point(self.buffer, position) {
            ScannerView { buffer: self.buffer, position, last_match: None }
        } else {
            self
        }
    }

    /// What a repositioning to `position` returns.
    pub open spec fn set_position_outcome(self, position: int) -> Result<(), ScanError> {
        if is_cut_point(self.buffer, position) {
            Ok(())
        } else {
            Err(ScanError::InvalidPosition)
        }
    }

    /// The text of the last match.
    pub open spec fn matched_text(self) -> Option<Seq<u8>> {
        match self.last_match {
            Some((start, end)) => Some(self.buffer.subrange(start, end)),
            None => None,
        }
    }

    /// The buffer before the start of the last match.
    pub open spec fn pre_match_text(self) -> Option<Seq<u8>> {
        match self.last_match {
            Some((start, _)) => Some(self.buffer.subrange(0, start)),
            None => None,
        }
    }

    /// The buffer from the cursor on, as long as a match is remembered.
    pub open spec fn post_match_text(self) -> Option<Seq<u8>> {
        match self.last_match {
            Some(_) => Some(self.window()),
            None => None,
        }
    }

    /// A fresh scanner over the unconsumed rest of the buffer.
    pub open spec fn rest(self) -> ScannerView {
        ScannerView::fresh(self.window())
    }

    /// What the matcher answers for `pattern` in the window.
    pub open spec fn search(self, pattern: Seq<char>) -> Option<(usize, usize)> {
        leftmost_match(pattern, decode_utf8(self.window()))
    }

    /// The answer of the matcher for `pattern`, if it is a match, bounds a
    /// piece of the window.
    pub open spec fn search_fits(self, pattern: Seq<char>) -> bool {
        match self.search(pattern) {
            Some((start, end)) => span_fits(self.window(), start as int, end as int),
            None => true,
        }
    }

    /// Whether the answer `found` of the matcher is a success: it bounds a
    /// piece of the window and, for an anchored attempt, that piece starts
    /// where the window starts.
    pub open spec fn accepts(self, found: Option<(usize, usize)>, anchored: bool) -> bool {
        match found {
            Some((start, end)) => {
                &&& span_fits(self.window(), start as int, end as int)
                &&& anchored ==> start == 0
            },
            None => false,
        }
    }

    /// The scanner after an attempt for which the matcher answered `found`.
    /// A success is remembered in offsets of the buffer, and the cursor moves
    /// to its end if the attempt advances. A failure leaves nothing
    /// remembered.
    pub open spec fn after_attempt(
        self,
        found: Option<(usize, usize)>,
        anchored: bool,
        advance: bool,
    ) -> ScannerView {
        if self.accepts(found, anchored) {
            let (start, end) = found->0;
            ScannerView {
                buffer: self.buffer,
                position: if advance {
                    self.position + end
                } else {
                    self.position
                },
                last_match: Some((self.position + start, self.position + end)),
            }
        } else {
            ScannerView { buffer: self.buffer, position: self.position, last_match: None }
        }
    }

    /// What an attempt returns for which the matcher answered `found`: on
    /// success the window up to the end of the match.
    pub open spec fn attempt_text(self, found: Option<(usize, usize)>, anchored: bool) -> Option<
        Seq<u8>,
    > {
        if self.accepts(found, anchored) {
            let (_, end) = found->0;
            Some(self.buffer.subrange(self.position, self.position + end))
        } else {
            None
        }
    }

    /// The scanner after a scanning operation with `pattern`. A pattern that
    /// does not compile leaves the scanner as it was.
    pub open spec fn after_scan(
        self,
        pattern: Seq<char>,
        anchored: bool,
        advance: bool,
    ) -> ScannerView {
        if pattern_compiles(pattern) {
            self.after_attempt(self.search(pattern), anchored, advance)
        } else {
            self
        }
    }

    /// What a scanning operation with `pattern` returns.
    pub open spec fn scan_outcome(self, pattern: Seq<char>, anchored: bool) -> Result<
        Option<Seq<u8>>,
        ScanError,
    > {
        if pattern_compiles(pattern) {
            Ok(self.attempt_text(self.search(pattern), anchored))
        } else {
            Err(ScanError::InvalidPattern)
        }
    }

    /// The offset behind the character that starts at the cursor.
    pub open spec fn next_cut_point(self) -> int {
        self.position + length_of_first_scalar(self.window())
    }

    /// The scanner after reading one character. Before the end of the buffer
    /// the cursor moves behind the character that starts at it, and that
    /// character is remembered as the match. At the end the cursor stays and
    /// nothing is remembered.
    pub open spec fn after_getch(self) -> ScannerView {
        if self.position < self.buffer.len() {
            ScannerView {
                buffer: self.buffer,
                position: self.next_cut_point(),
                last_match: Some((self.position, self.next_cut_point())),
            }
        } else {
            ScannerView { buffer: self.buffer, position: self.position, last_match: None }
        }
    }

    /// What reading one character returns: the character that starts at the
    /// cursor, whichever it is, and nothing at the end of the buffer.
    pub open spec fn getch_text(self) -> Option<Seq<u8>> {
        if self.position < self.buffer.len() {
            Some(self.buffer.subrange(self.position, self.next_cut_point()))
        } else {
            None
        }
    }
}

} // verus!

//! What holds of every scanner, proved over the model of
//! [`crate::model::ScannerView`].

use crate::error::ScanError;
use crate::matcher::{any_char_pattern, first_char_span, pattern_compiles};
use crate::model::ScannerView;
use crate::text::{
    is_cut_point, lemma_cut_point_in_prefix, lemma_cut_point_in_suffix,
    lemma_first_char_ends_at_cut_point, lemma_first_char_of_text, lemma_line_feed_is_last_byte,
};
use vstd::prelude::*;
use vstd::utf8::*;

verus! {

/// The scanner after `n` advancing scans with `pattern`, each as
/// [`ScannerView::after_scan`] describes.
pub open spec fn after_scans(
    v: ScannerView,
    pattern: Seq<char>,
    anchored: bool,
    n: nat,
) -> ScannerView
    decreases n,
{
    if n == 0 {
        v
    } else {
        after_scans(v.after_scan(pattern, anchored, true), pattern, anchored, (n - 1) as nat)
    }
}

/// The scanner after `n` reads of one character.
pub open spec fn after_getchs(v: ScannerView, n: nat) -> ScannerView
    decreases n,
{
    if n == 0 {
        v
    } else {
        after_getchs(v.after_getch(), (n - 1) as nat)
    }
}

/// What `n` successive reads of one character return, in order.
pub open spec fn getch_texts(v: ScannerView, n: nat) -> Seq<Option<Seq<u8>>>
    decreases n,
{
    if n == 0 {
        Seq::empty()
    } else {
        seq![v.getch_text()] + getch_texts(v.after_getch(), (n - 1) as nat)
    }
}

/// Every operation keeps a well-formed scanner well-formed, whatever the
/// matcher answers.
pub proof fn lemma_operations_keep_wf(
    v: ScannerView,
    found: Option<(usize, usize)>,
    pattern: Seq<char>,
    position: int,
    anchored: bool,
    advance: bool,
)
    requires
        v.wf(),
    ensures
        v.after_set_position(position).wf(),
        v.after_attempt(found, anchored, advance).wf(),
        v.after_scan(pattern, anchored, advance).wf(),
        v.after_getch().wf(),
        v.rest().wf(),
{
    lemma_attempt_keeps_wf(v, found, anchored, advance);
    lemma_attempt_keeps_wf(v, v.search(pattern), anchored, advance);
    if v.position < v.buffer.len() {
        lemma_getch_reads_first_char(v);
    }
    lemma_cut_point_in_suffix(v.buffer, v.position, 0);
}

proof fn lemma_attempt_keeps_wf(
    v: ScannerView,
    found: Option<(usize, usize)>,
    anchored: bool,
    advance: bool,
)
    requires
        v.wf(),
    ensures
        v.after_attempt(found, anchored, advance).wf(),
{
    if v.accepts(found, anchored) {
        let (start, end) = found->0;
        lemma_cut_point_in_suffix(v.buffer, v.position, start as int);
        lemma_cut_point_in_suffix(v.buffer, v.position, end as int);
    }
}

/// The cursor stands at the beginning of a line exactly if it stands at the
/// start of the buffer or the character before it is a line feed.
pub proof fn lemma_line_starts_behind_line_feed(v: ScannerView)
    requires
        v.wf(),
    ensures
        v.at_line_start() <==> (v.position == 0 || decode_utf8(
            v.buffer.subrange(0, v.position),
        ).last() == '\n'),
{
    if v.position > 0 {
        valid_utf8_split(v.buffer, v.position);
        lemma_line_feed_is_last_byte(v.buffer.subrange(0, v.position));
    }
}

/// After a repositioning to a cut point of the buffer, the matched text, the
/// text before it and the text after it are all absent.
pub proof fn lemma_reposition_forgets_match(v: ScannerView, position: int)
    requires
        is_cut_point(v.buffer, position),
    ensures
        v.set_position_outcome(position) is Ok,
        v.after_set_position(position).position == position,
        v.after_set_position(position).matched_text() is None,
        v.after_set_position(position).pre_match_text() is None,
        v.after_set_position(position).post_match_text() is None,
{
}

/// After a scanning operation that found no match, the matched text, the
/// text before it and the text after it are all absent, whatever was
/// remembered before.
pub proof fn lemma_failed_scan_forgets_match(
    v: ScannerView,
    pattern: Seq<char>,
    anchored: bool,
    advance: bool,
)
    requires
        v.scan_outcome(pattern, anchored) == Ok::<Option<Seq<u8>>, ScanError>(None),
    ensures
        v.after_scan(pattern, anchored, advance).position == v.position,
        v.after_scan(pattern, anchored, advance).matched_text() is None,
        v.after_scan(pattern, anchored, advance).pre_match_text() is None,
        v.after_scan(pattern, anchored, advance).post_match_text() is None,
{
}

/// An anchored scan succeeds only if the leftmost match starts at the
/// cursor.
pub proof fn lemma_anchored_scan_starts_at_cursor(v: ScannerView, pattern: Seq<char>)
    requires
        v.scan_outcome(pattern, true) matches Ok(Some(_)),
    ensures
        v.search(pattern) matches Some((start, _)) && start == 0,
{
}

/// A successful scanning operation returns the buffer from the cursor to
/// the start of the match, followed by the matched text. For `scan` and
/// `check` that is the matched text alone.
pub proof fn lemma_scan_returns_text_up_to_match_end(
    v: ScannerView,
    pattern: Seq<char>,
    anchored: bool,
    advance: bool,
)
    requires
        v.wf(),
        v.scan_outcome(pattern, anchored) matches Ok(Some(_)),
    ensures
        ({
            let after = v.after_scan(pattern, anchored, advance);
            let text = v.scan_outcome(pattern, anchored)->Ok_0->0;
            &&& after.last_match matches Some((start, _)) && text == v.buffer.subrange(
                v.position,
                start,
            ) + after.matched_text()->0
            &&& anchored ==> text == after.matched_text()->0
        }),
{
    let after = v.after_scan(pattern, anchored, advance);
    let (start, end) = after.last_match->0;
    assert(v.buffer.subrange(v.position, end) =~= v.buffer.subrange(v.position, start)
        + v.buffer.subrange(start, end));
}

/// Where the leftmost match starts later in the window than the cursor, the
/// anchored scan returns nothing, and the search with the same pattern
/// succeeds.
pub proof fn lemma_later_match_fails_anchored_scan(v: ScannerView, pattern: Seq<char>)
    requires
        pattern_compiles(pattern),
        v.search_fits(pattern),
        v.search(pattern) matches Some((start, _)) && start > 0,
    ensures
        v.scan_outcome(pattern, true) == Ok::<Option<Seq<u8>>, ScanError>(None),
        v.scan_outcome(pattern, false) matches Ok(Some(_)),
{
}

/// After a successful `scan` or `scan_until` the cursor stands at the end of
/// the match, which lies as far behind the old cursor as the match ends in
/// the window. `check` and `check_until` leave the cursor where it was,
/// whether they succeed or not.
pub proof fn lemma_cursor_after_scan(v: ScannerView, pattern: Seq<char>, anchored: bool)
    ensures
        v.scan_outcome(pattern, anchored) matches Ok(Some(_)) ==> {
            let after = v.after_scan(pattern, anchored, true);
            &&& v.search(pattern) matches Some((_, end)) && after.position == v.position + end
            &&& after.last_match matches Some((_, end)) && after.position == end
        },
        v.after_scan(pattern, anchored, false).position == v.position,
{
}

/// Where the cursor stands at the end of the remembered match, the text
/// before the match, the matched text and the text after it make up the
/// buffer, as bytes and as characters.
pub proof fn lemma_match_parts_make_buffer(v: ScannerView)
    requires
        v.wf(),
        v.last_match matches Some((_, end)) && v.position == end,
    ensures
        v.pre_match_text()->0 + v.matched_text()->0 + v.post_match_text()->0 == v.buffer,
        decode_utf8(v.pre_match_text()->0) + decode_utf8(v.matched_text()->0) + decode_utf8(
            v.post_match_text()->0,
        ) == decode_utf8(v.buffer),
{
    let (start, end) = v.last_match->0;
    let pre = v.pre_match_text()->0;
    let mid = v.matched_text()->0;
    let front = v.buffer.subrange(0, end);
    decode_utf8_split(v.buffer, end);
    lemma_cut_point_in_prefix(v.buffer, end, start);
    decode_utf8_split(front, start);
    assert(front.subrange(0, start) =~= pre);
    assert(front.subrange(start, front.len() as int) =~= mid);
}

/// After every successful `scan` and `scan_until`, the text before the
/// match, the matched text and the text after it make up the buffer.
pub proof fn lemma_scan_splits_buffer(v: ScannerView, pattern: Seq<char>, anchored: bool)
    requires
        v.wf(),
        v.scan_outcome(pattern, anchored) matches Ok(Some(_)),
    ensures
        ({
            let after = v.after_scan(pattern, anchored, true);
            after.pre_match_text()->0 + after.matched_text()->0 + after.post_match_text()->0
                == v.buffer
        }),
{
    let after = v.after_scan(pattern, anchored, true);
    lemma_attempt_keeps_wf(v, v.search(pattern), anchored, true);
    lemma_match_parts_make_buffer(after);
}

/// A pattern that matches the empty text at the cursor can be scanned any
/// number of times: every scan succeeds with the empty text, and the cursor
/// never moves.
pub proof fn lemma_empty_match_repeats(v: ScannerView, pattern: Seq<char>, anchored: bool, n: nat)
    requires
        v.wf(),
        pattern_compiles(pattern),
        v.search(pattern) == Some((0usize, 0usize)),
    ensures
        after_scans(v, pattern, anchored, n).position == v.position,
        after_scans(v, pattern, anchored, n).buffer == v.buffer,
        after_scans(v, pattern, anchored, n).scan_outcome(pattern, anchored) == Ok::<
            Option<Seq<u8>>,
            ScanError,
        >(Some(Seq::empty())),
    decreases n,
{
    lemma_cut_point_in_suffix(v.buffer, v.position, 0);
    assert(v.buffer.subrange(v.position, v.position + 0) =~= Seq::<u8>::empty());
    if n > 0 {
        let next = v.after_scan(pattern, anchored, true);
        lemma_empty_match_repeats(next, pattern, anchored, (n - 1) as nat);
    }
}

/// Before the end of the buffer, reading one character returns the first
/// character of the window, whichever it is, as its encoding. The cursor
/// moves to the next cut point of the buffer, the character is remembered as
/// the match, and the window loses its first character.
pub proof fn lemma_getch_reads_first_char(v: ScannerView)
    requires
        v.wf(),
        v.position < v.buffer.len(),
    ensures
        v.after_getch().wf(),
        decode_utf8(v.window()).len() > 0,
        v.getch_text() == Some(encode_utf8(seq![decode_utf8(v.window())[0]])),
        v.after_getch().matched_text() == v.getch_text(),
        v.position < v.after_getch().position <= v.buffer.len(),
        forall|i: int| v.position < i < v.after_getch().position ==> !is_cut_point(v.buffer, i),
        v.after_getch().window() == pop_first_scalar(v.window()),
        decode_utf8(v.after_getch().window()) == decode_utf8(v.window()).drop_first(),
{
    let w = v.window();
    let n = length_of_first_scalar(w);
    lemma_cut_point_in_suffix(v.buffer, v.position, 0);
    lemma_first_char_ends_at_cut_point(w);
    lemma_first_char_of_text(w);
    lemma_cut_point_in_suffix(v.buffer, v.position, n);
    assert(v.buffer.subrange(v.position, v.position + n) =~= take_first_scalar(w));
    assert(v.after_getch().window() =~= pop_first_scalar(w));
    assert forall|i: int| v.position < i < v.position + n implies !is_cut_point(v.buffer, i) by {
        lemma_cut_point_in_suffix(v.buffer, v.position, i - v.position);
    }
}

/// At the end of the buffer, reading one character returns nothing, leaves
/// the cursor where it is and leaves nothing remembered, however often it is
/// tried.
pub proof fn lemma_getch_at_end_reads_nothing(v: ScannerView, n: nat)
    requires
        v.position == v.buffer.len(),
    ensures
        after_getchs(v, n).getch_text() is None,
        after_getchs(v, n).position == v.position,
        after_getchs(v, n).buffer == v.buffer,
        n > 0 ==> after_getchs(v, n).last_match is None,
    decreases n,
{
    if n > 0 {
        lemma_getch_at_end_reads_nothing(v.after_getch(), (n - 1) as nat);
    }
}

/// On an empty buffer every read of one character returns nothing, and the
/// scanner stays at the start with nothing remembered.
pub proof fn lemma_empty_buffer_reads_nothing(n: nat)
    ensures
        ScannerView::fresh(Seq::empty()).wf(),
        after_getchs(ScannerView::fresh(Seq::empty()), n).getch_text() is None,
        after_getchs(ScannerView::fresh(Seq::empty()), n) == ScannerView::fresh(Seq::empty()),
    decreases n,
{
    let v = ScannerView::fresh(Seq::empty());
    assert(v.after_getch() == v);
    if n > 0 {
        lemma_empty_buffer_reads_nothing((n - 1) as nat);
    }
}

/// Successive reads return the characters of the window one by one, in
/// order, and nothing once the window is used up.
pub proof fn lemma_reads_are_the_characters(v: ScannerView, n: nat, i: int)
    requires
        v.wf(),
        0 <= i < n,
    ensures
        getch_texts(v, n).len() == n,
        getch_texts(v, n)[i] == if i < decode_utf8(v.window()).len() {
            Some(encode_utf8(seq![decode_utf8(v.window())[i]]))
        } else {
            None
        },
    decreases n,
{
    let next = v.after_getch();
    lemma_getch_texts_len(v, n);
    lemma_getch_texts_len(next, (n - 1) as nat);
    lemma_cut_point_in_suffix(v.buffer, v.position, 0);
    if v.position < v.buffer.len() {
        lemma_getch_reads_first_char(v);
    } else {
        assert(v.window() =~= Seq::<u8>::empty());
        assert(next.window() =~= v.window());
    }
    if i > 0 {
        lemma_reads_are_the_characters(next, (n - 1) as nat, i - 1);
    }
}

proof fn lemma_getch_texts_len(v: ScannerView, n: nat)
    ensures
        getch_texts(v, n).len() == n,
    decreases n,
{
    if n > 0 {
        lemma_getch_texts_len(v.after_getch(), (n - 1) as nat);
    }
}

/// Reading one character is the anchored, advancing scan with the pattern
/// for any one character, wherever the matcher answers for that pattern as
/// its syntax says: with the first character of the window.
pub proof fn lemma_getch_is_scan(v: ScannerView)
    requires
        v.wf(),
        pattern_compiles(any_char_pattern()),
        v.search(any_char_pattern()) == first_char_span(v.window()),
    ensures
        v.after_scan(any_char_pattern(), true, true) == v.after_getch(),
        v.scan_outcome(any_char_pattern(), true) == Ok::<Option<Seq<u8>>, ScanError>(
            v.getch_text(),
        ),
{
    lemma_cut_point_in_suffix(v.buffer, v.position, 0);
    if v.position < v.buffer.len() {
        lemma_first_char_ends_at_cut_point(v.window());
    }
}

/// Two scanners with the same window read the same characters, however far
/// one reads.
pub proof fn lemma_same_window_same_reads(a: ScannerView, b: ScannerView, n: nat)
    requires
        a.wf(),
        b.wf(),
        a.window() == b.window(),
    ensures
        getch_texts(a, n) == getch_texts(b, n),
    decreases n,
{
    if n > 0 {
        lemma_cut_point_in_suffix(a.buffer, a.position, 0);
        lemma_cut_point_in_suffix(b.buffer, b.position, 0);
        if a.position < a.buffer.len() {
            lemma_getch_reads_first_char(a);
            lemma_getch_reads_first_char(b);
        } else {
            assert(a.after_getch().window() =~= a.window());
            assert(b.after_getch().window() =~= b.window());
        }
        lemma_same_window_same_reads(a.after_getch(), b.after_getch(), (n - 1) as nat);
    }
}

/// A sub-scanner, which starts afresh on the window of its parent, reads the
/// same characters as the parent would from where it stands: the characters
/// of the rest of the buffer, then nothing.
pub proof fn lemma_subscan_reads_the_rest(v: ScannerView, n: nat)
    requires
        v.wf(),
    ensures
        v.rest().wf(),
        v.rest().window() == v.window(),
        getch_texts(v.rest(), n) == getch_texts(v, n),
{
    lemma_cut_point_in_suffix(v.buffer, v.position, 0);
    assert(v.rest().window() =~= v.window());
    lemma_same_window_same_reads(v.rest(), v, n);
}

} // verus!

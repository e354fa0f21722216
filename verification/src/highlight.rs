//! Rendering a snippet with the offsets of its matches into marked-up text.
//!
//! The ranges are put in order and walked from left to right with a cursor
//! that starts at offset 0. A range leaves a highlighted stretch behind, after
//! the plain text between the cursor and its start, and moves the cursor to
//! its end. What stands behind the last range is copied as it is.
//!
//! No range is trusted. A range that reaches back before the cursor overlaps
//! what has been written: it is cut to start at the cursor, and dropped when
//! nothing of it lies beyond the cursor. An end behind the end of the content
//! is pulled back to it. A range whose ends, so cut, are in the wrong order or
//! fall inside a character is dropped. The content itself is never altered:
//! escaping it is the caller's business.

use vstd::prelude::*;
use vstd::string::StringExecFns;
use crate::model::Snippet;
use vstd::seq_lib::to_multiset_contains;
use vstd::utf8::{is_ascii_chars, is_ascii_chars_encode_utf8};
use crate::ranges::{
    lemma_sorted_ascending,
    lemma_sorted_idempotent,
    lemma_sorted_permutes,
    sort_by_start,
    sorted_by_start,
};
use crate::text::{
    byte_len,
    is_boundary,
    lemma_boundary_in_bounds,
    lemma_bytes_concat,
    lemma_slice_concat,
    lemma_slice_empty,
    lemma_slice_whole,
    len_in_bytes,
    slice,
    substring,
};

verus! {

/// What is written before a highlighted stretch.
pub open spec fn mark_open() -> Seq<char> {
    seq!['<', 'm', 'a', 'r', 'k', '>']
}

/// What is written behind a highlighted stretch.
pub open spec fn mark_close() -> Seq<char> {
    seq!['<', '/', 'm', 'a', 'r', 'k', '>']
}

/// A stretch of the content, from byte `start` up to byte `end`, that is
/// written out highlighted (`marked`) or as it is.
pub struct Segment {
    pub marked: bool,
    pub start: int,
    pub end: int,
}

/// Where a walk over some ranges stands: the segments left behind, and the
/// cursor, up to which the content has been written.
pub struct Walk {
    pub segments: Seq<Segment>,
    pub cursor: int,
}

/// The stretch that `range` highlights when the cursor stands at `cursor`, or
/// `None` where the range is dropped.
pub open spec fn clip(content: Seq<char>, cursor: int, range: (usize, usize)) -> Option<
    (int, int),
> {
    let start = if range.0 >= cursor {
        range.0 as int
    } else {
        cursor
    };
    let end = if range.1 <= byte_len(content) {
        range.1 as int
    } else {
        byte_len(content)
    };
    if start <= end && (range.0 >= cursor || end > cursor) && is_boundary(content, start)
        && is_boundary(content, end) {
        Some((start, end))
    } else {
        None
    }
}

/// The walk after one more range.
pub open spec fn step(content: Seq<char>, walk: Walk, range: (usize, usize)) -> Walk {
    match clip(content, walk.cursor, range) {
        None => walk,
        Some((start, end)) => {
            let mark = Segment { marked: true, start, end };
            let gap = Segment { marked: false, start: walk.cursor, end: start };
            Walk {
                segments: if start > walk.cursor {
                    walk.segments.push(gap).push(mark)
                } else {
                    walk.segments.push(mark)
                },
                cursor: end,
            }
        },
    }
}

/// The walk over `ranges` in the order in which they stand.
pub open spec fn walk(content: Seq<char>, ranges: Seq<(usize, usize)>) -> Walk
    decreases ranges.len(),
{
    if ranges.len() == 0 {
        Walk { segments: Seq::empty(), cursor: 0 }
    } else {
        step(content, walk(content, ranges.drop_last()), ranges.last())
    }
}

/// The segments into which the ranges divide the content: those that the walk
/// over the sorted ranges leaves behind and, where the walk ends before the
/// content does, the rest.
pub open spec fn segments(content: Seq<char>, ranges: Seq<(usize, usize)>) -> Seq<Segment> {
    let walked = walk(content, sorted_by_start(ranges));
    if walked.cursor < byte_len(content) {
        walked.segments.push(
            Segment { marked: false, start: walked.cursor, end: byte_len(content) },
        )
    } else {
        walked.segments
    }
}

/// The text of a segment as it is written out.
pub open spec fn segment_markup(content: Seq<char>, segment: Segment) -> Seq<char> {
    if segment.marked {
        mark_open() + slice(content, segment.start, segment.end) + mark_close()
    } else {
        slice(content, segment.start, segment.end)
    }
}

/// The segments written out one after the other.
pub open spec fn markup(content: Seq<char>, segments: Seq<Segment>) -> Seq<char>
    decreases segments.len(),
{
    if segments.len() == 0 {
        Seq::empty()
    } else {
        markup(content, segments.drop_last()) + segment_markup(content, segments.last())
    }
}

/// The segments written out one after the other without the marks.
pub open spec fn plain_text(content: Seq<char>, segments: Seq<Segment>) -> Seq<char>
    decreases segments.len(),
{
    if segments.len() == 0 {
        Seq::empty()
    } else {
        plain_text(content, segments.drop_last()) + slice(
            content,
            segments.last().start,
            segments.last().end,
        )
    }
}

/// The number of highlighted segments.
pub open spec fn marked_count(segments: Seq<Segment>) -> nat
    decreases segments.len(),
{
    if segments.len() == 0 {
        0
    } else {
        marked_count(segments.drop_last()) + if segments.last().marked {
            1nat
        } else {
            0nat
        }
    }
}

/// The marked-up text of a snippet.
pub open spec fn highlighted_html(content: Seq<char>, ranges: Seq<(usize, usize)>) -> Seq<char> {
    markup(content, segments(content, ranges))
}

/// Whether the segments lie one behind the other from the start of the
/// content up to `end`, each of them between two boundaries: nothing of the
/// content is left out before `end`, and nothing occurs twice.
pub open spec fn tiles(content: Seq<char>, segments: Seq<Segment>, end: int) -> bool
    decreases segments.len(),
{
    if segments.len() == 0 {
        end == 0
    } else {
        let last = segments.last();
        &&& last.end == end
        &&& last.start <= last.end
        &&& is_boundary(content, last.start)
        &&& is_boundary(content, last.end)
        &&& tiles(content, segments.drop_last(), last.start)
    }
}

/// Segments that tile the content up to `end` end at a boundary.
proof fn lemma_tiles_end(content: Seq<char>, segments: Seq<Segment>, end: int)
    requires
        tiles(content, segments, end),
    ensures
        is_boundary(content, end),
{
    if segments.len() == 0 {
        lemma_slice_whole(content);
    }
}

/// One more range keeps the tiling.
proof fn lemma_step_tiles(content: Seq<char>, before: Walk, range: (usize, usize))
    requires
        tiles(content, before.segments, before.cursor),
    ensures
        tiles(content, step(content, before, range).segments, step(content, before, range).cursor),
        before.cursor <= step(content, before, range).cursor,
{
    lemma_tiles_end(content, before.segments, before.cursor);
    match clip(content, before.cursor, range) {
        None => {},
        Some((start, end)) => {
            let mark = Segment { marked: true, start, end };
            let gap = Segment { marked: false, start: before.cursor, end: start };
            if start > before.cursor {
                let with_gap = before.segments.push(gap);
                assert(with_gap.drop_last() =~= before.segments);
                assert(tiles(content, with_gap, start));
                assert(with_gap.push(mark).drop_last() =~= with_gap);
            } else {
                assert(before.segments.push(mark).drop_last() =~= before.segments);
            }
        },
    }
}

/// What a walk leaves behind tiles the content up to its cursor.
pub proof fn lemma_walk_tiles(content: Seq<char>, ranges: Seq<(usize, usize)>)
    ensures
        tiles(content, walk(content, ranges).segments, walk(content, ranges).cursor),
        is_boundary(content, walk(content, ranges).cursor),
    decreases ranges.len(),
{
    if ranges.len() > 0 {
        lemma_walk_tiles(content, ranges.drop_last());
        lemma_step_tiles(content, walk(content, ranges.drop_last()), ranges.last());
    }
    lemma_tiles_end(content, walk(content, ranges).segments, walk(content, ranges).cursor);
}

/// The segments of a snippet tile the whole content, whatever the ranges.
pub proof fn lemma_segments_tile(content: Seq<char>, ranges: Seq<(usize, usize)>)
    ensures
        tiles(content, segments(content, ranges), byte_len(content)),
{
    let walked = walk(content, sorted_by_start(ranges));
    lemma_walk_tiles(content, sorted_by_start(ranges));
    lemma_slice_whole(content);
    if walked.cursor < byte_len(content) {
        let rest = Segment { marked: false, start: walked.cursor, end: byte_len(content) };
        assert(walked.segments.push(rest).drop_last() =~= walked.segments);
    }
}

/// Segments that tile the content up to `end` hold, without the marks, the
/// content up to `end`.
pub proof fn lemma_tiles_plain_text(content: Seq<char>, segments: Seq<Segment>, end: int)
    requires
        tiles(content, segments, end),
    ensures
        plain_text(content, segments) == slice(content, 0, end),
    decreases segments.len(),
{
    lemma_slice_whole(content);
    if segments.len() == 0 {
        lemma_slice_empty(content, 0);
    } else {
        let last = segments.last();
        lemma_tiles_plain_text(content, segments.drop_last(), last.start);
        lemma_slice_concat(content, 0, last.start, last.end);
    }
}

/// Full coverage: the segments of a snippet, written out one after the other
/// without the marks, are the content, whatever the ranges.
pub proof fn lemma_full_coverage(content: Seq<char>, ranges: Seq<(usize, usize)>)
    ensures
        plain_text(content, segments(content, ranges)) == content,
{
    lemma_segments_tile(content, ranges);
    lemma_tiles_plain_text(content, segments(content, ranges), byte_len(content));
    lemma_slice_whole(content);
}

/// Each highlighted segment makes the marked-up text longer than the plain
/// text by one opening and one closing mark.
pub proof fn lemma_markup_len(content: Seq<char>, segments: Seq<Segment>)
    ensures
        markup(content, segments).len() == plain_text(content, segments).len() + marked_count(
            segments,
        ) * (mark_open().len() + mark_close().len()),
    decreases segments.len(),
{
    let each = mark_open().len() + mark_close().len();
    assert(each == 13);
    if segments.len() > 0 {
        lemma_markup_len(content, segments.drop_last());
    }
}

/// The length of the marked-up text: that of the content, and the two marks
/// for each range that was highlighted.
pub proof fn lemma_html_len(content: Seq<char>, ranges: Seq<(usize, usize)>)
    ensures
        highlighted_html(content, ranges).len() == content.len() + marked_count(
            segments(content, ranges),
        ) * (mark_open().len() + mark_close().len()),
{
    lemma_markup_len(content, segments(content, ranges));
    lemma_full_coverage(content, ranges);
}

/// The same in bytes, for any segments: each highlighted segment adds the
/// thirteen bytes of the two marks.
pub proof fn lemma_markup_byte_len(content: Seq<char>, segments: Seq<Segment>)
    ensures
        byte_len(mark_open()) + byte_len(mark_close()) == 13,
        byte_len(markup(content, segments)) == byte_len(plain_text(content, segments))
            + marked_count(segments) * 13,
    decreases segments.len(),
{
    is_ascii_chars_encode_utf8(mark_open());
    is_ascii_chars_encode_utf8(mark_close());
    if segments.len() > 0 {
        let front = segments.drop_last();
        let last = segments.last();
        let stretch = slice(content, last.start, last.end);
        lemma_markup_byte_len(content, front);
        lemma_bytes_concat(markup(content, front), segment_markup(content, last));
        lemma_bytes_concat(plain_text(content, front), stretch);
        if last.marked {
            lemma_bytes_concat(mark_open() + stretch, mark_close());
            lemma_bytes_concat(mark_open(), stretch);
        }
    }
}

/// The length of the marked-up text in bytes: that of the content, and the
/// thirteen bytes of the two marks for each range that was highlighted.
pub proof fn lemma_html_byte_len(content: Seq<char>, ranges: Seq<(usize, usize)>)
    ensures
        byte_len(highlighted_html(content, ranges)) == byte_len(content) + marked_count(
            segments(content, ranges),
        ) * 13,
{
    lemma_markup_byte_len(content, segments(content, ranges));
    lemma_full_coverage(content, ranges);
}

/// A snippet without ranges is rendered as its content.
pub proof fn lemma_no_ranges(content: Seq<char>)
    ensures
        highlighted_html(content, Seq::empty()) == content,
{
    let none = Seq::<(usize, usize)>::empty();
    lemma_full_coverage(content, none);
    let all = segments(content, none);
    if byte_len(content) > 0 {
        assert(markup(content, all.drop_last()) =~= Seq::<char>::empty());
        assert(plain_text(content, all.drop_last()) =~= Seq::<char>::empty());
    }
}

/// The order in which the ranges are given does not matter beyond the order
/// among ranges that start together: rendering the sorted ranges is rendering
/// the ranges.
pub proof fn lemma_order_normalized(content: Seq<char>, ranges: Seq<(usize, usize)>)
    ensures
        highlighted_html(content, sorted_by_start(ranges)) == highlighted_html(content, ranges),
{
    lemma_sorted_idempotent(ranges);
}

/// Whether the range lies within the content, its start not behind its end,
/// and both of them between characters.
pub open spec fn fits(content: Seq<char>, range: (usize, usize)) -> bool {
    range.0 <= range.1 && is_boundary(content, range.0 as int) && is_boundary(
        content,
        range.1 as int,
    )
}

/// Whether no range reaches beyond the start of a later one.
pub open spec fn disjoint(ranges: Seq<(usize, usize)>) -> bool {
    forall|i: int, j: int| 0 <= i < j < ranges.len() ==> ranges[i].1 <= ranges[j].0
}

/// The highlighted stretches among the segments, in their order.
pub open spec fn marks(segments: Seq<Segment>) -> Seq<(int, int)>
    decreases segments.len(),
{
    if segments.len() == 0 {
        Seq::empty()
    } else if segments.last().marked {
        marks(segments.drop_last()).push((segments.last().start, segments.last().end))
    } else {
        marks(segments.drop_last())
    }
}

/// The ranges as stretches.
pub open spec fn stretches(ranges: Seq<(usize, usize)>) -> Seq<(int, int)> {
    Seq::new(ranges.len(), |i: int| (ranges[i].0 as int, ranges[i].1 as int))
}

/// There are as many highlighted stretches as highlighted segments.
pub proof fn lemma_marks_len(segments: Seq<Segment>)
    ensures
        marks(segments).len() == marked_count(segments),
    decreases segments.len(),
{
    if segments.len() > 0 {
        lemma_marks_len(segments.drop_last());
    }
}

/// A walk over ranges that fit the content and do not overlap highlights
/// each range as it is and ends behind the last.
proof fn lemma_walk_disjoint(content: Seq<char>, ranges: Seq<(usize, usize)>)
    requires
        forall|i: int| 0 <= i < ranges.len() ==> fits(content, #[trigger] ranges[i]),
        disjoint(ranges),
    ensures
        marks(walk(content, ranges).segments) == stretches(ranges),
        walk(content, ranges).cursor == if ranges.len() == 0 {
            0
        } else {
            ranges.last().1 as int
        },
    decreases ranges.len(),
{
    if ranges.len() > 0 {
        let front = ranges.drop_last();
        let range = ranges.last();
        let before = walk(content, front);
        lemma_walk_disjoint(content, front);
        // The cursor stands at the end of the range before, which is no
        // further than where this one starts.
        assert(clip(content, before.cursor, range) == Some((range.0 as int, range.1 as int)));
        let mark = Segment { marked: true, start: range.0 as int, end: range.1 as int };
        let gap = Segment { marked: false, start: before.cursor, end: range.0 as int };
        if range.0 > before.cursor {
            let with_gap = before.segments.push(gap);
            assert(with_gap.drop_last() =~= before.segments);
            assert(marks(with_gap) == marks(before.segments));
            assert(with_gap.push(mark).drop_last() =~= with_gap);
        } else {
            assert(before.segments.push(mark).drop_last() =~= before.segments);
        }
    }
}

/// Ranges that fit the content and, put in order, do not overlap are all
/// highlighted, each from its start to its end, in their order.
pub proof fn lemma_disjoint_ranges_marked(content: Seq<char>, ranges: Seq<(usize, usize)>)
    requires
        forall|i: int| 0 <= i < ranges.len() ==> fits(content, #[trigger] ranges[i]),
        disjoint(sorted_by_start(ranges)),
    ensures
        marks(segments(content, ranges)) == stretches(sorted_by_start(ranges)),
        marked_count(segments(content, ranges)) == ranges.len(),
{
    let sorted = sorted_by_start(ranges);
    lemma_sorted_permutes(ranges);
    lemma_sorted_ascending(ranges);
    assert forall|i: int| 0 <= i < sorted.len() implies fits(content, #[trigger] sorted[i]) by {
        to_multiset_contains(sorted, sorted[i]);
        to_multiset_contains(ranges, sorted[i]);
        let k = choose|k: int| 0 <= k < ranges.len() && ranges[k] == sorted[i];
    }
    lemma_walk_disjoint(content, sorted);
    let walked = walk(content, sorted);
    if walked.cursor < byte_len(content) {
        let rest = Segment { marked: false, start: walked.cursor, end: byte_len(content) };
        assert(walked.segments.push(rest).drop_last() =~= walked.segments);
    }
    lemma_marks_len(segments(content, ranges));
}

impl Snippet {
    /// Whether each range fits the content.
    pub open spec fn well_formed(&self) -> bool {
        forall|i: int|
            0 <= i < self.highlighted@.len() ==> fits(self.content@, #[trigger] self.highlighted@[i])
    }

    /// Tells whether each range fits the content.
    pub fn is_well_formed(&self) -> (yes: bool)
        ensures
            yes == self.well_formed(),
    {
        let content = self.content.as_str();
        let mut done: usize = 0;
        while done < self.highlighted.len()
            invariant
                done <= self.highlighted.len(),
                content@ == self.content@,
                forall|i: int| 0 <= i < done ==> fits(self.content@, #[trigger] self.highlighted@[i]),
            decreases self.highlighted.len() - done,
        {
            let range = self.highlighted[done];
            proof {
                lemma_boundary_in_bounds(content@, range.0 as int);
                lemma_boundary_in_bounds(content@, range.1 as int);
            }
            if !(range.0 <= range.1 && content.is_char_boundary(range.0) && content.is_char_boundary(
                range.1,
            )) {
                return false;
            }
            done += 1;
        }
        true
    }
}

/// Renders the snippet: the content with each highlighted stretch between an
/// opening and a closing mark.
pub fn snippet_to_html(snippet: &Snippet) -> (html: String)
    ensures
        html@ == highlighted_html(snippet.content@, snippet.highlighted@),
        snippet.highlighted@.len() == 0 ==> html@ == snippet.content@,
{
    proof {
        if snippet.highlighted@.len() == 0 {
            lemma_no_ranges(snippet.content@);
            assert(snippet.highlighted@ =~= Seq::empty());
        }
    }
    let content = snippet.content.as_str();
    let len = len_in_bytes(content);
    let ranges = sort_by_start(&snippet.highlighted);
    let mut html = String::new();
    let mut cursor: usize = 0;
    let mut done: usize = 0;
    proof {
        lemma_slice_whole(content@);
    }
    while done < ranges.len()
        invariant
            done <= ranges.len(),
            len == byte_len(content@),
            cursor == walk(content@, ranges@.take(done as int)).cursor,
            html@ == markup(content@, walk(content@, ranges@.take(done as int)).segments),
            is_boundary(content@, cursor as int),
        decreases ranges.len() - done,
    {
        let range = ranges[done];
        let start = if range.0 >= cursor {
            range.0
        } else {
            cursor
        };
        let end = if range.1 <= len {
            range.1
        } else {
            len
        };
        proof {
            let taken = ranges@.take(done as int + 1);
            assert(taken.drop_last() =~= ranges@.take(done as int));
        }
        let ghost before = walk(content@, ranges@.take(done as int));
        if start <= end && (range.0 >= cursor || end > cursor) && content.is_char_boundary(start)
            && content.is_char_boundary(end) {
            let ghost mark = Segment { marked: true, start: start as int, end: end as int };
            let ghost gap = Segment { marked: false, start: cursor as int, end: start as int };
            assert(clip(content@, cursor as int, range) == Some((start as int, end as int)));
            if start > cursor {
                html.append(substring(content, cursor, start));
                proof {
                    let with_gap = before.segments.push(gap);
                    assert(with_gap.drop_last() =~= before.segments);
                    assert(html@ == markup(content@, with_gap));
                    assert(with_gap.push(mark).drop_last() =~= with_gap);
                }
            } else {
                proof {
                    assert(before.segments.push(mark).drop_last() =~= before.segments);
                }
            }
            proof {
                reveal_strlit("<mark>");
                reveal_strlit("</mark>");
            }
            html.append("<mark>");
            html.append(substring(content, start, end));
            html.append("</mark>");
            cursor = end;
        } else {
            assert(clip(content@, cursor as int, range) is None);
        }
        done += 1;
    }
    proof {
        assert(ranges@.take(done as int) =~= ranges@);
    }
    if cursor < len {
        let ghost walked = walk(content@, ranges@);
        let ghost rest = Segment { marked: false, start: cursor as int, end: len as int };
        proof {
            assert(walked.segments.push(rest).drop_last() =~= walked.segments);
        }
        html.append(substring(content, cursor, len));
    }
    html
}

} // verus!

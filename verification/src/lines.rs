//! Line marks: the places of line feeds in a store, and the line starts that
//! the pieces of a document make of them.

use crate::document::{
    lemma_text_len, length_of, lemma_prefix_length, piece_fits, piece_text, pieces_fit, text_of,
    Stores,
};
use crate::line_endings::{
    count_feeds, feeds, lemma_feeds_sound, lemma_line_ends_concat, line_ends, moved, LF,
};
use crate::piece::{Piece, Source};
use vstd::prelude::*;

verus! {

/// The mark tables of the two stores.
pub struct Marks {
    pub data: Seq<usize>,
    pub add: Seq<usize>,
}

impl Marks {
    /// The table of the store that `source` names.
    pub open spec fn of(self, source: Source) -> Seq<usize> {
        match source {
            Source::Data => self.data,
            Source::Add => self.add,
        }
    }
}

/// A mark starts a line for a piece that covers `[lo, hi)` of the store when
/// it lies in that range and is not 0.
pub open spec fn marked(mark: usize, lo: int, hi: int) -> bool {
    mark != 0 && lo <= mark < hi
}

/// The marks of the table that start a line in `[lo, hi)`, in the table's order.
pub open spec fn marks_within(marks: Seq<usize>, lo: int, hi: int) -> Seq<usize>
    decreases marks.len(),
{
    if marks.len() == 0 {
        Seq::empty()
    } else if marked(marks.last(), lo, hi) {
        marks_within(marks.drop_last(), lo, hi).push(marks.last())
    } else {
        marks_within(marks.drop_last(), lo, hi)
    }
}

/// How many entries of the table lie in `[lo, hi)`, zeros and repeats counted.
pub open spec fn count_within(marks: Seq<usize>, lo: int, hi: int) -> nat
    decreases marks.len(),
{
    if marks.len() == 0 {
        0
    } else if lo <= marks.last() < hi {
        count_within(marks.drop_last(), lo, hi) + 1
    } else {
        count_within(marks.drop_last(), lo, hi)
    }
}

/// The greatest entry of a sequence, 0 for none.
pub open spec fn greatest(marks: Seq<usize>) -> usize
    decreases marks.len(),
{
    if marks.len() == 0 {
        0
    } else if marks.last() >= greatest(marks.drop_last()) {
        marks.last()
    } else {
        greatest(marks.drop_last())
    }
}

/// Each mark that is not 0 is greater than all entries before it.
pub open spec fn ascending(marks: Seq<usize>) -> bool {
    forall|i: int, j: int| 0 <= i < j < marks.len() && marks[j] != 0 ==> marks[i] < marks[j]
}

/// The line starts that one piece contributes when it begins at `base` in the
/// document: the place after each of its marks.
pub open spec fn piece_line_starts(marks: Seq<usize>, piece: Piece, base: int) -> Seq<int> {
    let within = marks_within(marks, piece.offset as int, piece.offset + piece.length);
    Seq::new(within.len(), |k: int| base + (within[k] - piece.offset) + 1)
}

/// The line starts of the document after its first line, in the order in
/// which the pieces and the tables give them.
pub open spec fn line_starts_of(pieces: Seq<Piece>, marks: Marks) -> Seq<int>
    decreases pieces.len(),
{
    if pieces.len() == 0 {
        Seq::empty()
    } else {
        line_starts_of(pieces.drop_last(), marks) + piece_line_starts(
            marks.of(pieces.last().source),
            pieces.last(),
            length_of(pieces.drop_last()) as int,
        )
    }
}

/// The number of table entries that the pieces cover.
pub open spec fn line_count_of(pieces: Seq<Piece>, marks: Marks) -> nat
    decreases pieces.len(),
{
    if pieces.len() == 0 {
        0
    } else {
        line_count_of(pieces.drop_last(), marks) + count_within(
            marks.of(pieces.last().source),
            pieces.last().offset as int,
            pieces.last().offset + pieces.last().length,
        )
    }
}

/// How many of the line starts lie at or before `offset`.
pub open spec fn lines_upto(starts: Seq<int>, offset: int) -> nat
    decreases starts.len(),
{
    if starts.len() == 0 {
        0
    } else if starts.last() <= offset {
        lines_upto(starts.drop_last(), offset) + 1
    } else {
        lines_upto(starts.drop_last(), offset)
    }
}

/// The latest of the line starts at or before `offset`, 0 when there is none.
pub open spec fn last_start(starts: Seq<int>, offset: int) -> int
    decreases starts.len(),
{
    if starts.len() == 0 {
        0
    } else if starts.last() <= offset && starts.last() >= last_start(starts.drop_last(), offset) {
        starts.last()
    } else {
        last_start(starts.drop_last(), offset)
    }
}

/// Count the marks that start a line in `[lo, hi)`.
pub fn count_marks(marks: &Vec<usize>, lo: usize, hi: usize) -> (count: usize)
    ensures
        count == marks_within(marks@, lo as int, hi as int).len(),
{
    let mut count: usize = 0;
    let mut i: usize = 0;
    while i < marks.len()
        invariant
            i <= marks.len(),
            count <= i,
            count == marks_within(marks@.take(i as int), lo as int, hi as int).len(),
        decreases marks.len() - i,
    {
        let mark = marks[i];
        proof {
            assert(marks@.take(i + 1).drop_last() =~= marks@.take(i as int));
        }
        if mark != 0 && lo <= mark && mark < hi {
            count += 1;
        }
        i += 1;
    }
    proof {
        assert(marks@.take(marks@.len() as int) =~= marks@);
    }
    count
}

/// The `n`-th of the marks that start a line in `[lo, hi)`, counted from 0.
pub fn nth_mark(marks: &Vec<usize>, lo: usize, hi: usize, n: usize) -> (found: Option<usize>)
    ensures
        found == if n < marks_within(marks@, lo as int, hi as int).len() {
            Some(marks_within(marks@, lo as int, hi as int)[n as int])
        } else {
            None
        },
{
    let mut count: usize = 0;
    let mut i: usize = 0;
    while i < marks.len()
        invariant
            i <= marks.len(),
            count <= i,
            count <= n,
            count == marks_within(marks@.take(i as int), lo as int, hi as int).len(),
        decreases marks.len() - i,
    {
        let mark = marks[i];
        proof {
            assert(marks@.take(i + 1).drop_last() =~= marks@.take(i as int));
        }
        if mark != 0 && lo <= mark && mark < hi {
            if count == n {
                proof {
                    lemma_marks_within_prefix(marks@, i + 1, lo as int, hi as int);
                    let more = marks_within(marks@.take(i + 1), lo as int, hi as int);
                    let all = marks_within(marks@, lo as int, hi as int);
                    assert(more[n as int] == mark);
                    assert(all.take(more.len() as int)[n as int] == all[n as int]);
                }
                return Some(mark);
            }
            count += 1;
        }
        i += 1;
    }
    proof {
        assert(marks@.take(marks@.len() as int) =~= marks@);
    }
    None
}

/// Count the marks that start a line in `[lo, hi)`, and find the greatest.
pub fn count_and_greatest(marks: &Vec<usize>, lo: usize, hi: usize) -> (found: (usize, usize))
    ensures
        found.0 == marks_within(marks@, lo as int, hi as int).len(),
        found.1 == greatest(marks_within(marks@, lo as int, hi as int)),
{
    let mut count: usize = 0;
    let mut top: usize = 0;
    let mut i: usize = 0;
    while i < marks.len()
        invariant
            i <= marks.len(),
            count <= i,
            count == marks_within(marks@.take(i as int), lo as int, hi as int).len(),
            top == greatest(marks_within(marks@.take(i as int), lo as int, hi as int)),
        decreases marks.len() - i,
    {
        let mark = marks[i];
        proof {
            assert(marks@.take(i + 1).drop_last() =~= marks@.take(i as int));
            let before = marks_within(marks@.take(i as int), lo as int, hi as int);
            assert(before.push(mark).drop_last() =~= before);
        }
        if mark != 0 && lo <= mark && mark < hi {
            count += 1;
            if mark >= top {
                top = mark;
            }
        }
        i += 1;
    }
    proof {
        assert(marks@.take(marks@.len() as int) =~= marks@);
    }
    (count, top)
}

/// Count the entries of the table in `[lo, hi)`, zeros and repeats too.
pub fn count_entries(marks: &Vec<usize>, lo: usize, hi: usize) -> (count: usize)
    ensures
        count == count_within(marks@, lo as int, hi as int),
{
    let mut count: usize = 0;
    let mut i: usize = 0;
    while i < marks.len()
        invariant
            i <= marks.len(),
            count <= i,
            count == count_within(marks@.take(i as int), lo as int, hi as int),
        decreases marks.len() - i,
    {
        let mark = marks[i];
        proof {
            assert(marks@.take(i + 1).drop_last() =~= marks@.take(i as int));
        }
        if lo <= mark && mark < hi {
            count += 1;
        }
        i += 1;
    }
    proof {
        assert(marks@.take(marks@.len() as int) =~= marks@);
    }
    count
}

/// The marks found in a prefix of the table are a prefix of the marks found
/// in the whole table.
pub proof fn lemma_marks_within_prefix(marks: Seq<usize>, i: int, lo: int, hi: int)
    requires
        0 <= i <= marks.len(),
    ensures
        marks_within(marks.take(i), lo, hi).len() <= marks_within(marks, lo, hi).len(),
        marks_within(marks.take(i), lo, hi) == marks_within(marks, lo, hi).take(
            marks_within(marks.take(i), lo, hi).len() as int,
        ),
    decreases marks.len() - i,
{
    let part = marks_within(marks.take(i), lo, hi);
    if i == marks.len() {
        assert(marks.take(i) =~= marks);
        assert(part.take(part.len() as int) =~= part);
    } else {
        lemma_marks_within_prefix(marks, i + 1, lo, hi);
        assert(marks.take(i + 1).drop_last() =~= marks.take(i));
        let more = marks_within(marks.take(i + 1), lo, hi);
        let all = marks_within(marks, lo, hi);
        assert(part =~= more.take(part.len() as int));
        assert(more.take(part.len() as int) =~= all.take(more.len() as int).take(part.len() as int));
        assert(all.take(more.len() as int).take(part.len() as int) =~= all.take(part.len() as int));
    }
}

/// Every mark found in `[lo, hi)` is an entry of the table, is not 0 and lies
/// in the range.
pub proof fn lemma_marks_within_entries(marks: Seq<usize>, lo: int, hi: int, k: int)
    requires
        0 <= k < marks_within(marks, lo, hi).len(),
    ensures
        marked(marks_within(marks, lo, hi)[k], lo, hi),
        exists|i: int| 0 <= i < marks.len() && marks[i] == marks_within(marks, lo, hi)[k],
    decreases marks.len(),
{
    if marks.len() > 0 {
        let rest = marks_within(marks.drop_last(), lo, hi);
        if k < rest.len() {
            lemma_marks_within_entries(marks.drop_last(), lo, hi, k);
            let i = choose|i: int| 0 <= i < marks.drop_last().len() && marks.drop_last()[i] == rest[k];
            assert(marks[i] == marks_within(marks, lo, hi)[k]);
        } else {
            assert(marks[marks.len() - 1] == marks_within(marks, lo, hi)[k]);
        }
    }
}

/// In an ascending table the marks found in a range grow strictly.
pub proof fn lemma_marks_within_grow(marks: Seq<usize>, lo: int, hi: int, a: int, b: int)
    requires
        ascending(marks),
        0 <= a < b < marks_within(marks, lo, hi).len(),
    ensures
        marks_within(marks, lo, hi)[a] < marks_within(marks, lo, hi)[b],
    decreases marks.len(),
{
    if marks.len() > 0 {
        let init = marks.drop_last();
        let rest = marks_within(init, lo, hi);
        assert(ascending(init)) by {
            assert forall|i: int, j: int| 0 <= i < j < init.len() && init[j] != 0 implies init[i]
                < init[j] by {
                assert(init[i] == marks[i] && init[j] == marks[j]);
            }
        }
        if b < rest.len() {
            lemma_marks_within_grow(init, lo, hi, a, b);
        } else {
            lemma_marks_within_entries(init, lo, hi, a);
            let i = choose|i: int| 0 <= i < init.len() && init[i] == rest[a];
            assert(marks[i] == rest[a]);
            assert(marks[marks.len() - 1] == marks.last());
        }
    }
}

/// In an ascending table a range holds no more marks than it has places.
pub proof fn lemma_marks_within_count(marks: Seq<usize>, lo: int, hi: int)
    requires
        ascending(marks),
        0 <= lo <= hi,
    ensures
        marks_within(marks, lo, hi).len() <= hi - lo,
{
    let within = marks_within(marks, lo, hi);
    if within.len() > 0 {
        lemma_marks_within_floor(marks, lo, hi, within.len() - 1);
        lemma_marks_within_entries(marks, lo, hi, within.len() - 1);
    }
}

/// In an ascending table the `k`-th mark found in a range lies at least `k`
/// places into it.
pub proof fn lemma_marks_within_floor(marks: Seq<usize>, lo: int, hi: int, k: int)
    requires
        ascending(marks),
        0 <= k < marks_within(marks, lo, hi).len(),
    ensures
        marks_within(marks, lo, hi)[k] >= lo + k,
    decreases k,
{
    lemma_marks_within_entries(marks, lo, hi, k);
    if k > 0 {
        lemma_marks_within_floor(marks, lo, hi, k - 1);
        lemma_marks_within_grow(marks, lo, hi, k - 1, k);
    }
}

/// One more piece in a prefix adds that piece's line starts and entries.
pub proof fn lemma_lines_next(pieces: Seq<Piece>, marks: Marks, i: int)
    requires
        0 <= i < pieces.len(),
    ensures
        line_starts_of(pieces.take(i + 1), marks) == line_starts_of(pieces.take(i), marks)
            + piece_line_starts(
            marks.of(pieces[i].source),
            pieces[i],
            length_of(pieces.take(i)) as int,
        ),
        line_count_of(pieces.take(i + 1), marks) == line_count_of(pieces.take(i), marks)
            + count_within(
            marks.of(pieces[i].source),
            pieces[i].offset as int,
            pieces[i].offset + pieces[i].length,
        ),
{
    assert(pieces.take(i + 1).drop_last() =~= pieces.take(i));
}

/// The line starts of a prefix of the pieces are a prefix of the line starts
/// of all of them.
pub proof fn lemma_lines_prefix(pieces: Seq<Piece>, marks: Marks, i: int)
    requires
        0 <= i <= pieces.len(),
    ensures
        line_starts_of(pieces.take(i), marks).len() <= line_starts_of(pieces, marks).len(),
        line_starts_of(pieces.take(i), marks) == line_starts_of(pieces, marks).take(
            line_starts_of(pieces.take(i), marks).len() as int,
        ),
    decreases pieces.len() - i,
{
    let part = line_starts_of(pieces.take(i), marks);
    let all = line_starts_of(pieces, marks);
    if i == pieces.len() {
        assert(pieces.take(i) =~= pieces);
        assert(all.take(all.len() as int) =~= all);
    } else {
        lemma_lines_prefix(pieces, marks, i + 1);
        lemma_lines_next(pieces, marks, i);
        let more = line_starts_of(pieces.take(i + 1), marks);
        assert(part =~= more.take(part.len() as int));
        assert(more.take(part.len() as int) =~= all.take(more.len() as int).take(part.len() as int));
        assert(all.take(more.len() as int).take(part.len() as int) =~= all.take(part.len() as int));
    }
}

/// Line starts that come in two runs are counted run by run.
pub proof fn lemma_lines_upto_concat(a: Seq<int>, b: Seq<int>, offset: int)
    ensures
        lines_upto(a + b, offset) == lines_upto(a, offset) + lines_upto(b, offset),
    decreases b.len(),
{
    if b.len() == 0 {
        assert(a + b =~= a);
    } else {
        lemma_lines_upto_concat(a, b.drop_last(), offset);
        assert((a + b).drop_last() =~= a + b.drop_last());
    }
}

/// The latest line start at or before `offset` is not negative.
pub proof fn lemma_last_start_not_negative(starts: Seq<int>, offset: int)
    ensures
        last_start(starts, offset) >= 0,
    decreases starts.len(),
{
    if starts.len() > 0 {
        lemma_last_start_not_negative(starts.drop_last(), offset);
    }
}

/// Of line starts that come in two runs, the latest at or before `offset` is
/// the later of the two runs' latest.
pub proof fn lemma_last_start_concat(a: Seq<int>, b: Seq<int>, offset: int)
    ensures
        last_start(a + b, offset) == if last_start(b, offset) >= last_start(a, offset) {
            last_start(b, offset)
        } else {
            last_start(a, offset)
        },
    decreases b.len(),
{
    lemma_last_start_not_negative(a, offset);
    if b.len() == 0 {
        assert(a + b =~= a);
    } else {
        lemma_last_start_concat(a, b.drop_last(), offset);
        lemma_last_start_not_negative(b.drop_last(), offset);
        assert((a + b).drop_last() =~= a + b.drop_last());
    }
}

/// The place in a piece's store that stands for the place `offset` of the
/// document, held to the piece, when the piece starts at `base`.
pub open spec fn cut_of(piece: Piece, base: int, offset: int) -> int {
    if offset <= base {
        piece.offset as int
    } else if offset - base >= piece.length {
        piece.offset + piece.length
    } else {
        piece.offset + (offset - base)
    }
}

/// The line starts of a piece at or before `offset` are those of its marks
/// that lie before the place of `offset` in the piece.
pub proof fn lemma_piece_lines(marks: Seq<usize>, piece: Piece, base: int, offset: int)
    requires
        0 <= base,
    ensures
        lines_upto(piece_line_starts(marks, piece, base), offset) == marks_within(
            marks,
            piece.offset as int,
            cut_of(piece, base, offset),
        ).len(),
        last_start(piece_line_starts(marks, piece, base), offset) == if marks_within(
            marks,
            piece.offset as int,
            cut_of(piece, base, offset),
        ).len() > 0 {
            base + greatest(marks_within(marks, piece.offset as int, cut_of(piece, base, offset)))
                - piece.offset + 1
        } else {
            0
        },
        marks_within(marks, piece.offset as int, cut_of(piece, base, offset)).len() > 0
            ==> piece.offset <= greatest(
            marks_within(marks, piece.offset as int, cut_of(piece, base, offset)),
        ) < cut_of(piece, base, offset),
    decreases marks.len(),
{
    let lo = piece.offset as int;
    let hi = piece.offset + piece.length;
    let cut = cut_of(piece, base, offset);
    let own = piece_line_starts(marks, piece, base);
    if marks.len() == 0 {
        assert(own =~= Seq::<int>::empty());
    } else {
        let init = marks.drop_last();
        let mark = marks.last();
        let earlier = piece_line_starts(init, piece, base);
        let within = marks_within(init, lo, cut);
        lemma_piece_lines(init, piece, base, offset);
        if marked(mark, lo, hi) {
            let start = base + (mark - piece.offset) + 1;
            assert(own =~= earlier.push(start));
            assert(own.drop_last() =~= earlier);
            assert(own.last() == start);
            if marked(mark, lo, cut) {
                assert(start <= offset);
                assert(marks_within(marks, lo, cut) == within.push(mark));
                assert(within.push(mark).drop_last() =~= within);
                assert(within.push(mark).last() == mark);
                if within.len() == 0 {
                    assert(greatest(within) == 0);
                    assert(last_start(earlier, offset) == 0);
                }
            } else {
                assert(start > offset);
                assert(marks_within(marks, lo, cut) == within);
            }
        } else {
            assert(own =~= earlier);
            assert(marks_within(marks, lo, cut) == within);
        }
    }
}

/// Pieces that start at or after `offset` hold no line start at or before it.
pub proof fn lemma_lines_beyond(pieces: Seq<Piece>, marks: Marks, i: int, j: int, offset: int)
    requires
        0 <= i <= j <= pieces.len(),
        length_of(pieces.take(i)) >= offset,
    ensures
        lines_upto(line_starts_of(pieces.take(j), marks), offset) == lines_upto(
            line_starts_of(pieces.take(i), marks),
            offset,
        ),
        last_start(line_starts_of(pieces.take(j), marks), offset) == last_start(
            line_starts_of(pieces.take(i), marks),
            offset,
        ),
    decreases j - i,
{
    if i < j {
        lemma_lines_beyond(pieces, marks, i, j - 1, offset);
        lemma_lines_next(pieces, marks, j - 1);
        lemma_prefix_length(pieces, i, j - 1);
        let piece = pieces[j - 1];
        let base = length_of(pieces.take(j - 1)) as int;
        let earlier = line_starts_of(pieces.take(j - 1), marks);
        let own = piece_line_starts(marks.of(piece.source), piece, base);
        lemma_piece_lines(marks.of(piece.source), piece, base, offset);
        lemma_marks_within_none(marks.of(piece.source), piece.offset as int);
        lemma_lines_upto_concat(earlier, own, offset);
        lemma_last_start_concat(earlier, own, offset);
        lemma_last_start_not_negative(earlier, offset);
    }
}

/// An empty range holds no mark.
pub proof fn lemma_marks_within_none(marks: Seq<usize>, lo: int)
    ensures
        marks_within(marks, lo, lo).len() == 0,
    decreases marks.len(),
{
    if marks.len() > 0 {
        lemma_marks_within_none(marks.drop_last(), lo);
    }
}

/// Every line start lies after the start of the document and no further than
/// the pieces reach.
pub proof fn lemma_line_starts_positive(pieces: Seq<Piece>, marks: Marks)
    ensures
        forall|k: int|
            0 <= k < line_starts_of(pieces, marks).len() ==> 0 < #[trigger] line_starts_of(
                pieces,
                marks,
            )[k] <= length_of(pieces),
    decreases pieces.len(),
{
    if pieces.len() > 0 {
        let init = pieces.drop_last();
        let piece = pieces.last();
        lemma_line_starts_positive(init, marks);
        let earlier = line_starts_of(init, marks);
        let own = piece_line_starts(marks.of(piece.source), piece, length_of(init) as int);
        assert forall|k: int| 0 <= k < line_starts_of(pieces, marks).len() implies 0
            < #[trigger] line_starts_of(pieces, marks)[k] <= length_of(pieces) by {
            if k >= earlier.len() {
                lemma_marks_within_entries(
                    marks.of(piece.source),
                    piece.offset as int,
                    piece.offset + piece.length,
                    k - earlier.len(),
                );
                assert(line_starts_of(pieces, marks)[k] == own[k - earlier.len()]);
            } else {
                assert(line_starts_of(pieces, marks)[k] == earlier[k]);
            }
        }
    }
}

/// A prefix of the pieces covers no more table entries than all of them.
pub proof fn lemma_line_count_prefix(pieces: Seq<Piece>, marks: Marks, i: int)
    requires
        0 <= i <= pieces.len(),
    ensures
        line_count_of(pieces.take(i), marks) <= line_count_of(pieces, marks),
    decreases pieces.len() - i,
{
    if i == pieces.len() {
        assert(pieces.take(i) =~= pieces);
    } else {
        lemma_line_count_prefix(pieces, marks, i + 1);
        lemma_lines_next(pieces, marks, i);
    }
}

/// The entries of two tables joined that lie in a range are those of the one
/// and those of the other.
pub proof fn lemma_count_within_concat(a: Seq<usize>, b: Seq<usize>, lo: int, hi: int)
    ensures
        count_within(a + b, lo, hi) == count_within(a, lo, hi) + count_within(b, lo, hi),
    decreases b.len(),
{
    if b.len() == 0 {
        assert(a + b =~= a);
    } else {
        lemma_count_within_concat(a, b.drop_last(), lo, hi);
        assert((a + b).drop_last() =~= a + b.drop_last());
    }
}

/// Where no entry of the table reaches `bound`, a range that ends at or
/// after `bound` holds what the range that ends at `bound` holds.
pub proof fn lemma_count_within_bound(marks: Seq<usize>, lo: int, hi: int, bound: int)
    requires
        bound <= hi,
        forall|k: int| 0 <= k < marks.len() ==> #[trigger] marks[k] < bound,
    ensures
        count_within(marks, lo, hi) == count_within(marks, lo, bound),
    decreases marks.len(),
{
    if marks.len() > 0 {
        assert forall|k: int| 0 <= k < marks.drop_last().len() implies #[trigger] marks.drop_last()[k]
            < bound by {
            assert(marks.drop_last()[k] == marks[k]);
        }
        lemma_count_within_bound(marks.drop_last(), lo, hi, bound);
        assert(marks.last() == marks[marks.len() - 1]);
    }
}

/// The table of a text's line feeds holds, in a range of the text, as many
/// entries as the range holds line feeds.
pub proof fn lemma_feeds_count(text: Seq<u8>, lo: int, hi: int)
    requires
        0 <= lo <= hi <= text.len() <= usize::MAX,
    ensures
        count_within(feeds(text), lo, hi) == count_feeds(text.subrange(lo, hi)),
    decreases text.len(),
{
    if text.len() == 0 {
        assert(text.subrange(lo, hi) =~= Seq::<u8>::empty());
    } else {
        let init = text.drop_last();
        let end = text.len() - 1;
        assert forall|k: int| 0 <= k < feeds(init).len() implies #[trigger] feeds(init)[k]
            < end by {
            lemma_feeds_sound(init, k);
        }
        let found = feeds(init);
        if text.last() == LF {
            assert(feeds(text) == found.push(end as usize));
            assert(found.push(end as usize).drop_last() =~= found);
            assert(found.push(end as usize).last() == end);
        }
        if hi <= end {
            lemma_feeds_count(init, lo, hi);
            assert(text.subrange(lo, hi) =~= init.subrange(lo, hi));
        } else if lo <= end {
            lemma_feeds_count(init, lo, end);
            lemma_count_within_bound(found, lo, hi, end);
            assert(text.subrange(lo, hi).drop_last() =~= init.subrange(lo, end));
            assert(text.subrange(lo, hi).last() == text.last());
        } else {
            lemma_count_within_none(feeds(text), lo, hi);
            assert(text.subrange(lo, hi) =~= Seq::<u8>::empty());
        }
    }
}

/// A range that ends where it starts, or before, holds no entry.
pub proof fn lemma_count_within_none(marks: Seq<usize>, lo: int, hi: int)
    requires
        hi <= lo,
    ensures
        count_within(marks, lo, hi) == 0,
    decreases marks.len(),
{
    if marks.len() > 0 {
        lemma_count_within_none(marks.drop_last(), lo, hi);
    }
}

/// In ascending tables the line starts of the pieces grow strictly.
pub proof fn lemma_line_starts_grow(pieces: Seq<Piece>, marks: Marks, a: int, b: int)
    requires
        ascending(marks.data),
        ascending(marks.add),
        0 <= a < b < line_starts_of(pieces, marks).len(),
    ensures
        line_starts_of(pieces, marks)[a] < line_starts_of(pieces, marks)[b],
    decreases pieces.len(),
{
    if pieces.len() > 0 {
        let init = pieces.drop_last();
        let piece = pieces.last();
        let table = marks.of(piece.source);
        let earlier = line_starts_of(init, marks);
        let own = piece_line_starts(table, piece, length_of(init) as int);
        assert(ascending(table));
        if b < earlier.len() {
            lemma_line_starts_grow(init, marks, a, b);
        } else if a >= earlier.len() {
            lemma_marks_within_grow(
                table,
                piece.offset as int,
                piece.offset + piece.length,
                a - earlier.len(),
                b - earlier.len(),
            );
        } else {
            lemma_line_starts_positive(init, marks);
            lemma_marks_within_entries(
                table,
                piece.offset as int,
                piece.offset + piece.length,
                b - earlier.len(),
            );
            assert(line_starts_of(pieces, marks)[a] == earlier[a]);
            assert(line_starts_of(pieces, marks)[b] == own[b - earlier.len()]);
        }
    }
}

/// Line starts that grow strictly from above 0 fall into those at or before
/// `offset`, which come first, and those after it.
pub proof fn lemma_lines_sorted(starts: Seq<int>, offset: int)
    requires
        forall|k: int| 0 <= k < starts.len() ==> 0 < #[trigger] starts[k],
        forall|a: int, b: int| 0 <= a < b < starts.len() ==> starts[a] < starts[b],
    ensures
        lines_upto(starts, offset) <= starts.len(),
        forall|k: int| 0 <= k < lines_upto(starts, offset) ==> #[trigger] starts[k] <= offset,
        forall|k: int| lines_upto(starts, offset) <= k < starts.len() ==> #[trigger] starts[k] > offset,
        forall|k: int| 0 <= k < starts.len() ==> #[trigger] starts[k] > k,
        lines_upto(starts, offset) > 0 ==> last_start(starts, offset) == starts[lines_upto(
            starts,
            offset,
        ) - 1],
        lines_upto(starts, offset) == 0 ==> last_start(starts, offset) == 0,
    decreases starts.len(),
{
    if starts.len() > 0 {
        let init = starts.drop_last();
        let end = starts.len() - 1;
        assert forall|k: int| 0 <= k < init.len() implies 0 < #[trigger] init[k] by {
            assert(init[k] == starts[k]);
        }
        assert forall|a: int, b: int| 0 <= a < b < init.len() implies init[a] < init[b] by {
            assert(init[a] == starts[a] && init[b] == starts[b]);
        }
        lemma_lines_sorted(init, offset);
        assert(starts.last() == starts[end]);
        assert forall|k: int| 0 <= k < starts.len() implies #[trigger] starts[k] > k by {
            if k < end {
                assert(init[k] == starts[k]);
            } else if end > 0 {
                assert(init[end - 1] == starts[end - 1]);
                assert(starts[end - 1] < starts[end]);
            }
        }
        let before = lines_upto(init, offset) as int;
        if starts[end] <= offset {
            assert(before == end) by {
                if before < end {
                    assert(init[before] > offset);
                    assert(init[before] == starts[before]);
                    assert(starts[before] < starts[end]);
                }
            }
            assert forall|k: int| 0 <= k < lines_upto(starts, offset) implies #[trigger] starts[k]
                <= offset by {
                if k < end {
                    assert(init[k] == starts[k]);
                }
            }
            if before > 0 {
                assert(init[before - 1] == starts[before - 1]);
                assert(starts[before - 1] < starts[end]);
            }
        } else {
            assert forall|k: int| 0 <= k < lines_upto(starts, offset) implies #[trigger] starts[k]
                <= offset by {
                assert(init[k] == starts[k]);
            }
            assert forall|k: int| lines_upto(starts, offset) <= k < starts.len() implies #[trigger] starts[k]
                > offset by {
                if k < end {
                    assert(init[k] == starts[k]);
                }
            }
            if before > 0 {
                assert(init[before - 1] == starts[before - 1]);
            }
        }
    }
}

/// The marks of two tables joined that start a line in a range are those of
/// the one and those of the other.
pub proof fn lemma_marks_within_concat(a: Seq<usize>, b: Seq<usize>, lo: int, hi: int)
    ensures
        marks_within(a + b, lo, hi) == marks_within(a, lo, hi) + marks_within(b, lo, hi),
    decreases b.len(),
{
    if b.len() == 0 {
        assert(a + b =~= a);
        assert(marks_within(a, lo, hi) + marks_within(b, lo, hi) =~= marks_within(a, lo, hi));
    } else {
        lemma_marks_within_concat(a, b.drop_last(), lo, hi);
        assert((a + b).drop_last() =~= a + b.drop_last());
        assert(marks_within(a + b, lo, hi) =~= marks_within(a, lo, hi) + marks_within(b, lo, hi));
    }
}

/// Where no mark of the table reaches `bound`, a range that ends at or
/// after `bound` holds the marks that the range that ends at `bound` holds.
pub proof fn lemma_marks_within_bound(marks: Seq<usize>, lo: int, hi: int, bound: int)
    requires
        bound <= hi,
        forall|k: int| 0 <= k < marks.len() ==> #[trigger] marks[k] < bound,
    ensures
        marks_within(marks, lo, hi) == marks_within(marks, lo, bound),
    decreases marks.len(),
{
    if marks.len() > 0 {
        assert forall|k: int| 0 <= k < marks.drop_last().len() implies #[trigger] marks.drop_last()[k]
            < bound by {
            assert(marks.drop_last()[k] == marks[k]);
        }
        lemma_marks_within_bound(marks.drop_last(), lo, hi, bound);
        assert(marks.last() == marks[marks.len() - 1]);
    }
}

/// The table of the line feeds of a text that does not start with one marks,
/// in a range of the text, where the lines of the range start.
pub proof fn lemma_feeds_lines(text: Seq<u8>, lo: int, hi: int)
    requires
        0 <= lo <= hi <= text.len() <= usize::MAX,
        text.len() > 0 ==> text[0] != LF,
    ensures
        marks_within(feeds(text), lo, hi).len() == line_ends(text.subrange(lo, hi)).len(),
        forall|k: int|
            0 <= k < marks_within(feeds(text), lo, hi).len() ==> #[trigger] marks_within(
                feeds(text),
                lo,
                hi,
            )[k] - lo + 1 == line_ends(text.subrange(lo, hi))[k],
    decreases text.len(),
{
    if text.len() == 0 {
        assert(text.subrange(lo, hi) =~= Seq::<u8>::empty());
    } else {
        let init = text.drop_last();
        let end = text.len() - 1;
        let found = feeds(init);
        assert forall|k: int| 0 <= k < found.len() implies #[trigger] found[k] < end by {
            lemma_feeds_sound(init, k);
        }
        if init.len() > 0 {
            assert(init[0] == text[0]);
        }
        if text.last() == LF {
            assert(feeds(text) == found.push(end as usize));
            assert(found.push(end as usize).drop_last() =~= found);
            assert(found.push(end as usize).last() == end);
            assert(end != 0);
        }
        if hi <= end {
            lemma_feeds_lines(init, lo, hi);
            assert(text.subrange(lo, hi) =~= init.subrange(lo, hi));
        } else if lo <= end {
            lemma_feeds_lines(init, lo, end);
            lemma_marks_within_bound(found, lo, hi, end);
            assert(text.subrange(lo, hi).drop_last() =~= init.subrange(lo, end));
            assert(text.subrange(lo, hi).last() == text.last());
        } else {
            lemma_marks_within_none(feeds(text), lo);
            assert(text.subrange(lo, hi) =~= Seq::<u8>::empty());
        }
    }
}

/// In tables that mark every line feed of stores that do not start with
/// one, the line starts of the pieces are the places after the line feeds of
/// the document.
pub proof fn lemma_lines_of_text(pieces: Seq<Piece>, stores: Stores, marks: Marks)
    requires
        pieces_fit(pieces, stores),
        stores.data.len() <= usize::MAX,
        stores.add.len() <= usize::MAX,
        stores.data.len() == 0 || (marks.data == seq![0usize] + feeds(stores.data)
            && stores.data[0] != LF),
        marks.add == feeds(stores.add),
        stores.add.len() > 0 ==> stores.add[0] != LF,
    ensures
        line_starts_of(pieces, marks) == line_ends(text_of(pieces, stores)),
    decreases pieces.len(),
{
    if pieces.len() > 0 {
        let init = pieces.drop_last();
        let piece = pieces.last();
        assert(pieces_fit(init, stores)) by {
            assert forall|i: int| 0 <= i < init.len() implies piece_fits(#[trigger] init[i], stores) by {
                assert(init[i] == pieces[i]);
            }
        }
        lemma_lines_of_text(init, stores, marks);
        lemma_text_len(init, stores);
        assert(piece_fits(piece, stores));
        let lo = piece.offset as int;
        let hi = piece.offset + piece.length;
        let base = length_of(init) as int;
        let store = stores.of(piece.source);
        let table = marks.of(piece.source);
        lemma_feeds_lines(store, lo, hi);
        assert(marks_within(table, lo, hi) == marks_within(feeds(store), lo, hi)) by {
            match piece.source {
                Source::Data => {
                    lemma_marks_within_concat(seq![0usize], feeds(store), lo, hi);
                    assert(seq![0usize].drop_last() =~= Seq::<usize>::empty());
                    assert(marks_within(Seq::<usize>::empty(), lo, hi) =~= Seq::<usize>::empty());
                    assert(marks_within(seq![0usize], lo, hi) =~= Seq::<usize>::empty());
                    assert(Seq::<usize>::empty() + marks_within(feeds(store), lo, hi)
                        =~= marks_within(feeds(store), lo, hi));
                },
                Source::Add => {},
            }
        }
        lemma_line_ends_concat(text_of(init, stores), piece_text(piece, stores));
        assert(piece_line_starts(table, piece, base) =~= moved(
            line_ends(piece_text(piece, stores)),
            base,
        ));
    }
}

} // verus!

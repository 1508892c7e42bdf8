//! What holds of every piece table, stated over its contracts.

use crate::document::{
    inserted, piece_fits, piece_text, pieces_fit, removed, text_of, Stores,
};
use crate::line_endings::{
    count_feeds, feeds, lemma_count_feeds_concat, lemma_feeds_append_break,
    lemma_feeds_append_plain, lemma_no_feed, line_ends, LF,
};
use crate::lines::{
    count_within, last_start, lemma_count_within_concat, lemma_feeds_count,
    lemma_line_starts_grow, lemma_line_starts_positive, lemma_lines_of_text, lemma_lines_sorted,
    line_count_of, lines_upto, Marks,
};
use crate::piece::{Piece, Source};
use crate::piece_table::{is_line_break, PieceTable};
use crate::position::Position;
use crate::search::lemma_found;
use vstd::prelude::*;

verus! {

/// One change to a text.
pub enum Edit {
    /// Put `text` in at `offset`.
    Insert { text: Seq<u8>, offset: usize },
    /// Take `count` bytes out at `offset`.
    Delete { offset: usize, count: usize },
}

impl Edit {
    /// The edit can be made to a growable string that holds `text`: its
    /// places lie in the text, and the text still fits the machine's word.
    pub open spec fn fits(self, text: Seq<u8>) -> bool {
        match self {
            Edit::Insert { text: more, offset } => offset <= text.len() && text.len() + more.len()
                <= usize::MAX,
            Edit::Delete { offset, count } => offset + count <= text.len(),
        }
    }

    /// What the edit makes of a growable string that holds `text`.
    pub open spec fn on_text(self, text: Seq<u8>) -> Seq<u8> {
        match self {
            Edit::Insert { text: more, offset } => inserted(text, more, offset as int),
            Edit::Delete { offset, count } => removed(text, offset as int, count as int),
        }
    }

    /// `after` is the table `before` after `insert` or `delete` has made the
    /// edit to it.
    pub open spec fn on_table(self, before: PieceTable, after: PieceTable) -> bool {
        match self {
            Edit::Insert { text, offset } => before.with_text(after, text, offset),
            Edit::Delete { offset, count } => before.without_text(after, offset, count),
        }
    }
}

/// Every edit fits the text that the edits before it have made of `text`.
pub open spec fn all_fit(text: Seq<u8>, edits: Seq<Edit>) -> bool
    decreases edits.len(),
{
    edits.len() > 0 ==> all_fit(text, edits.drop_last()) && edits.last().fits(
        replayed(text, edits.drop_last()),
    )
}

/// What a growable string that holds `text` holds after the edits, made in
/// order.
pub open spec fn replayed(text: Seq<u8>, edits: Seq<Edit>) -> Seq<u8>
    decreases edits.len(),
{
    if edits.len() == 0 {
        text
    } else {
        edits.last().on_text(replayed(text, edits.drop_last()))
    }
}

/// The tables are those that one table goes through under the edits: each
/// but the first is what `insert` or `delete` makes of the one before it.
pub open spec fn run(tables: Seq<PieceTable>, edits: Seq<Edit>) -> bool {
    &&& tables.len() == edits.len() + 1
    &&& tables[0].wf()
    &&& forall|i: int| 0 <= i < edits.len() ==> edits[i].on_table(tables[i], #[trigger] tables[i + 1])
}

/// Inserts and deletes that fit the document leave the table with the text
/// that a growable string holds after the same edits, and `get_bytes` from 0
/// to the end gives that text.
pub proof fn law_edits_replay(tables: Seq<PieceTable>, edits: Seq<Edit>)
    requires
        run(tables, edits),
        all_fit(tables[0]@, edits),
    ensures
        tables.last().wf(),
        tables.last()@ == replayed(tables[0]@, edits),
        tables.last().slice(0, None) == replayed(tables[0]@, edits),
    decreases edits.len(),
{
    if edits.len() > 0 {
        let n = edits.len() as int;
        let earlier = tables.drop_last();
        let edit = edits.last();
        assert(run(earlier, edits.drop_last())) by {
            assert(earlier[0] == tables[0]);
            assert forall|i: int| 0 <= i < edits.drop_last().len() implies edits.drop_last()[i].on_table(
                earlier[i],
                #[trigger] earlier[i + 1],
            ) by {
                assert(edits[i].on_table(tables[i], tables[i + 1]));
            }
        }
        assert(earlier[0] == tables[0]);
        law_edits_replay(earlier, edits.drop_last());
        let before = tables[n - 1];
        assert(earlier.last() == before);
        assert(edit.on_table(before, tables[n - 1 + 1]));
        before.lemma_empty();
        match edit {
            Edit::Insert { text, offset } => {
                if text.len() == 0 {
                    assert(inserted(before@, text, offset as int) =~= before@);
                } else if before@.len() == 0 {
                    assert(inserted(before@, text, offset as int) =~= text);
                }
            },
            Edit::Delete { offset, count } => {
                if count == 0 {
                    assert(removed(before@, offset as int, 0) =~= before@);
                }
            },
        }
    }
    let last = tables.last();
    assert(last.slice(0, None) =~= last@);
}

/// An insert of no text and a delete of no bytes leave the document as it
/// is, wherever they are made.
pub proof fn law_no_ops(table: PieceTable, offset: usize)
    ensures
        table.text_with(Seq::empty(), offset) == table@,
        table.text_without(offset, 0) == table@,
{
}

/// In every sound table each piece holds at least one byte and ends within
/// its store.
pub proof fn law_pieces_sound(table: PieceTable, i: int)
    requires
        table.wf(),
        0 <= i < table.pieces@.len(),
    ensures
        table.pieces@[i].length > 0,
        table.pieces@[i].offset + table.pieces@[i].length <= table.stores().of(
            table.pieces@[i].source,
        ).len(),
{
    assert(piece_fits(table.pieces@[i], table.stores()));
}

/// The position of an offset leads back to the offset.
pub proof fn law_offset_round_trip(table: PieceTable, offset: usize)
    requires
        table.wf(),
    ensures
        lines_upto(table.line_starts(), offset as int) <= offset,
        0 <= last_start(table.line_starts(), offset as int) <= offset,
        table.offset_of(table.position_of(offset)) == Some(offset),
{
    let starts = table.line_starts();
    lemma_line_starts_positive(table.pieces@, table.marks());
    assert forall|a: int, b: int| 0 <= a < b < starts.len() implies starts[a] < starts[b] by {
        lemma_line_starts_grow(table.pieces@, table.marks(), a, b);
    }
    lemma_lines_sorted(starts, offset as int);
    let lines = lines_upto(starts, offset as int) as int;
    if lines > 0 {
        assert(starts[lines - 1] > lines - 1);
    }
}

/// The offset of a position that the document holds leads back to the
/// position.
pub proof fn law_position_round_trip(table: PieceTable, position: Position)
    requires
        table.wf(),
        table.holds(position),
    ensures
        table.offset_of(position) is Some,
        table.position_of(table.offset_of(position).unwrap()) == position,
{
    let starts = table.line_starts();
    lemma_line_starts_positive(table.pieces@, table.marks());
    assert forall|a: int, b: int| 0 <= a < b < starts.len() implies starts[a] < starts[b] by {
        lemma_line_starts_grow(table.pieces@, table.marks(), a, b);
    }
    let offset = table.offset_of(position).unwrap() as int;
    lemma_lines_sorted(starts, offset);
    let lines = lines_upto(starts, offset) as int;
    let y = position.y as int;
    if lines < y {
        assert(starts[lines] > offset);
        if lines < y - 1 {
            assert(starts[lines] < starts[y - 1]);
        }
    }
    if lines > y {
        assert(starts[lines - 1] <= offset);
        if y < lines - 1 {
            assert(starts[y] < starts[lines - 1]);
        }
    }
}

/// Each range that `find` gives holds the text that was searched for, starts
/// no earlier than the search, and lies in the document.
pub proof fn law_found_holds(table: PieceTable, needle: Seq<u8>, offset: usize, all: bool, k: int)
    requires
        table.wf(),
        0 <= k < table.found(needle, offset, all).len(),
    ensures
        offset <= table.found(needle, offset, all)[k].0,
        table.found(needle, offset, all)[k].1 == table.found(needle, offset, all)[k].0
            + needle.len(),
        table.found(needle, offset, all)[k].1 <= table@.len(),
        table@.subrange(
            table.found(needle, offset, all)[k].0,
            table.found(needle, offset, all)[k].1,
        ) == needle,
{
    lemma_found(table.pieces@, table.stores(), needle, offset as int, all, k);
    table.lemma_empty();
}

/// How many of the pieces start where the first store starts: those that
/// cover the leading 0 of that store's mark table.
pub open spec fn first_pieces(pieces: Seq<Piece>) -> nat
    decreases pieces.len(),
{
    if pieces.len() == 0 {
        0
    } else if pieces.last().source == Source::Data && pieces.last().offset == 0 {
        first_pieces(pieces.drop_last()) + 1
    } else {
        first_pieces(pieces.drop_last())
    }
}

/// The pieces cover as many table entries as their text holds line feeds,
/// and one more for each piece that starts where the first store starts.
proof fn lemma_line_count(pieces: Seq<Piece>, stores: Stores, marks: Marks)
    requires
        pieces_fit(pieces, stores),
        stores.data.len() <= usize::MAX,
        stores.add.len() <= usize::MAX,
        stores.data.len() == 0 || marks.data == seq![0usize] + feeds(stores.data),
        marks.add == feeds(stores.add),
    ensures
        line_count_of(pieces, marks) == count_feeds(text_of(pieces, stores)) + first_pieces(pieces),
    decreases pieces.len(),
{
    if pieces.len() > 0 {
        let init = pieces.drop_last();
        let piece = pieces.last();
        assert(pieces_fit(init, stores)) by {
            assert forall|i: int| 0 <= i < init.len() implies piece_fits(#[trigger] init[i], stores) by {
                assert(init[i] == pieces[i]);
            }
        }
        lemma_line_count(init, stores, marks);
        assert(piece_fits(piece, stores));
        lemma_count_feeds_concat(text_of(init, stores), piece_text(piece, stores));
        let lo = piece.offset as int;
        let hi = piece.offset + piece.length;
        match piece.source {
            Source::Data => {
                lemma_count_within_concat(seq![0usize], feeds(stores.data), lo, hi);
                lemma_feeds_count(stores.data, lo, hi);
                assert(seq![0usize].drop_last() =~= Seq::<usize>::empty());
                assert(count_within(Seq::<usize>::empty(), lo, hi) == 0);
            },
            Source::Add => {
                lemma_feeds_count(stores.add, lo, hi);
            },
        }
    }
}

/// In a table whose mark tables hold every line feed of its stores,
/// `get_total_lines` counts the line feeds of the document, and one more for
/// each piece that starts where the first store starts.
pub proof fn law_line_count(table: PieceTable)
    requires
        table.wf(),
        table.indexed(),
    ensures
        table.line_count() == count_feeds(table@) + first_pieces(table.pieces@),
        first_pieces(table.pieces@) == 0 ==> table.line_count() == count_feeds(table@),
{
    assert(table.data@.len() == table.data.len());
    assert(table.add@.len() == table.add.len());
    lemma_line_count(table.pieces@, table.stores(), table.marks());
}

/// In a table whose mark tables hold every line feed of its stores, neither
/// of which starts with a line feed, the lines after the first one start at
/// the places after the line feeds of the document.
pub proof fn law_lines_of_text(table: PieceTable)
    requires
        table.wf(),
        table.indexed(),
        table.data@.len() > 0 ==> table.data@[0] != LF,
        table.add@.len() > 0 ==> table.add@[0] != LF,
    ensures
        table.line_starts() == line_ends(table@),
{
    assert(table.data@.len() == table.data.len());
    assert(table.add@.len() == table.add.len());
    lemma_lines_of_text(table.pieces@, table.stores(), table.marks());
}

/// The mark tables still hold every line feed of the stores after an insert
/// of the line break or of a text without line feeds, and the add store
/// still does not start with a line feed.
pub proof fn law_insert_keeps_index(
    before: PieceTable,
    after: PieceTable,
    text: Seq<u8>,
    offset: usize,
)
    requires
        before.wf(),
        before.indexed(),
        is_line_break(text) || count_feeds(text) == 0,
        before.with_text(after, text, offset),
    ensures
        after.indexed(),
        (before.add@.len() > 0 ==> before.add@[0] != LF) ==> (after.add@.len() > 0
            ==> after.add@[0] != LF),
{
    if before.takes(text) {
        if is_line_break(text) {
            lemma_feeds_append_break(before.add@);
        } else {
            lemma_feeds_append_plain(before.add@, text);
            lemma_no_feed(text, 0);
        }
    }
}

/// A delete leaves the stores and their mark tables as they are.
pub proof fn law_delete_keeps_index(
    before: PieceTable,
    after: PieceTable,
    offset: usize,
    count: usize,
)
    requires
        before.indexed(),
        before.without_text(after, offset, count),
    ensures
        after.indexed(),
        after.stores() == before.stores(),
        after.marks() == before.marks(),
{
}

} // verus!

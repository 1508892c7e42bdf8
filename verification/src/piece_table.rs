//! The piece table: a document kept as an ordered run of pieces over two
//! stores, one fixed at creation and one that only grows.

use crate::document::{
    extended, fresh_piece, inserted, kept, lemma_extended, lemma_grown_stores, lemma_inserted,
    lemma_kept, lemma_length_of_one, lemma_piece_range, lemma_prefix_length, lemma_removed,
    lemma_take_next, lemma_text_len, lemma_text_of_one, length_of, located, piece_fits,
    piece_text, pieces_fit, removed, start_of, text_of, with_piece, without, Stores,
};
use crate::line_endings::{feeds, lemma_feeds_grow, line_feeds, normalize, normalized, CR, LF};
use crate::lines::{
    ascending, count_and_greatest, count_entries, count_marks, cut_of, last_start,
    lemma_last_start_concat, lemma_line_count_prefix, lemma_lines_beyond, lemma_lines_next,
    lemma_lines_prefix, lemma_lines_upto_concat, lemma_marks_within_count,
    lemma_marks_within_entries, lemma_piece_lines, line_count_of, line_starts_of, lines_upto,
    nth_mark, piece_line_starts, Marks,
};
use crate::piece::{Piece, Source};
use crate::position::Position;
use crate::search::{bounds, collect_matches, found_of, searched};
use crate::text::{lossy_text, text_from_bytes};
use std::ops::Range;
use vstd::prelude::*;
use vstd::slice::slice_subrange;
use vstd::string::StringSliceAdditionalSpecFns;
use vstd::utf8::{decode_utf8, encode_utf8, valid_utf8};

verus! {

/// A document as pieces of two stores.
pub struct PieceTable {
    /// The text the table was created from, never changed afterwards.
    pub data: Vec<u8>,
    /// Every inserted text, in the order of insertion.
    pub add: Vec<u8>,
    /// The pieces whose bytes, joined in order, are the document.
    pub pieces: Vec<Piece>,
    /// Where the line feeds of `data` are, after a leading 0.
    pub line_starts_data: Vec<usize>,
    /// Where the line feeds of the line breaks inserted as such are in `add`.
    pub line_starts_add: Vec<usize>,
}

impl View for PieceTable {
    type V = Seq<u8>;

    /// The document.
    open spec fn view(&self) -> Seq<u8> {
        text_of(self.pieces@, self.stores())
    }
}

/// The text is the line break: a carriage return and a line feed.
pub open spec fn is_line_break(text: Seq<u8>) -> bool {
    text == seq![CR, LF]
}

/// The pieces `pieces[from..to]` replaced by `with`.
fn replace_pieces(pieces: &Vec<Piece>, from: usize, to: usize, with: &Vec<Piece>) -> (out: Vec<
    Piece,
>)
    requires
        from <= to <= pieces.len(),
    ensures
        out@ == pieces@.take(from as int) + with@ + pieces@.skip(to as int),
{
    let mut out: Vec<Piece> = Vec::new();
    let mut i: usize = 0;
    while i < from
        invariant
            i <= from <= pieces.len(),
            out@ == pieces@.take(i as int),
        decreases from - i,
    {
        out.push(pieces[i]);
        assert(pieces@.take(i + 1) =~= pieces@.take(i as int).push(pieces@[i as int]));
        i += 1;
    }
    let mut k: usize = 0;
    while k < with.len()
        invariant
            k <= with.len(),
            out@ == pieces@.take(from as int) + with@.take(k as int),
        decreases with.len() - k,
    {
        out.push(with[k]);
        assert(with@.take(k + 1) =~= with@.take(k as int).push(with@[k as int]));
        assert(pieces@.take(from as int) + with@.take(k + 1) =~= (pieces@.take(from as int)
            + with@.take(k as int)).push(with@[k as int]));
        k += 1;
    }
    assert(with@.take(with.len() as int) =~= with@);
    let mut j: usize = to;
    while j < pieces.len()
        invariant
            to <= j <= pieces.len(),
            out@ == pieces@.take(from as int) + with@ + pieces@.subrange(to as int, j as int),
        decreases pieces.len() - j,
    {
        out.push(pieces[j]);
        assert(pieces@.subrange(to as int, j + 1) =~= pieces@.subrange(to as int, j as int).push(
            pieces@[j as int],
        ));
        assert(pieces@.take(from as int) + with@ + pieces@.subrange(to as int, j + 1) =~= (
        pieces@.take(from as int) + with@ + pieces@.subrange(to as int, j as int)).push(
            pieces@[j as int],
        ));
        j += 1;
    }
    assert(pieces@.subrange(to as int, pieces.len() as int) =~= pieces@.skip(to as int));
    out
}

impl Default for PieceTable {
    /// The table of an empty document, with nothing in its stores and tables.
    fn default() -> (table: PieceTable)
        ensures
            table.wf(),
            table@ == Seq::<u8>::empty(),
            table.data@ == Seq::<u8>::empty(),
            table.add@ == Seq::<u8>::empty(),
            table.pieces@ == Seq::<Piece>::empty(),
            table.line_starts_data@ == Seq::<usize>::empty(),
            table.line_starts_add@ == Seq::<usize>::empty(),
    {
        PieceTable {
            data: Vec::new(),
            add: Vec::new(),
            pieces: Vec::new(),
            line_starts_data: Vec::new(),
            line_starts_add: Vec::new(),
        }
    }
}

impl PieceTable {
    /// The two stores as sequences.
    pub open spec fn stores(&self) -> Stores {
        Stores { data: self.data@, add: self.add@ }
    }

    /// The two mark tables as sequences.
    pub open spec fn marks(&self) -> Marks {
        Marks { data: self.line_starts_data@, add: self.line_starts_add@ }
    }

    /// No piece is empty, none reaches past the end of its store, the
    /// document's length fits the machine's word, and both mark tables
    /// ascend, the add store's below that store's length.
    pub open spec fn wf(&self) -> bool {
        &&& pieces_fit(self.pieces@, self.stores())
        &&& length_of(self.pieces@) <= usize::MAX
        &&& ascending(self.line_starts_data@)
        &&& ascending(self.line_starts_add@)
        &&& forall|i: int|
            0 <= i < self.line_starts_add@.len() ==> #[trigger] self.line_starts_add@[i]
                < self.add@.len()
    }

    /// The mark tables hold every line feed of their stores: the first one
    /// after its leading 0, unless that store is empty.
    pub open spec fn indexed(&self) -> bool {
        &&& self.data@.len() == 0 || self.line_starts_data@ == seq![0usize] + feeds(self.data@)
        &&& self.line_starts_add@ == feeds(self.add@)
    }

    /// The offset in the document at which piece `i` starts.
    pub open spec fn start_of(&self, i: int) -> nat {
        start_of(self.pieces@, i)
    }

    /// Piece `index` holds the place `offset` of the document, at the place
    /// `at` of its store: it is the first piece that ends at or after
    /// `offset`.
    pub open spec fn located(&self, offset: int, index: int, at: int) -> bool {
        located(self.pieces@, offset, index, at)
    }

    /// The offsets at which the lines after the first one start.
    pub open spec fn line_starts(&self) -> Seq<int> {
        line_starts_of(self.pieces@, self.marks())
    }

    /// The offset at which line `y` starts, for a line that the document has.
    pub open spec fn line_start(&self, y: int) -> int {
        if y == 0 {
            0
        } else {
            self.line_starts()[y - 1]
        }
    }

    /// The document holds the position: it has the line, the machine's word
    /// can hold the position's offset, and the column does not reach the
    /// next line.
    pub open spec fn holds(&self, position: Position) -> bool {
        &&& position.y <= self.line_starts().len()
        &&& self.line_start(position.y as int) + position.x <= usize::MAX
        &&& position.y < self.line_starts().len() ==> self.line_start(position.y as int)
            + position.x < self.line_starts()[position.y as int]
    }

    /// The offset of a position: the column itself on the first line, the
    /// column added to the line's start on a later line that the document
    /// has, nothing on a line that it lacks or where the machine's word
    /// cannot hold the sum.
    pub open spec fn offset_of(&self, position: Position) -> Option<usize> {
        let starts = self.line_starts();
        if position.y == 0 {
            Some(position.x)
        } else if position.y <= starts.len() && starts[position.y - 1] + position.x <= usize::MAX {
            Some((starts[position.y - 1] + position.x) as usize)
        } else {
            None
        }
    }

    /// The position of an offset: the number of line starts at or before it,
    /// and its distance from the latest of them, or from the start of the
    /// document where there is none.
    pub open spec fn position_of(&self, offset: usize) -> Position {
        Position {
            x: (offset - last_start(self.line_starts(), offset as int)) as usize,
            y: lines_upto(self.line_starts(), offset as int) as usize,
        }
    }

    /// The number of entries of the mark tables that the pieces cover.
    pub open spec fn line_count(&self) -> nat {
        line_count_of(self.pieces@, self.marks())
    }

    /// The part of the document from `offset` to `until`, or to the end
    /// where `until` is absent. Both ends are held to the document, and an
    /// end before the start gives nothing.
    pub open spec fn slice(&self, offset: usize, until: Option<usize>) -> Seq<u8> {
        let len = self@.len() as int;
        let from = if offset <= len {
            offset as int
        } else {
            len
        };
        let to = match until {
            Some(end) => if end <= from {
                from
            } else if end <= len {
                end as int
            } else {
                len
            },
            None => len,
        };
        self@.subrange(from, to)
    }

    /// The ranges of the document in which a search from `offset` finds
    /// `needle`, piece by piece.
    pub open spec fn found(&self, needle: Seq<u8>, offset: usize, all: bool) -> Seq<(int, int)> {
        found_of(self.pieces@, self.stores(), needle, offset as int, all)
    }

    /// The table takes a text that is not empty and with which the document
    /// still fits the machine's word.
    pub open spec fn takes(&self, text: Seq<u8>) -> bool {
        text.len() > 0 && self@.len() + text.len() <= usize::MAX
    }

    /// The document after `insert` of `text` at `offset`: the text itself
    /// where the document was empty, the document with the text at `offset`
    /// where it has that place, and the document as it was where it does not
    /// take the text or lacks the place.
    pub open spec fn text_with(&self, text: Seq<u8>, offset: usize) -> Seq<u8> {
        if !self.takes(text) {
            self@
        } else if self@.len() == 0 {
            text
        } else if offset <= self@.len() {
            inserted(self@, text, offset as int)
        } else {
            self@
        }
    }

    /// The add store's mark table after `insert` of `text`: with the place of
    /// the text's line feed where the text is the line break and is taken.
    pub open spec fn marks_with(&self, text: Seq<u8>) -> Seq<usize> {
        if self.takes(text) && is_line_break(text) {
            self.line_starts_add@.push((self.add@.len() + 1) as usize)
        } else {
            self.line_starts_add@
        }
    }

    /// What `insert` makes of the pieces when the text, `length` bytes long,
    /// goes to the place `at` of the store of piece `index`: the piece grows
    /// when it ends the add store and the text is put at its end, and it is
    /// split around a piece for the text otherwise.
    pub open spec fn pieces_with(&self, index: int, at: int, length: int) -> Seq<Piece> {
        let piece = self.pieces@[index];
        if piece.source == Source::Add && at == piece.offset + piece.length && at
            == self.add@.len() {
            self.pieces@.update(index, extended(piece, length))
        } else {
            with_piece(
                self.pieces@,
                index,
                at - piece.offset,
                fresh_piece(self.add@.len() as int, length),
            )
        }
    }

    /// The document after `delete` of `count` bytes at `offset`: without them
    /// where it holds them all, and as it was where it does not.
    pub open spec fn text_without(&self, offset: usize, count: usize) -> Seq<u8> {
        if count > 0 && offset + count <= self@.len() {
            removed(self@, offset as int, count as int)
        } else {
            self@
        }
    }

    /// What `delete` leaves of the pieces when its range starts in piece
    /// `first`, at the store's place `first_at`, and ends in piece `last`, at
    /// the store's place `last_at`.
    pub open spec fn pieces_without(
        &self,
        first: int,
        first_at: int,
        last: int,
        last_at: int,
    ) -> Seq<Piece> {
        without(
            self.pieces@,
            first,
            first_at - self.pieces@[first].offset,
            last,
            last_at - self.pieces@[last].offset,
        )
    }

    /// The table is one that `from_string` makes of `text`: sound, with the
    /// text's bytes as the first store, their line feeds marked after a
    /// leading 0, nothing in the add store, and one piece for the whole of
    /// the first store, or none where the text is empty.
    pub open spec fn founded(&self, text: Seq<char>) -> bool {
        &&& self.wf()
        &&& self.data@ == normalized(encode_utf8(text))
        &&& self@ == self.data@
        &&& self.add@ == Seq::<u8>::empty()
        &&& self.pieces@ == kept(
            Piece { source: Source::Data, offset: 0, length: self.data@.len() as usize },
        )
        &&& self.line_starts_data@ == seq![0usize] + feeds(self.data@)
        &&& self.line_starts_add@ == Seq::<usize>::empty()
        &&& self.indexed()
    }

    /// `after` is this table after `insert` of `text` at `offset`. The first
    /// store and its marks stay. A text that the table takes is appended to
    /// the add store, and marked there where it is the line break; it forms
    /// the only piece of an empty document, is put into the piece that holds
    /// the offset, and reaches no piece where the offset lies past the end of
    /// the document.
    pub open spec fn with_text(&self, after: PieceTable, text: Seq<u8>, offset: usize) -> bool {
        &&& after.wf()
        &&& after.data@ == self.data@
        &&& after.line_starts_data@ == self.line_starts_data@
        &&& after@ == self.text_with(text, offset)
        &&& after.add@ == if self.takes(text) {
            self.add@ + text
        } else {
            self.add@
        }
        &&& after.line_starts_add@ == self.marks_with(text)
        &&& !self.takes(text) || 0 < self@.len() < offset ==> after.pieces@ == self.pieces@
        &&& self.takes(text) && self@.len() == 0 ==> after.pieces@ == seq![
            fresh_piece(self.add@.len() as int, text.len() as int),
        ]
        &&& self.takes(text) ==> forall|index: int, at: int|
            self.located(offset as int, index, at) ==> after.pieces@ == self.pieces_with(
                index,
                at,
                text.len() as int,
            )
    }

    /// `after` is this table after `delete` of `count` bytes at `offset`.
    /// The stores and their marks stay. Where the document holds the bytes,
    /// the pieces are those that the range leaves; where it does not, they
    /// stay as well.
    pub open spec fn without_text(&self, after: PieceTable, offset: usize, count: usize) -> bool {
        &&& after.wf()
        &&& after.data@ == self.data@
        &&& after.add@ == self.add@
        &&& after.line_starts_data@ == self.line_starts_data@
        &&& after.line_starts_add@ == self.line_starts_add@
        &&& after@ == self.text_without(offset, count)
        &&& count == 0 || offset + count > self@.len() ==> after.pieces@ == self.pieces@
        &&& count > 0 && offset + count <= self@.len() ==> forall|
            first: int,
            first_at: int,
            last: int,
            last_at: int,
        |
            #[trigger] self.located(offset as int, first, first_at) && #[trigger] self.located(
                offset + count,
                last,
                last_at,
            ) ==> after.pieces@ == self.pieces_without(first, first_at, last, last_at)
    }

    /// An empty document has no pieces, and a document with pieces is not
    /// empty.
    pub proof fn lemma_empty(&self)
        requires
            self.wf(),
        ensures
            self@.len() == length_of(self.pieces@),
            self@.len() == 0 <==> self.pieces@.len() == 0,
    {
        lemma_text_len(self.pieces@, self.stores());
        if self.pieces@.len() > 0 {
            assert(piece_fits(self.pieces@[0], self.stores()));
            lemma_prefix_length(self.pieces@, 1, self.pieces@.len() as int);
            lemma_take_next(self.pieces@, self.stores(), 0);
            assert(self.pieces@.take(0) =~= Seq::<Piece>::empty());
        }
    }

    /// Two pieces cannot both hold the same place of the document.
    pub proof fn lemma_located_once(&self, offset: int, i: int, at: int, j: int, other: int)
        requires
            self.located(offset, i, at),
            self.located(offset, j, other),
        ensures
            i == j,
            at == other,
    {
        if i < j {
            assert(self.start_of(i + 1) < offset);
        }
        if j < i {
            assert(self.start_of(j + 1) < offset);
        }
    }

    /// No piece holds a place past the end of the document.
    pub proof fn lemma_located_inside(&self, offset: int, index: int, at: int)
        requires
            self.wf(),
            self.located(offset, index, at),
        ensures
            offset <= self@.len(),
            self.pieces@[index].offset <= at <= self.pieces@[index].offset
                + self.pieces@[index].length,
    {
        lemma_text_len(self.pieces@, self.stores());
        lemma_prefix_length(self.pieces@, index + 1, self.pieces@.len() as int);
        lemma_take_next(self.pieces@, self.stores(), index);
    }

    /// A table for the text `data`. Where `data` holds no line break, each of
    /// its line feeds gets a carriage return before it. The document is that
    /// text, in one piece.
    pub fn from_string(data: String) -> (table: PieceTable)
        ensures
            table.founded(data@),
    {
        let text = normalize(data.as_str().as_bytes());
        let marks = line_feeds(text.as_slice());
        let length = text.len();
        let whole = Piece::new(Source::Data, 0, length);
        let mut pieces: Vec<Piece> = Vec::new();
        if length > 0 {
            pieces.push(whole);
        }
        let table = PieceTable {
            data: text,
            add: Vec::new(),
            pieces,
            line_starts_data: marks,
            line_starts_add: Vec::new(),
        };
        proof {
            assert(table.pieces@ =~= kept(whole));
            lemma_kept(whole, table.stores());
            assert(piece_text(whole, table.stores()) =~= table.data@);
            let found = table.line_starts_data@;
            assert forall|i: int, j: int|
                0 <= i < j < found.len() && found[j] != 0 implies found[i] < found[j] by {
                if i > 0 {
                    lemma_feeds_grow(table.data@, i - 1, j - 1);
                }
            }
        }
        table
    }

    /// The number of bytes in the document.
    pub fn len(&self) -> (length: usize)
        requires
            self.wf(),
        ensures
            length == self@.len(),
    {
        let mut length: usize = 0;
        let mut idx: usize = 0;
        proof {
            lemma_text_len(self.pieces@, self.stores());
            assert(self.pieces@.take(self.pieces@.len() as int) =~= self.pieces@);
        }
        while idx < self.pieces.len()
            invariant
                self.wf(),
                idx <= self.pieces.len(),
                length == self.start_of(idx as int),
            decreases self.pieces.len() - idx,
        {
            proof {
                lemma_take_next(self.pieces@, self.stores(), idx as int);
                lemma_prefix_length(self.pieces@, idx + 1, self.pieces@.len() as int);
            }
            length += self.pieces[idx].length;
            idx += 1;
        }
        length
    }

    /// Find the piece that holds the offset, with the offset's place in that
    /// piece's store. An offset at which one piece ends and the next begins
    /// belongs to the piece that ends there.
    pub fn find_piece_from_offset(&self, offset: usize) -> (found: Option<(usize, usize)>)
        requires
            self.wf(),
        ensures
            found is None <==> self.pieces@.len() == 0 || offset > self@.len(),
            found matches Some((index, at)) ==> self.located(offset as int, index as int, at as int),
    {
        let mut remaining = offset;
        let mut idx: usize = 0;
        proof {
            lemma_text_len(self.pieces@, self.stores());
            assert(self.pieces@.take(self.pieces@.len() as int) =~= self.pieces@);
        }
        while idx < self.pieces.len()
            invariant
                self.wf(),
                self@.len() == length_of(self.pieces@),
                idx <= self.pieces.len(),
                remaining + self.start_of(idx as int) == offset,
                forall|k: int| 0 < k <= idx ==> #[trigger] start_of(self.pieces@, k) < offset,
            decreases self.pieces.len() - idx,
        {
            let piece = self.pieces[idx];
            proof {
                lemma_take_next(self.pieces@, self.stores(), idx as int);
                lemma_prefix_length(self.pieces@, idx as int, idx + 1);
                assert(piece_fits(piece, self.stores()));
            }
            if remaining <= piece.length {
                proof {
                    lemma_prefix_length(self.pieces@, idx + 1, self.pieces@.len() as int);
                }
                return Some((idx, piece.offset + remaining));
            }
            remaining -= piece.length;
            idx += 1;
        }
        proof {
            if self.pieces@.len() > 0 {
                assert(self.start_of(self.pieces@.len() as int) < offset);
            }
        }
        None
    }

    /// The mark table of one store.
    fn marks_of(&self, source: Source) -> (marks: &Vec<usize>)
        ensures
            marks@ == self.marks().of(source),
    {
        match source {
            Source::Data => &self.line_starts_data,
            Source::Add => &self.line_starts_add,
        }
    }

    /// The offset in the document of the column `position.x` of the line
    /// `position.y`. Lines are counted by the marks of the pieces; the column
    /// is not held against the line's length.
    pub fn get_offset_from_position(&self, position: &Position) -> (offset: Option<usize>)
        requires
            self.wf(),
        ensures
            offset == self.offset_of(*position),
    {
        if position.y == 0 {
            return Some(position.x);
        }
        let mut consumed: usize = 0;
        let mut y = position.y;
        let mut idx: usize = 0;
        proof {
            assert(self.pieces@.take(0) =~= Seq::<Piece>::empty());
            assert(self.pieces@.take(self.pieces@.len() as int) =~= self.pieces@);
        }
        while idx < self.pieces.len()
            invariant
                self.wf(),
                idx <= self.pieces.len(),
                consumed == start_of(self.pieces@, idx as int),
                1 <= y,
                line_starts_of(self.pieces@.take(idx as int), self.marks()).len() + y
                    == position.y,
            decreases self.pieces.len() - idx,
        {
            let piece = self.pieces[idx];
            let marks = self.marks_of(piece.source);
            proof {
                assert(piece_fits(piece, self.stores()));
                lemma_take_next(self.pieces@, self.stores(), idx as int);
                lemma_prefix_length(self.pieces@, idx + 1, self.pieces@.len() as int);
                lemma_lines_next(self.pieces@, self.marks(), idx as int);
                lemma_lines_prefix(self.pieces@, self.marks(), idx + 1);
            }
            let end = piece.offset + piece.length;
            let count = count_marks(marks, piece.offset, end);
            if y <= count {
                match nth_mark(marks, piece.offset, end, y - 1) {
                    Some(mark) => {
                        proof {
                            lemma_marks_within_entries(
                                marks@,
                                piece.offset as int,
                                end as int,
                                y - 1,
                            );
                            let part = line_starts_of(self.pieces@.take(idx as int), self.marks());
                            let more = line_starts_of(self.pieces@.take(idx + 1), self.marks());
                            let own = piece_line_starts(marks@, piece, consumed as int);
                            assert(more[position.y - 1] == own[y - 1]);
                            assert(self.line_starts().take(more.len() as int)[position.y - 1]
                                == self.line_starts()[position.y - 1]);
                        }
                        let start = consumed + (mark - piece.offset) + 1;
                        return start.checked_add(position.x);
                    },
                    None => {
                        return None;
                    },
                }
            }
            consumed += piece.length;
            y -= count;
            idx += 1;
        }
        None
    }

    /// The line and the column of the place `offset`. A place past the end of
    /// the document is taken to lie on the last line.
    pub fn get_position_from_offset(&self, offset: usize) -> (position: Position)
        requires
            self.wf(),
        ensures
            position == self.position_of(offset),
            lines_upto(self.line_starts(), offset as int) <= offset,
            0 <= last_start(self.line_starts(), offset as int) <= offset,
    {
        let mut consumed: usize = 0;
        let mut lines: usize = 0;
        let mut latest: usize = 0;
        let mut idx: usize = 0;
        proof {
            assert(self.pieces@.take(0) =~= Seq::<Piece>::empty());
            assert(self.pieces@.take(self.pieces@.len() as int) =~= self.pieces@);
        }
        while idx < self.pieces.len() && consumed < offset
            invariant
                self.wf(),
                idx <= self.pieces.len(),
                consumed == start_of(self.pieces@, idx as int),
                lines == lines_upto(
                    line_starts_of(self.pieces@.take(idx as int), self.marks()),
                    offset as int,
                ),
                latest == last_start(
                    line_starts_of(self.pieces@.take(idx as int), self.marks()),
                    offset as int,
                ),
                lines <= consumed,
                lines <= offset,
                latest <= consumed,
                latest <= offset,
            decreases self.pieces.len() - idx,
        {
            let piece = self.pieces[idx];
            let marks = self.marks_of(piece.source);
            let reach = if offset - consumed < piece.length {
                offset - consumed
            } else {
                piece.length
            };
            proof {
                assert(piece_fits(piece, self.stores()));
                lemma_take_next(self.pieces@, self.stores(), idx as int);
                lemma_prefix_length(self.pieces@, idx + 1, self.pieces@.len() as int);
                lemma_lines_next(self.pieces@, self.marks(), idx as int);
                let earlier = line_starts_of(self.pieces@.take(idx as int), self.marks());
                let own = piece_line_starts(marks@, piece, consumed as int);
                assert(cut_of(piece, consumed as int, offset as int) == piece.offset + reach);
                lemma_piece_lines(marks@, piece, consumed as int, offset as int);
                lemma_lines_upto_concat(earlier, own, offset as int);
                lemma_last_start_concat(earlier, own, offset as int);
                lemma_marks_within_count(
                    marks@,
                    piece.offset as int,
                    piece.offset + reach,
                );
            }
            let (count, top) = count_and_greatest(marks, piece.offset, piece.offset + reach);
            if count > 0 {
                lines += count;
                latest = consumed + (top - piece.offset) + 1;
            }
            consumed += piece.length;
            idx += 1;
        }
        proof {
            if idx < self.pieces.len() {
                lemma_lines_beyond(
                    self.pieces@,
                    self.marks(),
                    idx as int,
                    self.pieces@.len() as int,
                    offset as int,
                );
            }
        }
        Position::new(offset - latest, lines)
    }

    /// The number of lines: the entries of the mark tables that the pieces
    /// cover, the leading 0 of the first table among them. A count that the
    /// machine's word cannot hold is given as the greatest that it can.
    pub fn get_total_lines(&self) -> (total: usize)
        requires
            self.wf(),
        ensures
            total == if self.line_count() <= usize::MAX {
                self.line_count()
            } else {
                usize::MAX as nat
            },
    {
        let mut total: usize = 0;
        let mut idx: usize = 0;
        proof {
            assert(self.pieces@.take(0) =~= Seq::<Piece>::empty());
            assert(self.pieces@.take(self.pieces@.len() as int) =~= self.pieces@);
        }
        while idx < self.pieces.len()
            invariant
                self.wf(),
                idx <= self.pieces.len(),
                total == line_count_of(self.pieces@.take(idx as int), self.marks()),
            decreases self.pieces.len() - idx,
        {
            let piece = self.pieces[idx];
            let marks = self.marks_of(piece.source);
            proof {
                assert(piece_fits(piece, self.stores()));
                lemma_lines_next(self.pieces@, self.marks(), idx as int);
                lemma_line_count_prefix(self.pieces@, self.marks(), idx + 1);
            }
            let count = count_entries(marks, piece.offset, piece.offset + piece.length);
            total = match total.checked_add(count) {
                Some(sum) => sum,
                None => {
                    return usize::MAX;
                },
            };
            idx += 1;
        }
        total
    }

    /// The bytes of the document from `offset` to `until_offset`, or to the
    /// end where `until_offset` is absent.
    pub fn get_bytes(&self, offset: usize, until_offset: Option<usize>) -> (bytes: Vec<u8>)
        requires
            self.wf(),
        ensures
            bytes@ == self.slice(offset, until_offset),
    {
        let until = match until_offset {
            Some(end) => if end < offset {
                offset
            } else {
                end
            },
            None => usize::MAX,
        };
        let mut bytes: Vec<u8> = Vec::new();
        let mut consumed: usize = 0;
        let mut idx: usize = 0;
        proof {
            lemma_text_len(self.pieces@, self.stores());
            assert(self.pieces@.take(0) =~= Seq::<Piece>::empty());
            assert(self.pieces@.take(self.pieces@.len() as int) =~= self.pieces@);
        }
        while idx < self.pieces.len() && consumed < until
            invariant
                self.wf(),
                self@.len() == length_of(self.pieces@),
                idx <= self.pieces.len(),
                consumed == start_of(self.pieces@, idx as int),
                consumed <= self@.len(),
                offset <= until,
                bytes@ == self@.subrange(
                    if offset <= consumed {
                        offset as int
                    } else {
                        consumed as int
                    },
                    if until <= consumed {
                        until as int
                    } else {
                        consumed as int
                    },
                ),
            decreases self.pieces.len() - idx,
        {
            let piece = self.pieces[idx];
            proof {
                assert(piece_fits(piece, self.stores()));
                lemma_take_next(self.pieces@, self.stores(), idx as int);
                lemma_prefix_length(self.pieces@, idx + 1, self.pieces@.len() as int);
            }
            let end = consumed + piece.length;
            if offset < end {
                let from = if offset > consumed {
                    offset - consumed
                } else {
                    0
                };
                let to = if until < end {
                    until - consumed
                } else {
                    piece.length
                };
                let store = match piece.source {
                    Source::Data => self.data.as_slice(),
                    Source::Add => self.add.as_slice(),
                };
                let part = slice_subrange(store, piece.offset + from, piece.offset + to);
                let ghost before = bytes@;
                bytes.extend_from_slice(part);
                proof {
                    lemma_piece_range(
                        self.pieces@,
                        self.stores(),
                        idx as int,
                        from as int,
                        to as int,
                    );
                    assert(bytes@ =~= before + part@);
                    assert(bytes@ =~= self@.subrange(offset as int, consumed + to));
                }
            }
            consumed = end;
            idx += 1;
        }
        bytes
    }

    /// Get the visible contents of the document from `offset` to
    /// `until_offset`, or to the end where `until_offset` is absent, as text.
    pub fn get(&self, offset: usize, until_offset: Option<usize>) -> (text: String)
        requires
            self.wf(),
        ensures
            text@ == lossy_text(self.slice(offset, until_offset)),
            valid_utf8(self.slice(offset, until_offset)) ==> text@ == decode_utf8(
                self.slice(offset, until_offset),
            ),
    {
        let bytes = self.get_bytes(offset, until_offset);
        text_from_bytes(bytes.as_slice())
    }

    /// Search the pieces that end at or after `offset` for `needle`, each by
    /// itself and the first of them from `offset` on. The ranges are those of
    /// the matches in the document, in its order: of every match that does
    /// not overlap the one before it where `all` is set, and of the first
    /// match of each piece where it is not.
    pub fn find_bytes(&self, needle: &[u8], offset: usize, all: bool) -> (ranges: Vec<
        Range<usize>,
    >)
        requires
            self.wf(),
        ensures
            bounds(ranges@) == self.found(needle@, offset, all),
    {
        let mut ranges: Vec<Range<usize>> = Vec::new();
        let mut consumed: usize = 0;
        let mut idx: usize = 0;
        proof {
            assert(self.pieces@.take(0) =~= Seq::<Piece>::empty());
            assert(self.pieces@.take(self.pieces@.len() as int) =~= self.pieces@);
            assert(bounds(ranges@) =~= Seq::<(int, int)>::empty());
        }
        while idx < self.pieces.len()
            invariant
                self.wf(),
                idx <= self.pieces.len(),
                consumed == start_of(self.pieces@, idx as int),
                bounds(ranges@) == found_of(
                    self.pieces@.take(idx as int),
                    self.stores(),
                    needle@,
                    offset as int,
                    all,
                ),
            decreases self.pieces.len() - idx,
        {
            let piece = self.pieces[idx];
            proof {
                assert(piece_fits(piece, self.stores()));
                lemma_take_next(self.pieces@, self.stores(), idx as int);
                lemma_prefix_length(self.pieces@, idx + 1, self.pieces@.len() as int);
                assert(self.pieces@.take(idx + 1).drop_last() =~= self.pieces@.take(idx as int));
            }
            let end = consumed + piece.length;
            if offset <= end {
                let skip = if offset > consumed {
                    offset - consumed
                } else {
                    0
                };
                let store = match piece.source {
                    Source::Data => self.data.as_slice(),
                    Source::Add => self.add.as_slice(),
                };
                let hay = slice_subrange(store, piece.offset + skip, piece.offset + piece.length);
                proof {
                    assert(hay@ =~= searched(piece, self.stores(), consumed as int, offset as int));
                }
                collect_matches(hay, needle, all, consumed + skip, &mut ranges);
            }
            consumed = end;
            idx += 1;
        }
        ranges
    }

    /// Search the document for `text` from `offset` on, as `find_bytes` does
    /// for the bytes of `text`.
    pub fn find(&self, text: &str, offset: usize, all: bool) -> (ranges: Vec<Range<usize>>)
        requires
            self.wf(),
        ensures
            bounds(ranges@) == self.found(text.spec_bytes(), offset, all),
    {
        self.find_bytes(text.as_bytes(), offset, all)
    }

    /// Append `bytes` to the add store, and mark the line feed when `bytes`
    /// is the line break.
    fn grow(&mut self, bytes: &[u8])
        requires
            old(self).wf(),
        ensures
            final(self).wf(),
            final(self).data@ == old(self).data@,
            final(self).pieces@ == old(self).pieces@,
            final(self).line_starts_data@ == old(self).line_starts_data@,
            final(self).add@ == old(self).add@ + bytes@,
            final(self).line_starts_add@ == if is_line_break(bytes@) {
                old(self).line_starts_add@.push((old(self).add@.len() + 1) as usize)
            } else {
                old(self).line_starts_add@
            },
            final(self)@ == old(self)@,
    {
        let ghost before = *self;
        let add_len = self.add.len();
        self.add.extend_from_slice(bytes);
        proof {
            assert(self.add@ =~= before.add@ + bytes@);
            assert(self.stores() == before.stores().grown(bytes@));
            lemma_grown_stores(before.pieces@, before.stores(), bytes@);
        }
        assert(self.add@.len() == self.add.len());
        if bytes.len() == 2 && bytes[0] == CR && bytes[1] == LF {
            self.line_starts_add.push(add_len + 1);
            proof {
                assert(bytes@ =~= seq![CR, LF]);
                let marks = self.line_starts_add@;
                assert forall|i: int, j: int|
                    0 <= i < j < marks.len() && marks[j] != 0 implies marks[i] < marks[j] by {
                    assert(marks[i] == before.line_starts_add@[i]);
                    if j < marks.len() - 1 {
                        assert(marks[j] == before.line_starts_add@[j]);
                    }
                }
                assert forall|i: int| 0 <= i < marks.len() implies #[trigger] marks[i]
                    < self.add@.len() by {
                    if i < marks.len() - 1 {
                        assert(marks[i] == before.line_starts_add@[i]);
                    }
                }
            }
        } else {
            proof {
                if is_line_break(bytes@) {
                    assert(bytes@.len() == 2 && bytes@[0] == CR && bytes@[1] == LF);
                }
            }
        }
    }

    /// What `insert` makes of the pieces is sound over the grown add store,
    /// and denotes the document with the bytes put in.
    proof fn lemma_insert(&self, bytes: Seq<u8>, offset: int, index: int, at: int)
        requires
            self.wf(),
            bytes.len() > 0,
            self@.len() + bytes.len() <= usize::MAX,
            self.add@.len() + bytes.len() <= usize::MAX,
            self.located(offset, index, at),
        ensures
            self.pieces@[index].offset <= at <= self.pieces@[index].offset
                + self.pieces@[index].length <= usize::MAX,
            pieces_fit(
                self.pieces_with(index, at, bytes.len() as int),
                self.stores().grown(bytes),
            ),
            length_of(self.pieces_with(index, at, bytes.len() as int)) <= usize::MAX,
            0 < self@.len(),
            offset <= self@.len(),
            text_of(self.pieces_with(index, at, bytes.len() as int), self.stores().grown(bytes))
                == inserted(self@, bytes, offset),
    {
        let piece = self.pieces@[index];
        self.lemma_empty();
        self.lemma_located_inside(offset, index, at);
        assert(piece_fits(piece, self.stores()));
        lemma_take_next(self.pieces@, self.stores(), index);
        if piece.source == Source::Add && at == piece.offset + piece.length && at
            == self.add@.len() {
            lemma_extended(self.pieces@, self.stores(), index, bytes);
        } else {
            lemma_inserted(self.pieces@, self.stores(), index, at - piece.offset, bytes);
        }
    }

    /// Put `bytes` into the document at `offset`. Into an empty document they
    /// go whatever `offset` is. Nothing happens when `bytes` is empty or the
    /// document would outgrow the machine's word; when `offset` lies past the
    /// end of the document the bytes reach the add store and not the document.
    pub fn insert_bytes(&mut self, bytes: &[u8], offset: usize)
        requires
            old(self).wf(),
        ensures
            old(self).with_text(*final(self), bytes@, offset),
    {
        if bytes.len() == 0 {
            return ;
        }
        let total = self.len();
        if total > usize::MAX - bytes.len() {
            return ;
        }
        let ghost before = *self;
        let found = self.find_piece_from_offset(offset);
        let add_len = self.add.len();
        self.grow(bytes);
        assert(self.add@.len() == self.add.len());
        let fresh = Piece::new(Source::Add, add_len, bytes.len());
        proof {
            before.lemma_empty();
        }
        match found {
            Some((idx, at)) => {
                let ghost rest = before.pieces_with(idx as int, at as int, bytes@.len() as int);
                proof {
                    before.lemma_insert(bytes@, offset as int, idx as int, at as int);
                    assert forall|index: int, other: int|
                        before.located(offset as int, index, other) implies index == idx && other
                        == at by {
                        before.lemma_located_once(
                            offset as int,
                            idx as int,
                            at as int,
                            index,
                            other,
                        );
                    }
                }
                let piece = self.pieces[idx];
                if piece.source == Source::Add && at == piece.offset + piece.length && at
                    == add_len {
                    self.pieces.set(
                        idx,
                        Piece::new(piece.source, piece.offset, piece.length + bytes.len()),
                    );
                    assert(self.pieces@ == rest);
                } else {
                    let head = Piece::new(piece.source, piece.offset, at - piece.offset);
                    let tail = Piece::new(piece.source, at, piece.length - (at - piece.offset));
                    let mut parts: Vec<Piece> = Vec::new();
                    if head.length > 0 {
                        parts.push(head);
                    }
                    parts.push(fresh);
                    if tail.length > 0 {
                        parts.push(tail);
                    }
                    assert(parts@ =~= kept(head) + seq![fresh] + kept(tail));
                    assert(idx < self.pieces.len());
                    self.pieces = replace_pieces(&self.pieces, idx, idx + 1, &parts);
                    assert(self.pieces@ =~= rest);
                }
            },
            None => {
                proof {
                    assert forall|index: int, other: int|
                        before.located(offset as int, index, other) implies false by {
                        before.lemma_located_inside(offset as int, index, other);
                    }
                }
                if self.pieces.len() == 0 {
                    self.pieces.push(fresh);
                    proof {
                        assert(self.pieces@ =~= seq![fresh]);
                        lemma_length_of_one(fresh);
                        lemma_text_of_one(fresh, self.stores());
                        assert(self@ =~= bytes@);
                    }
                }
            },
        }
    }

    /// Put `text` into the document at `offset`, as `insert_bytes` does with
    /// the bytes of `text`.
    pub fn insert(&mut self, text: &str, offset: usize)
        requires
            old(self).wf(),
        ensures
            old(self).with_text(*final(self), text.spec_bytes(), offset),
    {
        self.insert_bytes(text.as_bytes(), offset)
    }

    /// Put a line break into the document at `offset`, as `insert_bytes` does
    /// with a carriage return and a line feed.
    pub fn insert_new_line(&mut self, offset: usize)
        requires
            old(self).wf(),
        ensures
            old(self).with_text(*final(self), seq![CR, LF], offset),
    {
        let line_break: [u8; 2] = [CR, LF];
        proof {
            assert(line_break@ =~= seq![CR, LF]);
        }
        self.insert_bytes(line_break.as_slice(), offset)
    }

    /// What `delete` leaves of the pieces is sound, and denotes the document
    /// without the bytes.
    proof fn lemma_delete(
        &self,
        offset: int,
        count: int,
        first: int,
        first_at: int,
        last: int,
        last_at: int,
    )
        requires
            self.wf(),
            0 <= offset,
            0 < count,
            self.located(offset, first, first_at),
            self.located(offset + count, last, last_at),
        ensures
            first <= last < self.pieces@.len(),
            self.pieces@[first].offset <= first_at <= self.pieces@[first].offset
                + self.pieces@[first].length <= usize::MAX,
            self.pieces@[last].offset <= last_at <= self.pieces@[last].offset
                + self.pieces@[last].length <= usize::MAX,
            first == last ==> last_at == first_at + count,
            offset + count <= self@.len(),
            pieces_fit(self.pieces_without(first, first_at, last, last_at), self.stores()),
            length_of(self.pieces_without(first, first_at, last, last_at)) <= usize::MAX,
            text_of(self.pieces_without(first, first_at, last, last_at), self.stores()) == removed(
                self@,
                offset,
                count,
            ),
    {
        assert(first <= last) by {
            if last < first {
                assert(self.start_of(last + 1) < offset);
            }
        }
        assert(piece_fits(self.pieces@[first], self.stores()));
        assert(piece_fits(self.pieces@[last], self.stores()));
        lemma_take_next(self.pieces@, self.stores(), first);
        lemma_take_next(self.pieces@, self.stores(), last);
        lemma_text_len(self.pieces@, self.stores());
        lemma_removed(
            self.pieces@,
            self.stores(),
            first,
            first_at - self.pieces@[first].offset,
            last,
            last_at - self.pieces@[last].offset,
        );
    }

    /// Take out what lies between the place `first_at` of the store of piece
    /// `first` and the place `last_at` of the store of piece `last`: shrink
    /// the piece in place where both places lie in it and one of them is an
    /// end of it, and put what is left of the two pieces in the place of all
    /// the pieces from `first` to `last` otherwise.
    fn cut(&mut self, first: usize, first_at: usize, last: usize, last_at: usize)
        requires
            first <= last < old(self).pieces@.len(),
            old(self).pieces@[first as int].offset <= first_at <= old(self).pieces@[first as int].offset
                + old(self).pieces@[first as int].length <= usize::MAX,
            old(self).pieces@[last as int].offset <= last_at <= old(self).pieces@[last as int].offset
                + old(self).pieces@[last as int].length <= usize::MAX,
            first == last ==> first_at <= last_at,
        ensures
            final(self).pieces@ == old(self).pieces_without(
                first as int,
                first_at as int,
                last as int,
                last_at as int,
            ),
            final(self).data@ == old(self).data@,
            final(self).add@ == old(self).add@,
            final(self).line_starts_data@ == old(self).line_starts_data@,
            final(self).line_starts_add@ == old(self).line_starts_add@,
    {
        let ghost rest = self.pieces_without(
            first as int,
            first_at as int,
            last as int,
            last_at as int,
        );
        let head_piece = self.pieces[first];
        let tail_piece = self.pieces[last];
        let head = Piece::new(head_piece.source, head_piece.offset, first_at - head_piece.offset);
        let tail = Piece::new(
            tail_piece.source,
            last_at,
            tail_piece.length - (last_at - tail_piece.offset),
        );
        assert(rest == self.pieces@.take(first as int) + kept(head) + kept(tail)
            + self.pieces@.skip(last + 1));
        if first == last && last_at - first_at < head_piece.length {
            if first_at == head_piece.offset {
                assert(self.pieces@.update(first as int, tail) =~= rest);
                self.pieces.set(first, tail);
                return ;
            }
            if last_at == head_piece.offset + head_piece.length {
                assert(self.pieces@.update(first as int, head) =~= rest);
                self.pieces.set(first, head);
                return ;
            }
        }
        let mut parts: Vec<Piece> = Vec::new();
        if head.length > 0 {
            parts.push(head);
        }
        if tail.length > 0 {
            parts.push(tail);
        }
        assert(parts@ =~= kept(head) + kept(tail));
        assert(last < self.pieces.len());
        self.pieces = replace_pieces(&self.pieces, first, last + 1, &parts);
        assert(self.pieces@ =~= rest);
    }

    /// Remove the `count` bytes that start at `offset`. Nothing happens when
    /// `count` is 0 or the range reaches past the end of the document.
    pub fn delete(&mut self, offset: usize, count: usize)
        requires
            old(self).wf(),
        ensures
            old(self).without_text(*final(self), offset, count),
    {
        if count == 0 {
            return ;
        }
        let end = match offset.checked_add(count) {
            Some(end) => end,
            None => {
                proof {
                    lemma_text_len(self.pieces@, self.stores());
                }
                return ;
            },
        };
        let (first_idx, first_at) = match self.find_piece_from_offset(offset) {
            Some(found) => found,
            None => {
                return ;
            },
        };
        let (last_idx, last_at) = match self.find_piece_from_offset(end) {
            Some(found) => found,
            None => {
                return ;
            },
        };
        proof {
            self.lemma_delete(
                offset as int,
                count as int,
                first_idx as int,
                first_at as int,
                last_idx as int,
                last_at as int,
            );
            assert forall|i: int, i_at: int, j: int, j_at: int|
                #[trigger] self.located(offset as int, i, i_at) && #[trigger] self.located(
                    offset + count,
                    j,
                    j_at,
                ) implies i == first_idx && i_at == first_at && j == last_idx && j_at
                == last_at by {
                self.lemma_located_once(offset as int, first_idx as int, first_at as int, i, i_at);
                self.lemma_located_once(offset + count, last_idx as int, last_at as int, j, j_at);
            }
        }
        self.cut(first_idx, first_at, last_idx, last_at);
    }
}

} // verus!

//! A buffer: a piece table together with the path of the file it belongs
//! to, addressed by positions.

use crate::chars::to_text;
use crate::document::Stores;
use crate::format::{
    digits, listed, pieces_listed, push_number, push_numbers, push_pieces, push_text,
};
use crate::line_endings::{CR, LF};
use crate::lines::Marks;
use crate::piece::Piece;
use crate::piece_table::PieceTable;
use crate::position::Position;
use crate::search::bounds;
use crate::text::lossy_text;
use std::ops::Range;
use vstd::prelude::*;
use vstd::string::{StrSliceExecFns, StringSliceAdditionalSpecFns};
use vstd::utf8::{decode_utf8, encode_utf8, valid_utf8};

verus! {

/// A document with the path of its file.
pub struct Buffer {
    piece_table: PieceTable,
    file_path: Option<String>,
}

/// What follows the last `mark` in the text: all of the text where it holds
/// no `mark`.
pub open spec fn after_last(text: Seq<char>, mark: char) -> Seq<char>
    decreases text.len(),
{
    if text.len() == 0 {
        Seq::empty()
    } else if text.last() == mark {
        Seq::empty()
    } else {
        after_last(text.drop_last(), mark).push(text.last())
    }
}

/// The number of bytes of the text that are neither a carriage return nor a
/// line feed.
pub open spec fn visible(text: Seq<u8>) -> nat
    decreases text.len(),
{
    if text.len() == 0 {
        0
    } else if text.last() == CR || text.last() == LF {
        visible(text.drop_last())
    } else {
        visible(text.drop_last()) + 1
    }
}

/// What follows the last `mark` in the text.
pub fn last_part<'a>(text: &'a str, mark: char) -> (part: &'a str)
    ensures
        part@ == after_last(text@, mark),
{
    let total = text.unicode_len();
    let mut index: usize = 0;
    let mut start: usize = 0;
    proof {
        assert(text@.take(0) =~= Seq::<char>::empty());
        assert(text@.subrange(0, 0) =~= Seq::<char>::empty());
    }
    for ch in it: text.chars()
        invariant
            total == text@.len(),
            index == it.index(),
            it.seq() == text@,
            start <= index <= total,
            after_last(text@.take(index as int), mark) == text@.subrange(
                start as int,
                index as int,
            ),
    {
        proof {
            assert(text@.take(index + 1).drop_last() =~= text@.take(index as int));
            assert(text@.subrange(start as int, index + 1) =~= text@.subrange(
                start as int,
                index as int,
            ).push(text@[index as int]));
            assert(text@.subrange(index + 1, index + 1) =~= Seq::<char>::empty());
        }
        index += 1;
        if ch == mark {
            start = index;
        }
    }
    proof {
        assert(text@.take(total as int) =~= text@);
    }
    text.substring_char(start, index)
}

/// Count the bytes that are neither a carriage return nor a line feed.
pub fn count_visible(text: &[u8]) -> (count: usize)
    ensures
        count == visible(text@),
{
    let mut count: usize = 0;
    let mut i: usize = 0;
    proof {
        assert(text@.take(0) =~= Seq::<u8>::empty());
    }
    while i < text.len()
        invariant
            i <= text.len(),
            count <= i,
            count == visible(text@.take(i as int)),
        decreases text.len() - i,
    {
        proof {
            assert(text@.take(i + 1).drop_last() =~= text@.take(i as int));
        }
        if text[i] != CR && text[i] != LF {
            count += 1;
        }
        i += 1;
    }
    proof {
        assert(text@.take(text@.len() as int) =~= text@);
    }
    count
}

/// The text in quotation marks, with the characters that do not show as
/// themselves escaped, as the `Debug` form of a `str` has it.
pub uninterp spec fn quoted(text: Seq<char>) -> Seq<char>;

/// The text in quotation marks, by `format!` with the `Debug` form of the
/// text. Believed, not proved: what comes out depends on the text alone.
#[verifier::external_body]
fn quote(text: &str) -> (line: String)
    ensures
        line@ == quoted(text@),
{
    format!("{:?}", text)
}

impl Default for Buffer {
    /// A buffer with an empty document and no path.
    fn default() -> (buffer: Buffer)
        ensures
            buffer.path() is None,
            buffer.table().wf(),
            buffer.table()@ == Seq::<u8>::empty(),
            buffer.table().stores() == (Stores { data: Seq::empty(), add: Seq::empty() }),
            buffer.table().marks() == (Marks { data: Seq::empty(), add: Seq::empty() }),
            buffer.table().pieces@ == Seq::<Piece>::empty(),
    {
        Buffer { piece_table: PieceTable::default(), file_path: None }
    }
}

impl Buffer {
    /// The buffer's table is always sound.
    #[verifier::type_invariant]
    spec fn sound(self) -> bool {
        self.piece_table.wf()
    }

    /// The buffer's piece table.
    pub closed spec fn table(&self) -> PieceTable {
        self.piece_table
    }

    /// The buffer's path, where it has one.
    pub closed spec fn path(&self) -> Option<Seq<char>> {
        match self.file_path {
            Some(path) => Some(path@),
            None => None,
        }
    }

    /// The part of the document between two positions: from the offset of
    /// `from` to the offset of `until`, to the end where `until` is absent or
    /// has no offset, and all of the document where `from` has no offset.
    pub open spec fn span(&self, from: Position, until: Option<Position>) -> Seq<u8> {
        match self.table().offset_of(from) {
            Some(start) => match until {
                Some(end) => self.table().slice(start, self.table().offset_of(end)),
                None => self.table().slice(start, None),
            },
            None => self.table().slice(0, None),
        }
    }

    /// The length of line `y` without its line break: the distance to the
    /// next line's start less the two bytes of the break where a next line
    /// starts, the number of bytes that are neither carriage return nor line
    /// feed from the line's start to the end of the document where none
    /// does, and 0 for a line that the document lacks.
    pub open spec fn line_length(&self, y: usize) -> nat {
        match self.table().offset_of(Position { x: 0, y }) {
            Some(start) => match self.next_line(y) {
                Some(next) => if next - start >= 2 {
                    (next - start - 2) as nat
                } else {
                    0
                },
                None => visible(self.table().slice(start, None)),
            },
            None => 0,
        }
    }

    /// The number of lines, as `get_total_lines` gives it: the count of the
    /// piece table, held to the machine's word.
    pub open spec fn lines(&self) -> nat {
        if self.table().line_count() <= usize::MAX {
            self.table().line_count()
        } else {
            usize::MAX as nat
        }
    }

    /// The offset at which the line after line `y` starts.
    pub open spec fn next_line(&self, y: usize) -> Option<usize> {
        if y < usize::MAX {
            self.table().offset_of(Position { x: 0, y: (y + 1) as usize })
        } else {
            None
        }
    }

    /// Hand the table out, and leave an empty one in its place.
    fn take_table(&mut self) -> (table: PieceTable)
        ensures
            table == old(self).table(),
            table.wf(),
            final(self).path() == old(self).path(),
    {
        proof {
            use_type_invariant(&*self);
        }
        let mut table = PieceTable::default();
        std::mem::swap(&mut self.piece_table, &mut table);
        table
    }

    /// A buffer with an empty document and no path.
    pub fn new() -> (buffer: Buffer)
        ensures
            buffer.path() is None,
            buffer.table().founded(Seq::empty()),
            buffer.table()@ == Seq::<u8>::empty(),
    {
        let contents = String::new();
        proof {
            assert forall|i: int| 0 < i < encode_utf8(contents@).len() implies !(encode_utf8(
                contents@,
            )[i - 1] == CR && #[trigger] encode_utf8(contents@)[i] == LF) by {}
        }
        Self::from_string(contents)
    }

    /// A buffer for the text `contents`, with no path.
    pub fn from_string(contents: String) -> (buffer: Buffer)
        ensures
            buffer.path() is None,
            buffer.table().founded(contents@),
    {
        Buffer { piece_table: PieceTable::from_string(contents), file_path: None }
    }

    /// The buffer's piece table, to read.
    pub fn piece_table(&self) -> (table: &PieceTable)
        ensures
            *table == self.table(),
            table.wf(),
    {
        proof {
            use_type_invariant(self);
        }
        &self.piece_table
    }

    /// The bytes of the document.
    pub fn contents(&self) -> (bytes: Vec<u8>)
        ensures
            bytes@ == self.table()@,
    {
        proof {
            use_type_invariant(self);
            self.piece_table.lemma_empty();
            assert(self.piece_table.slice(0, None) =~= self.piece_table@);
        }
        self.piece_table.get_bytes(0, None)
    }

    /// The buffer's path.
    pub fn file_path(&self) -> (path: Option<&str>)
        ensures
            path is Some <==> self.path() is Some,
            path matches Some(text) ==> self.path() == Some(text@),
    {
        match &self.file_path {
            Some(path) => Some(path.as_str()),
            None => None,
        }
    }

    /// Give the buffer a path.
    pub fn set_file_path(&mut self, file_path: String)
        ensures
            final(self).path() == Some(file_path@),
            final(self).table() == old(self).table(),
    {
        proof {
            use_type_invariant(&*self);
        }
        self.file_path = Some(file_path);
    }

    /// The file's name: what follows the last `/` of the path.
    pub fn file_name(&self) -> (name: Option<&str>)
        ensures
            name is Some <==> self.path() is Some,
            name matches Some(text) ==> text@ == after_last(self.path().unwrap(), '/'),
    {
        match &self.file_path {
            Some(path) => Some(last_part(path.as_str(), '/')),
            None => None,
        }
    }

    /// The file's extension: what follows the last `.` of its name, and the
    /// whole name where it holds none.
    pub fn file_extension(&self) -> (extension: Option<&str>)
        ensures
            extension is Some <==> self.path() is Some,
            extension matches Some(text) ==> text@ == after_last(
                after_last(self.path().unwrap(), '/'),
                '.',
            ),
    {
        match self.file_name() {
            Some(name) => Some(last_part(name, '.')),
            None => None,
        }
    }

    /// The text of the document between two positions.
    pub fn get(&self, from: &Position, until: Option<&Position>) -> (text: String)
        ensures
            text@ == lossy_text(
                self.span(
                    *from,
                    match until {
                        Some(end) => Some(*end),
                        None => None,
                    },
                ),
            ),
            valid_utf8(
                self.span(
                    *from,
                    match until {
                        Some(end) => Some(*end),
                        None => None,
                    },
                ),
            ) ==> text@ == decode_utf8(
                self.span(
                    *from,
                    match until {
                        Some(end) => Some(*end),
                        None => None,
                    },
                ),
            ),
    {
        proof {
            use_type_invariant(self);
        }
        match self.piece_table.get_offset_from_position(from) {
            Some(start) => match until {
                Some(end) => {
                    let end_offset = self.piece_table.get_offset_from_position(end);
                    self.piece_table.get(start, end_offset)
                },
                None => self.piece_table.get(start, None),
            },
            None => self.piece_table.get(0, None),
        }
    }

    /// Search the document for `text` from `offset` on, as the piece table
    /// does.
    pub fn find(&self, text: &str, offset: usize, all: bool) -> (ranges: Vec<Range<usize>>)
        ensures
            bounds(ranges@) == self.table().found(text.spec_bytes(), offset, all),
    {
        proof {
            use_type_invariant(self);
        }
        self.piece_table.find(text, offset, all)
    }

    /// Put a line break in at a position. Nothing happens where the position
    /// has no offset.
    pub fn insert_new_line(&mut self, position: &Position)
        ensures
            final(self).path() == old(self).path(),
            match old(self).table().offset_of(*position) {
                Some(offset) => old(self).table().with_text(
                    final(self).table(),
                    seq![CR, LF],
                    offset,
                ),
                None => *final(self) == *old(self),
            },
    {
        proof {
            use_type_invariant(&*self);
        }
        match self.piece_table.get_offset_from_position(position) {
            Some(offset) => {
                let mut table = self.take_table();
                table.insert_new_line(offset);
                self.piece_table = table;
            },
            None => {},
        }
    }

    /// Put `text` in at a position. Nothing happens where the position has no
    /// offset.
    pub fn insert(&mut self, text: &str, position: &Position)
        ensures
            final(self).path() == old(self).path(),
            match old(self).table().offset_of(*position) {
                Some(offset) => old(self).table().with_text(
                    final(self).table(),
                    text.spec_bytes(),
                    offset,
                ),
                None => *final(self) == *old(self),
            },
    {
        proof {
            use_type_invariant(&*self);
        }
        match self.piece_table.get_offset_from_position(position) {
            Some(offset) => {
                let mut table = self.take_table();
                table.insert(text, offset);
                self.piece_table = table;
            },
            None => {},
        }
    }

    /// Take `count` bytes out at a position. Nothing happens where the
    /// position has no offset.
    pub fn delete(&mut self, position: &Position, count: usize)
        ensures
            final(self).path() == old(self).path(),
            match old(self).table().offset_of(*position) {
                Some(offset) => old(self).table().without_text(
                    final(self).table(),
                    offset,
                    count,
                ),
                None => *final(self) == *old(self),
            },
    {
        proof {
            use_type_invariant(&*self);
        }
        match self.piece_table.get_offset_from_position(position) {
            Some(offset) => {
                let mut table = self.take_table();
                table.delete(offset, count);
                self.piece_table = table;
            },
            None => {},
        }
    }

    /// The length of line `y`, its line break left out.
    pub fn get_line_length(&self, y: usize) -> (length: usize)
        ensures
            length == self.line_length(y),
    {
        proof {
            use_type_invariant(self);
        }
        let start = match self.piece_table.get_offset_from_position(&Position::new(0, y)) {
            Some(start) => start,
            None => {
                return 0;
            },
        };
        let next = if y < usize::MAX {
            self.piece_table.get_offset_from_position(&Position::new(0, y + 1))
        } else {
            None
        };
        match next {
            Some(next) => if next >= start && next - start >= 2 {
                next - start - 2
            } else {
                0
            },
            None => {
                let rest = self.piece_table.get_bytes(start, None);
                count_visible(rest.as_slice())
            },
        }
    }

    /// The number of lines, as the piece table counts them.
    pub fn get_total_lines(&self) -> (total: usize)
        ensures
            self.table().wf(),
            total == self.lines(),
    {
        proof {
            use_type_invariant(self);
        }
        self.piece_table.get_total_lines()
    }

    /// The offset of a position, as the piece table gives it.
    pub fn get_offset_from_position(&self, position: &Position) -> (offset: Option<usize>)
        ensures
            self.table().wf(),
            offset == self.table().offset_of(*position),
    {
        proof {
            use_type_invariant(self);
        }
        self.piece_table.get_offset_from_position(position)
    }

    /// The position of an offset, as the piece table gives it.
    pub fn get_position_from_offset(&self, offset: usize) -> (position: Position)
        ensures
            self.table().wf(),
            position == self.table().position_of(offset),
    {
        proof {
            use_type_invariant(self);
        }
        self.piece_table.get_position_from_offset(offset)
    }

    /// The debug status of a table at an offset: its two mark tables, the
    /// offset, its pieces and its text in quotation marks, with bars between
    /// them.
    pub open spec fn debug_status(&self, offset: usize) -> Seq<char> {
        "nl_data="@ + listed(self.table().line_starts_data@) + " | nl_add="@ + listed(
            self.table().line_starts_add@,
        ) + " | offset="@ + digits(offset as nat) + " | pieces="@ + pieces_listed(
            self.table().pieces@,
        ) + " | "@ + quoted(lossy_text(self.table().slice(0, None)))
    }

    /// A line for the eyes of a developer: the debug status at the offset of
    /// the position, and at 0 where the position has none.
    pub fn get_debug_status(&self, position: &Position) -> (status: String)
        ensures
            status@ == self.debug_status(
                match self.table().offset_of(*position) {
                    Some(offset) => offset,
                    None => 0,
                },
            ),
    {
        proof {
            use_type_invariant(self);
        }
        let offset = match self.piece_table.get_offset_from_position(position) {
            Some(offset) => offset,
            None => 0,
        };
        let text = self.piece_table.get(0, None);
        let mut line: Vec<char> = Vec::new();
        push_text(&mut line, "nl_data=");
        push_numbers(&mut line, &self.piece_table.line_starts_data);
        push_text(&mut line, " | nl_add=");
        push_numbers(&mut line, &self.piece_table.line_starts_add);
        push_text(&mut line, " | offset=");
        push_number(&mut line, offset);
        push_text(&mut line, " | pieces=");
        push_pieces(&mut line, &self.piece_table.pieces);
        push_text(&mut line, " | ");
        push_text(&mut line, quote(text.as_str()).as_str());
        proof {
            assert(line@ =~= self.debug_status(offset));
        }
        to_text(line.as_slice())
    }
}

} // verus!

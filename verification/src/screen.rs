//! What the editor shows: the steps that draw the text, the bars and the
//! cursor.

use crate::chars::{is_text, to_chars, to_text};
use crate::draw::{put, put_all, shown, Color, Draw, Shown};
use crate::editor::{extension_name, less, Editor, EditorMode, SearchMode};
use crate::format::{digits, padded, push_number, push_padded, push_text};
use crate::position::Position;
use crate::text::lossy_text;
use vstd::prelude::*;
use vstd::utf8::encode_utf8;

verus! {

impl Editor {
    /// The row of the command line: the last but one.
    pub open spec fn command_row(&self) -> int {
        less(self.size.1 as int, 1)
    }

    /// What `draw_command` shows: the command line, in its row.
    pub open spec fn command_frame(&self) -> Seq<Shown> {
        seq![
            Shown::Goto(Position { x: 0, y: self.command_row() as usize }),
            Shown::Write(self.command@),
        ]
    }

    /// The steps that draw the command line.
    pub fn draw_command(&self) -> (steps: Vec<Draw>)
        ensures
            shown(steps@) == self.command_frame(),
    {
        let row = if self.size.1 >= 1 {
            (self.size.1 - 1) as usize
        } else {
            0
        };
        let mut steps: Vec<Draw> = Vec::new();
        proof {
            assert(shown(steps@) =~= Seq::<Shown>::empty());
        }
        put(&mut steps, Draw::Goto(Position::new(0, row)));
        put(&mut steps, Draw::Write(to_text(self.command.as_slice())));
        proof {
            assert(shown(steps@) =~= self.command_frame());
        }
        steps
    }

    /// The name under which the buffer shows: its path, or a word for a
    /// buffer without one.
    pub open spec fn shown_name(&self) -> Seq<char> {
        match self.buffer.path() {
            Some(path) => path,
            None => "[No Name]"@,
        }
    }

    /// The right half of the status bar: the kind of file, and the row and
    /// the column of the cursor.
    pub open spec fn shown_place(&self) -> Seq<char> {
        extension_name(self.file_extension@) + " | "@ + digits(self.cursor_position.y as nat)
            + ":"@ + digits(self.cursor_position.x as nat)
    }

    /// The status bar: the name at the left and the place at the right, as
    /// far as the width of the terminal lets them stand apart.
    pub open spec fn status_of(&self) -> Seq<char> {
        " "@ + self.shown_name() + padded(
            self.shown_place(),
            less(less(self.size.0 as int, encode_utf8(self.shown_name()).len() as int), 2),
        ) + " "@
    }

    /// What `draw_status_bar` shows: nothing before the first key, and then
    /// the status bar in its row, black on magenta.
    pub open spec fn status_frame(&self) -> Seq<Shown> {
        if self.untouched {
            Seq::empty()
        } else {
            seq![
                Shown::Goto(Position { x: 0, y: less(self.size.1 as int, 2) as usize }),
                Shown::WriteColors(self.status_of(), Color::Black, Color::Magenta),
            ]
        }
    }

    /// The steps that draw the status bar, which the editor keeps.
    pub fn draw_status_bar(&mut self) -> (steps: Vec<Draw>)
        ensures
            shown(steps@) == old(self).status_frame(),
            final(self).status@ == if old(self).untouched {
                old(self).status@
            } else {
                old(self).status_of()
            },
            final(self).buffer == old(self).buffer,
            final(self).command == old(self).command,
            final(self).mode == old(self).mode,
            final(self).cursor_position == old(self).cursor_position,
            final(self).offset_y == old(self).offset_y,
            final(self).current_line_length == old(self).current_line_length,
            final(self).running == old(self).running,
            final(self).size == old(self).size,
            final(self).untouched == old(self).untouched,
            final(self).debug_bar == old(self).debug_bar,
            final(self).retain_command_text == old(self).retain_command_text,
            final(self).file_extension == old(self).file_extension,
            final(self).search_mode == old(self).search_mode,
            final(self).search_occurences == old(self).search_occurences,
            final(self).search_occurence_idx == old(self).search_occurence_idx,
            final(self).search_offset_y == old(self).search_offset_y,
            final(self).search_cursor_position == old(self).search_cursor_position,
    {
        let mut steps: Vec<Draw> = Vec::new();
        proof {
            assert(shown(steps@) =~= Seq::<Shown>::empty());
        }
        if self.untouched {
            return steps;
        }
        let mut line: Vec<char> = Vec::new();
        let name_length;
        push_text(&mut line, " ");
        match self.buffer.file_path() {
            Some(path) => {
                name_length = path.as_bytes().len();
                push_text(&mut line, path);
            },
            None => {
                name_length = "[No Name]".as_bytes().len();
                push_text(&mut line, "[No Name]");
            },
        }
        let mut place: Vec<char> = Vec::new();
        push_text(&mut place, self.get_extension_name(self.file_extension.as_str()));
        push_text(&mut place, " | ");
        push_number(&mut place, self.cursor_position.y);
        push_text(&mut place, ":");
        push_number(&mut place, self.cursor_position.x);
        let width = self.size.0 as usize;
        let room = if width >= name_length {
            width - name_length
        } else {
            0
        };
        let pad = if room >= 2 {
            room - 2
        } else {
            0
        };
        proof {
            assert(place@ =~= self.shown_place());
            assert(line@ =~= " "@ + self.shown_name());
            assert(name_length == encode_utf8(self.shown_name()).len());
            assert(pad == less(
                less(self.size.0 as int, encode_utf8(self.shown_name()).len() as int),
                2,
            ));
        }
        push_padded(&mut line, &place, pad);
        push_text(&mut line, " ");
        proof {
            assert(line@ =~= self.status_of());
        }
        let row = if self.size.1 >= 2 {
            (self.size.1 - 2) as usize
        } else {
            0
        };
        self.status = to_text(line.as_slice());
        put(&mut steps, Draw::Goto(Position::new(0, row)));
        put(
            &mut steps,
            Draw::WriteColors(to_text(line.as_slice()), Color::Black, Color::Magenta),
        );
        proof {
            assert(shown(steps@) =~= old(self).status_frame());
        }
        steps
    }

    /// The debug bar: the scroll offset, and the scroll offset and the
    /// place of the search.
    pub open spec fn debug_of(&self) -> Seq<char> {
        "offset_y="@ + digits(self.offset_y as nat) + " | Search: offset_y="@ + digits(
            self.search_offset_y as nat,
        ) + ", pos=("@ + digits(self.search_cursor_position.x as nat) + ","@ + digits(
            self.search_cursor_position.y as nat,
        ) + ")."@
    }

    /// What `draw_debug` shows: the debug bar in the last row, once a key
    /// has come in and where the bar is switched on.
    pub open spec fn debug_frame(&self) -> Seq<Shown> {
        if self.untouched || !self.debug_bar {
            Seq::empty()
        } else {
            seq![
                Shown::Goto(Position { x: 0, y: self.size.1 as usize }),
                Shown::Write(self.debug_of()),
            ]
        }
    }

    /// The steps that draw the debug bar.
    pub fn draw_debug(&self) -> (steps: Vec<Draw>)
        ensures
            shown(steps@) == self.debug_frame(),
    {
        let mut steps: Vec<Draw> = Vec::new();
        proof {
            assert(shown(steps@) =~= Seq::<Shown>::empty());
        }
        if self.untouched || !self.debug_bar {
            return steps;
        }
        let mut line: Vec<char> = Vec::new();
        push_text(&mut line, "offset_y=");
        push_number(&mut line, self.offset_y);
        push_text(&mut line, " | Search: offset_y=");
        push_number(&mut line, self.search_offset_y);
        push_text(&mut line, ", pos=(");
        push_number(&mut line, self.search_cursor_position.x);
        push_text(&mut line, ",");
        push_number(&mut line, self.search_cursor_position.y);
        push_text(&mut line, ").");
        proof {
            assert(line@ =~= self.debug_of());
        }
        put(&mut steps, Draw::Goto(Position::new(0, self.size.1 as usize)));
        put(&mut steps, Draw::Write(to_text(line.as_slice())));
        proof {
            assert(shown(steps@) =~= self.debug_frame());
        }
        steps
    }

    /// The line of the document shown in the first row: that of the search
    /// while one is typed.
    pub open spec fn view_line(&self) -> usize {
        match self.search_mode {
            SearchMode::Off => self.offset_y,
            SearchMode::Incremental => self.search_offset_y,
        }
    }

    /// The text in view: the document from the line in the first row to
    /// the start of the line after the last row.
    pub open spec fn view_text(&self) -> Seq<char> {
        let top = self.view_line();
        lossy_text(
            self.buffer.span(
                Position { x: 0, y: top },
                if top + self.rows() + 1 <= usize::MAX {
                    Some(Position { x: 0, y: (top + self.rows() + 1) as usize })
                } else {
                    None
                },
            ),
        )
    }

    /// The greeting of an editor in which no key has come in yet: its name,
    /// its version and a hint, each about the middle of the terminal.
    pub open spec fn welcome(&self) -> Seq<Shown> {
        let column = self.size.0 as int / 2;
        let row = self.size.1 as int / 2;
        seq![
            Shown::Goto(Position { x: less(column, 9) as usize, y: row as usize }),
            Shown::WriteColor("Nimbus Text Editor"@, Color::Yellow),
            Shown::Goto(Position { x: less(column, 6) as usize, y: (row + 1) as usize }),
            Shown::Write("Version 0.1.0"@),
            Shown::Goto(Position { x: less(column, 14) as usize, y: (row + 3) as usize }),
            Shown::WriteColor("Type :help for usage manual."@, Color::White),
        ]
    }

    /// The steps that show the text: the greeting before the first key, and
    /// then the text in view, as source code where the file is a Rust
    /// source.
    pub open spec fn text_frame(&self) -> Seq<Shown> {
        if self.untouched {
            self.welcome()
        } else if self.file_extension@ == "rs"@ {
            seq![Shown::Highlight(self.view_text())]
        } else {
            seq![Shown::Write(self.view_text())]
        }
    }

    /// A match is to be shown: a search is being typed and has a match at
    /// the index of the match to show.
    pub open spec fn shows_match(&self) -> bool {
        self.search_mode == SearchMode::Incremental && self.search_occurence_idx
            < self.search_occurences@.len()
    }

    /// The position of the match to show.
    pub open spec fn match_at(&self) -> Position {
        self.buffer.table().position_of(
            self.search_occurences@[self.search_occurence_idx as int].start,
        )
    }

    /// The match to show lies in view.
    pub open spec fn match_in_view(&self) -> bool {
        self.view_line() <= self.match_at().y <= self.view_line() + self.rows()
    }

    /// The text of the match to show.
    pub open spec fn match_text(&self) -> Seq<char> {
        let range = self.search_occurences@[self.search_occurence_idx as int];
        lossy_text(self.buffer.table().slice(range.start, Some(range.end)))
    }

    /// Where the match to show lies on the terminal.
    pub open spec fn match_place(&self) -> Position {
        Position { x: self.match_at().x, y: (self.match_at().y - self.view_line()) as usize }
    }

    /// What `draw_buffer` shows: the text with the cursor hidden, then the
    /// match of a search that is being typed, marked where it is typed in
    /// the command mode, and then the cursor again. Where the match lies
    /// out of view the drawing ends with the text.
    pub open spec fn buffer_frame(&self) -> Seq<Shown> {
        seq![Shown::HideCursor, Shown::Goto(Position { x: 0, y: 0 })] + self.text_frame() + (
        if !self.shows_match() {
            seq![Shown::ShowCursor]
        } else if !self.match_in_view() {
            Seq::empty()
        } else {
            seq![
                Shown::Goto(self.match_place()),
                if self.mode == EditorMode::Command {
                    Shown::WriteColors(self.match_text(), Color::Black, Color::LightYellow)
                } else {
                    Shown::WriteColor(self.match_text(), Color::Reset)
                },
                Shown::ShowCursor,
            ]
        })
    }

    /// `after` is this editor after `draw_buffer`: where the match to show
    /// lies in view its place is kept, and where it lies out of view the
    /// search scrolls to it for the next drawing.
    pub open spec fn looked(&self, after: Editor) -> bool {
        &&& after.size == self.size
        &&& after.offset_y == self.offset_y
        &&& after.cursor_position == self.cursor_position
        &&& after.current_line_length == self.current_line_length
        &&& after.status == self.status
        &&& after.command == self.command
        &&& after.mode == self.mode
        &&& after.retain_command_text == self.retain_command_text
        &&& after.running == self.running
        &&& after.untouched == self.untouched
        &&& after.debug_bar == self.debug_bar
        &&& after.buffer == self.buffer
        &&& after.file_extension == self.file_extension
        &&& after.search_mode == self.search_mode
        &&& after.search_occurences == self.search_occurences
        &&& after.search_occurence_idx == self.search_occurence_idx
        &&& after.search_offset_y == if self.shows_match() && !self.match_in_view() {
            less(self.match_at().y as int, self.rows()) as usize
        } else {
            self.search_offset_y
        }
        &&& after.search_cursor_position == if self.shows_match() && self.match_in_view() {
            self.match_place()
        } else {
            self.search_cursor_position
        }
    }

    /// The steps that show the greeting.
    fn draw_welcome(&self) -> (steps: Vec<Draw>)
        ensures
            shown(steps@) == self.welcome(),
    {
        let column = (self.size.0 / 2) as usize;
        let row = (self.size.1 / 2) as usize;
        let mut steps: Vec<Draw> = Vec::new();
        proof {
            assert(shown(steps@) =~= Seq::<Shown>::empty());
        }
        let name = if column >= 9 {
            column - 9
        } else {
            0
        };
        let version = if column >= 6 {
            column - 6
        } else {
            0
        };
        let hint = if column >= 14 {
            column - 14
        } else {
            0
        };
        put(&mut steps, Draw::Goto(Position::new(name, row)));
        put(&mut steps, Draw::WriteColor("Nimbus Text Editor".to_owned(), Color::Yellow));
        put(&mut steps, Draw::Goto(Position::new(version, row + 1)));
        put(&mut steps, Draw::Write("Version 0.1.0".to_owned()));
        put(&mut steps, Draw::Goto(Position::new(hint, row + 3)));
        put(&mut steps, Draw::WriteColor("Type :help for usage manual.".to_owned(), Color::White));
        proof {
            assert(shown(steps@) =~= self.welcome());
        }
        steps
    }

    /// The steps that show the text.
    fn draw_text(&self) -> (steps: Vec<Draw>)
        ensures
            shown(steps@) == self.text_frame(),
    {
        if self.untouched {
            return self.draw_welcome();
        }
        let top = match self.search_mode {
            SearchMode::Off => self.offset_y,
            SearchMode::Incremental => self.search_offset_y,
        };
        let rows = self.draw_terminal_size().1;
        let end = match top.checked_add(rows) {
            Some(last) => match last.checked_add(1) {
                Some(end) => Some(Position::new(0, end)),
                None => None,
            },
            None => None,
        };
        let text = match &end {
            Some(end) => self.buffer.get(&Position::new(0, top), Some(end)),
            None => self.buffer.get(&Position::new(0, top), None),
        };
        let mut steps: Vec<Draw> = Vec::new();
        proof {
            assert(shown(steps@) =~= Seq::<Shown>::empty());
        }
        let chars = to_chars(self.file_extension.as_str());
        if is_text(chars.as_slice(), "rs") {
            put(&mut steps, Draw::Highlight(text));
        } else {
            put(&mut steps, Draw::Write(text));
        }
        proof {
            assert(shown(steps@) =~= self.text_frame());
        }
        steps
    }

    /// The steps that draw the text and the match of the search; the editor
    /// keeps where the match lies.
    pub fn draw_buffer(&mut self) -> (steps: Vec<Draw>)
        ensures
            shown(steps@) == old(self).buffer_frame(),
            old(self).looked(*final(self)),
    {
        let mut steps: Vec<Draw> = Vec::new();
        proof {
            assert(shown(steps@) =~= Seq::<Shown>::empty());
        }
        put(&mut steps, Draw::HideCursor);
        put(&mut steps, Draw::Goto(Position::new(0, 0)));
        let text = self.draw_text();
        put_all(&mut steps, text);
        let top = match self.search_mode {
            SearchMode::Off => self.offset_y,
            SearchMode::Incremental => self.search_offset_y,
        };
        let shows = match self.search_mode {
            SearchMode::Off => false,
            SearchMode::Incremental => self.search_occurence_idx < self.search_occurences.len(),
        };
        if shows {
            let start = self.search_occurences[self.search_occurence_idx].start;
            let end = self.search_occurences[self.search_occurence_idx].end;
            let at = self.buffer.get_position_from_offset(start);
            let rows = self.draw_terminal_size().1;
            let below = match top.checked_add(rows) {
                Some(last) => at.y > last,
                None => false,
            };
            if at.y < top || below {
                self.search_offset_y = if at.y >= rows {
                    at.y - rows
                } else {
                    0
                };
                proof {
                    assert(shown(steps@) =~= old(self).buffer_frame());
                }
                return steps;
            }
            let place = Position::new(at.x, at.y - top);
            self.search_cursor_position = place;
            let found = self.buffer.piece_table().get(start, Some(end));
            put(&mut steps, Draw::Goto(place));
            if self.mode == EditorMode::Command {
                put(&mut steps, Draw::WriteColors(found, Color::Black, Color::LightYellow));
            } else {
                put(&mut steps, Draw::WriteColor(found, Color::Reset));
            }
        }
        put(&mut steps, Draw::ShowCursor);
        proof {
            assert(shown(steps@) =~= old(self).buffer_frame());
        }
        steps
    }

    /// The steps of one drawing: the terminal is cleared, the text and the
    /// bars are drawn, and the cursor is put where it is shown.
    pub fn draw(&mut self) -> (steps: Vec<Draw>)
        ensures
            exists|mid: Editor| #[trigger]
                old(self).looked(mid) && final(self).status@ == (if mid.untouched {
                    mid.status@
                } else {
                    mid.status_of()
                }) && shown(steps@) == seq![Shown::Clear] + old(self).buffer_frame()
                    + mid.status_frame() + mid.command_frame() + mid.debug_frame() + seq![
                    Shown::Goto(
                        Position { x: mid.column() as usize, y: mid.cursor_position.y },
                    ),
                    Shown::Flush,
                ],
            final(self).buffer == old(self).buffer,
            final(self).mode == old(self).mode,
            final(self).running == old(self).running,
            final(self).cursor_position == old(self).cursor_position,
            final(self).offset_y == old(self).offset_y,
    {
        let mut steps: Vec<Draw> = Vec::new();
        proof {
            assert(shown(steps@) =~= Seq::<Shown>::empty());
        }
        put(&mut steps, Draw::Clear);
        let text = self.draw_buffer();
        let ghost mid = *self;
        put_all(&mut steps, text);
        let status = self.draw_status_bar();
        put_all(&mut steps, status);
        let command = self.draw_command();
        put_all(&mut steps, command);
        let debug = self.draw_debug();
        put_all(&mut steps, debug);
        put(&mut steps, Draw::Goto(self.adjusted_cursor_position()));
        put(&mut steps, Draw::Flush);
        proof {
            assert(mid.command_frame() == self.command_frame());
            assert(mid.debug_frame() == self.debug_frame());
            assert(shown(steps@) =~= seq![Shown::Clear] + old(self).buffer_frame()
                + mid.status_frame() + mid.command_frame() + mid.debug_frame() + seq![
                Shown::Goto(Position { x: mid.column() as usize, y: mid.cursor_position.y }),
                Shown::Flush,
            ]);
        }
        steps
    }
}

} // verus!

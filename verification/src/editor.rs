//! The editor's state, and what each key press makes of it. Nothing here
//! reads a key or writes to a terminal: a key comes in as a value, and what
//! is to be shown or done outside goes out as values.

use crate::buffer::{after_last, Buffer};
use crate::chars::{contains, find_mark, holds, is_text, next_mark, to_chars, to_text};
use crate::key::Key;
use crate::line_endings::{CR, LF};
use crate::position::Position;
use crate::search::bounds;
use std::ops::Range;
use vstd::prelude::*;
use vstd::utf8::encode_utf8;

verus! {

/// What the keys mean at the moment.
#[derive(Debug, Clone, Copy, PartialEq, Eq, Structural)]
pub enum EditorMode {
    /// Keys move the cursor and start commands.
    Normal,
    /// Keys change the text.
    Insert,
    /// Keys go to the command line.
    Command,
}

/// Whether a search is being typed.
#[derive(Debug, Clone, Copy, PartialEq, Eq, Structural)]
pub enum SearchMode {
    /// No search is being typed.
    Off,
    /// Each key of the search text searches anew.
    Incremental,
}

/// What is to be done outside the editor after a key.
#[derive(Debug, PartialEq, Eq)]
pub enum Action {
    Nothing,
    /// Clear the terminal; the editor has stopped running.
    Quit,
    /// Write the buffer to its file, and tell the editor how it went.
    Save,
    /// Write the buffer to its file, tell the editor how it went, and then
    /// clear the terminal; the editor has stopped running.
    SaveAndQuit,
    /// Make the file of this name in the working directory the buffer's
    /// file, and write the buffer to it.
    Create(String),
}

/// The state of the editor.
pub struct Editor {
    /// The width and the height of the terminal.
    pub size: (u16, u16),
    /// The line of the document shown in the first row.
    pub offset_y: usize,
    /// The cursor, by column and row of the terminal.
    pub cursor_position: Position,
    /// The length of the line the cursor is on, as last measured.
    pub current_line_length: usize,
    pub status: String,
    /// The command line.
    pub command: Vec<char>,
    pub mode: EditorMode,
    /// The command line holds a message that stays when the mode changes.
    pub retain_command_text: bool,
    pub running: bool,
    /// No key has come in yet, and the buffer has no file.
    pub untouched: bool,
    pub debug_bar: bool,
    pub buffer: Buffer,
    /// The extension of the buffer's file.
    pub file_extension: String,
    pub search_mode: SearchMode,
    /// The matches of the last search.
    pub search_occurences: Vec<Range<usize>>,
    /// The match that the cursor was last sent to.
    pub search_occurence_idx: usize,
    /// The scroll offset while a search is typed.
    pub search_offset_y: usize,
    /// Where the match shown while a search is typed lies on the terminal.
    pub search_cursor_position: Position,
}

/// The lesser of two numbers.
pub open spec fn lesser(a: int, b: int) -> int {
    if a <= b {
        a
    } else {
        b
    }
}

/// `a - b`, and 0 where `b` is the greater.
pub open spec fn less(a: int, b: int) -> int {
    if a >= b {
        a - b
    } else {
        0
    }
}

/// `a + b`, and the greatest number of the machine's word where that is
/// less.
pub open spec fn more(a: int, b: int) -> int {
    if a + b <= usize::MAX {
        a + b
    } else {
        usize::MAX as int
    }
}

/// The name of the kind of file that an extension stands for.
pub open spec fn extension_name(extension: Seq<char>) -> Seq<char> {
    if extension == "rs"@ {
        "rust"@
    } else if extension == "toml"@ {
        "toml"@
    } else if extension == "txt"@ {
        "text"@
    } else {
        "unknown"@
    }
}

impl Editor {
    /// The number of rows in which text is shown: the height of the
    /// terminal less the four rows of the bars.
    pub open spec fn rows(&self) -> int {
        less(self.size.1 as int, 4)
    }

    /// The number of lines that a page key scrolls by.
    pub open spec fn page(&self) -> int {
        less(self.size.1 as int, 3)
    }

    /// The line of the document that the cursor is on.
    pub open spec fn line(&self) -> int {
        self.offset_y + self.cursor_position.y
    }

    /// The column in which the cursor is shown: its own, or the end of the
    /// line where the line is shorter.
    pub open spec fn column(&self) -> int {
        lesser(self.cursor_position.x as int, self.current_line_length as int)
    }

    /// The length of line `line` of the buffer, 0 for a line whose number
    /// the machine's word cannot hold.
    pub open spec fn length_at(&self, line: int) -> nat {
        if 0 <= line <= usize::MAX {
            self.buffer.line_length(line as usize)
        } else {
            0
        }
    }

    /// The buffer has the line.
    pub open spec fn has_line(&self, line: int) -> bool {
        0 <= line < self.buffer.lines()
    }

    /// The line the cursor is on has the column: a column no further than
    /// the end of the line, where the line is not empty or is the last line
    /// and the column its first.
    pub open spec fn has_column(&self, position: Position) -> bool {
        if position.x > self.current_line_length {
            false
        } else if position.y + 1 == self.buffer.lines() && position.x == 0
            && self.current_line_length == 0 {
            true
        } else {
            self.current_line_length != 0
        }
    }

    /// `after` differs from this editor in nothing but the cursor, the
    /// scroll offset and the remembered line length.
    pub open spec fn moved(&self, after: Editor) -> bool {
        &&& after.size == self.size
        &&& after.status == self.status
        &&& after.command == self.command
        &&& after.mode == self.mode
        &&& after.retain_command_text == self.retain_command_text
        &&& after.running == self.running
        &&& after.untouched == self.untouched
        &&& after.debug_bar == self.debug_bar
        &&& after.buffer == self.buffer
        &&& after.file_extension == self.file_extension
        &&& after.search_mode == self.search_mode
        &&& after.search_occurences == self.search_occurences
        &&& after.search_occurence_idx == self.search_occurence_idx
        &&& after.search_offset_y == self.search_offset_y
        &&& after.search_cursor_position == self.search_cursor_position
    }

    /// `after` is this editor with the cursor at `cursor` and the first row
    /// at the line `offset_y`.
    pub open spec fn placed(&self, after: Editor, cursor: Position, offset_y: int) -> bool {
        &&& self.moved(after)
        &&& after.cursor_position == cursor
        &&& after.offset_y == offset_y
        &&& after.current_line_length == self.current_line_length
    }

    /// `after` is this editor with the line the cursor is on measured anew.
    pub open spec fn measured(&self, after: Editor) -> bool {
        &&& self.moved(after)
        &&& after.cursor_position == self.cursor_position
        &&& after.offset_y == self.offset_y
        &&& after.current_line_length == self.length_at(self.line())
    }

    /// `after` is this editor with the cursor brought back to the end of
    /// its line where it stood beyond.
    pub open spec fn reset(&self, after: Editor) -> bool {
        self.placed(
            after,
            Position { x: self.column() as usize, y: self.cursor_position.y },
            self.offset_y as int,
        )
    }

    /// `after` is this editor a line further up: scrolled where the cursor
    /// stood in the first row and lines lay above, with the cursor moved
    /// where it did not stand in the first row; the line is measured anew.
    pub open spec fn gone_up(&self, after: Editor) -> bool {
        &&& self.moved(after)
        &&& after.offset_y == if self.cursor_position.y == 0 {
            less(self.offset_y as int, 1)
        } else {
            self.offset_y as int
        }
        &&& after.cursor_position == (Position {
            x: self.cursor_position.x,
            y: less(self.cursor_position.y as int, 1) as usize,
        })
        &&& after.current_line_length == after.length_at(after.line())
    }

    /// `after` is this editor a line further down, where the buffer has a
    /// next line: scrolled where the cursor stood in the last row, with the
    /// cursor moved otherwise; the line is measured anew.
    pub open spec fn gone_down(&self, after: Editor) -> bool {
        &&& self.moved(after)
        &&& after.cursor_position.x == self.cursor_position.x
        &&& if !self.has_line(self.line() + 1) {
            after.offset_y == self.offset_y && after.cursor_position.y == self.cursor_position.y
        } else if self.cursor_position.y == self.rows() {
            after.offset_y == self.offset_y + 1 && after.cursor_position.y
                == self.cursor_position.y
        } else {
            after.offset_y == self.offset_y && after.cursor_position.y == self.cursor_position.y
                + 1
        }
        &&& after.current_line_length == after.length_at(after.line())
    }

    /// The cursor can go right: the line has the column after the one in
    /// which the cursor is shown.
    pub open spec fn can_go_right(&self) -> bool {
        &&& self.column() + 1 <= usize::MAX
        &&& self.line() <= usize::MAX
        &&& self.has_column(
            Position { x: (self.column() + 1) as usize, y: self.line() as usize },
        )
    }

    /// `after` is this editor with the cursor a column further right, where
    /// the line has that column.
    pub open spec fn gone_right(&self, after: Editor) -> bool {
        self.placed(
            after,
            Position {
                x: if self.can_go_right() {
                    (self.column() + 1) as usize
                } else {
                    self.column() as usize
                },
                y: self.cursor_position.y,
            },
            self.offset_y as int,
        )
    }

    /// `after` is this editor with the cursor a column further left, where
    /// it was not shown in the first.
    pub open spec fn gone_left(&self, after: Editor) -> bool {
        self.placed(
            after,
            Position { x: less(self.column(), 1) as usize, y: self.cursor_position.y },
            self.offset_y as int,
        )
    }

    /// `after` is this editor scrolled up by a page, or to the first line
    /// where less than a page lay above; the line is measured anew.
    pub open spec fn paged_up(&self, after: Editor) -> bool {
        &&& self.moved(after)
        &&& after.cursor_position == self.cursor_position
        &&& after.offset_y == less(self.offset_y as int, self.page())
        &&& after.current_line_length == after.length_at(after.line())
    }

    /// `after` is this editor scrolled down by a page, where the buffer has
    /// lines beyond it; the line is measured anew.
    pub open spec fn paged_down(&self, after: Editor) -> bool {
        &&& self.moved(after)
        &&& after.cursor_position == self.cursor_position
        &&& after.offset_y == if self.offset_y + self.page() < self.buffer.lines() {
            self.offset_y + self.page()
        } else {
            self.offset_y as int
        }
        &&& after.current_line_length == after.length_at(after.line())
    }

    /// `after` is this editor with the cursor at the start of its line.
    pub open spec fn gone_home(&self, after: Editor) -> bool {
        self.placed(after, Position { x: 0, y: self.cursor_position.y }, self.offset_y as int)
    }

    /// `after` is this editor with the cursor at the end of its line.
    pub open spec fn gone_end(&self, after: Editor) -> bool {
        self.placed(
            after,
            Position { x: self.current_line_length, y: self.cursor_position.y },
            self.offset_y as int,
        )
    }

    /// An editor for the buffer, on a terminal of the given width and
    /// height.
    pub fn new(buffer: Buffer, size: (u16, u16)) -> (editor: Editor)
        ensures
            editor.size == size,
            editor.offset_y == 0,
            editor.cursor_position == (Position { x: 0, y: 0 }),
            editor.current_line_length == buffer.line_length(0),
            editor.status@ == Seq::<char>::empty(),
            editor.command@ == Seq::<char>::empty(),
            editor.mode == EditorMode::Normal,
            !editor.retain_command_text,
            editor.running,
            editor.untouched == (buffer.path() is None),
            !editor.debug_bar,
            editor.buffer == buffer,
            editor.file_extension@ == match buffer.path() {
                Some(path) => after_last(after_last(path, '/'), '.'),
                None => Seq::empty(),
            },
            editor.search_mode == SearchMode::Off,
            editor.search_occurences@ == Seq::<Range<usize>>::empty(),
            editor.search_occurence_idx == 0,
            editor.search_offset_y == 0,
            editor.search_cursor_position == (Position { x: 0, y: 0 }),
    {
        let file_extension = match buffer.file_extension() {
            Some(extension) => extension.to_owned(),
            None => String::new(),
        };
        let current_line_length = buffer.get_line_length(0);
        let untouched = buffer.file_path().is_none();
        Editor {
            size,
            offset_y: 0,
            cursor_position: Position::new(0, 0),
            current_line_length,
            status: String::new(),
            command: Vec::new(),
            mode: EditorMode::Normal,
            retain_command_text: false,
            running: true,
            untouched,
            debug_bar: false,
            buffer,
            file_extension,
            search_mode: SearchMode::Off,
            search_occurences: Vec::new(),
            search_occurence_idx: 0,
            search_cursor_position: Position::new(0, 0),
            search_offset_y: 0,
        }
    }

    /// Give the editor another buffer, and measure its first line.
    pub fn load_buffer(&mut self, buffer: Buffer)
        ensures
            final(self).buffer == buffer,
            final(self).current_line_length == buffer.line_length(0),
            final(self).size == old(self).size,
            final(self).offset_y == old(self).offset_y,
            final(self).cursor_position == old(self).cursor_position,
            final(self).status == old(self).status,
            final(self).command == old(self).command,
            final(self).mode == old(self).mode,
            final(self).retain_command_text == old(self).retain_command_text,
            final(self).running == old(self).running,
            final(self).untouched == old(self).untouched,
            final(self).debug_bar == old(self).debug_bar,
            final(self).file_extension == old(self).file_extension,
            final(self).search_mode == old(self).search_mode,
            final(self).search_occurences == old(self).search_occurences,
            final(self).search_occurence_idx == old(self).search_occurence_idx,
            final(self).search_offset_y == old(self).search_offset_y,
            final(self).search_cursor_position == old(self).search_cursor_position,
    {
        self.buffer = buffer;
        self.current_line_length = self.buffer.get_line_length(0);
    }

    /// Where the cursor is shown: in its column, or at the end of the line
    /// where the line is shorter.
    pub fn adjusted_cursor_position(&self) -> (position: Position)
        ensures
            position == (Position { x: self.column() as usize, y: self.cursor_position.y }),
    {
        let x = if self.cursor_position.x <= self.current_line_length {
            self.cursor_position.x
        } else {
            self.current_line_length
        };
        Position::new(x, self.cursor_position.y)
    }

    /// The width of the terminal and the number of rows for text.
    pub fn draw_terminal_size(&self) -> (size: (usize, usize))
        ensures
            size.0 == self.size.0,
            size.1 == self.rows(),
    {
        let rows = if self.size.1 >= 4 {
            self.size.1 - 4
        } else {
            0
        };
        (self.size.0 as usize, rows as usize)
    }

    /// The number of the line the cursor is on, where the machine's word
    /// holds it.
    fn cursor_line(&self) -> (line: Option<usize>)
        ensures
            line == if self.line() <= usize::MAX {
                Some(self.line() as usize)
            } else {
                None
            },
    {
        self.offset_y.checked_add(self.cursor_position.y)
    }

    /// Measure the line the cursor is on.
    fn measure(&mut self)
        ensures
            old(self).measured(*final(self)),
    {
        self.current_line_length = match self.cursor_line() {
            Some(line) => self.buffer.get_line_length(line),
            None => 0,
        };
    }

    /// Bring the cursor back to the end of its line where it stands beyond.
    pub fn reset_cursor(&mut self)
        ensures
            old(self).reset(*final(self)),
    {
        if self.cursor_position.x > self.current_line_length {
            self.cursor_position.x = self.current_line_length;
        }
    }

    /// Check if the buffer contains the line, counted from 0.
    pub fn is_valid_line(&self, line: usize) -> (valid: bool)
        ensures
            valid == self.has_line(line as int),
    {
        line < self.buffer.get_total_lines()
    }

    /// Check if the line the cursor is on contains the column, counted from
    /// 0; one place after the last character counts.
    pub fn is_valid_column(&self, position: &Position) -> (valid: bool)
        ensures
            valid == self.has_column(*position),
    {
        if position.x > self.current_line_length {
            return false;
        }
        let total = self.buffer.get_total_lines();
        let last_line = match position.y.checked_add(1) {
            Some(next) => next == total,
            None => false,
        };
        if last_line && position.x == 0 && self.current_line_length == 0 {
            return true;
        }
        if self.current_line_length == 0 {
            return false;
        }
        true
    }

    /// Move the cursor up by a line.
    pub fn move_up(&mut self)
        ensures
            old(self).gone_up(*final(self)),
    {
        if self.cursor_position.y == 0 && self.offset_y > 0 {
            self.offset_y -= 1;
        } else if self.cursor_position.y > 0 {
            self.cursor_position.y -= 1;
        }
        self.measure();
    }

    /// Move the cursor down by a line.
    pub fn move_down(&mut self)
        ensures
            old(self).gone_down(*final(self)),
    {
        let next_is_valid = match self.cursor_line() {
            Some(line) => match line.checked_add(1) {
                Some(next) => self.is_valid_line(next),
                None => false,
            },
            None => false,
        };
        if next_is_valid && self.cursor_position.y == self.draw_terminal_size().1 {
            self.offset_y += 1;
        } else if next_is_valid {
            self.cursor_position.y += 1;
        }
        self.measure();
    }

    /// Move the cursor right by a column.
    pub fn move_right(&mut self)
        ensures
            old(self).gone_right(*final(self)),
    {
        self.reset_cursor();
        let next = match self.cursor_position.x.checked_add(1) {
            Some(next) => next,
            None => {
                return ;
            },
        };
        let line = match self.cursor_line() {
            Some(line) => line,
            None => {
                return ;
            },
        };
        if self.is_valid_column(&Position::new(next, line)) {
            self.cursor_position.x = next;
        }
    }

    /// Move the cursor left by a column.
    pub fn move_left(&mut self)
        ensures
            old(self).gone_left(*final(self)),
    {
        self.reset_cursor();
        if self.cursor_position.x > 0 {
            self.cursor_position.x -= 1;
        }
    }

    /// Scroll up by a page.
    pub fn move_page_up(&mut self)
        ensures
            old(self).paged_up(*final(self)),
    {
        let height = if self.size.1 >= 3 {
            (self.size.1 - 3) as usize
        } else {
            0
        };
        if self.offset_y > height {
            self.offset_y -= height;
        } else {
            self.offset_y = 0;
        }
        self.measure();
    }

    /// Scroll down by a page.
    pub fn move_page_down(&mut self)
        ensures
            old(self).paged_down(*final(self)),
    {
        let total_lines = self.buffer.get_total_lines();
        let height = if self.size.1 >= 3 {
            (self.size.1 - 3) as usize
        } else {
            0
        };
        match self.offset_y.checked_add(height) {
            Some(next) => {
                if next < total_lines {
                    self.offset_y = next;
                }
            },
            None => {},
        }
        self.measure();
    }

    /// Moves the cursor to start of line.
    pub fn move_to_sol(&mut self)
        ensures
            old(self).gone_home(*final(self)),
    {
        self.cursor_position.x = 0;
    }

    /// Moves the cursor to end of line.
    pub fn move_to_eol(&mut self)
        ensures
            old(self).gone_end(*final(self)),
    {
        self.cursor_position.x = self.current_line_length;
    }

    /// `after` differs from this editor in nothing but the command line, the
    /// mode, the flags of the command line and the debug bar, and whether
    /// it runs.
    pub open spec fn told(&self, after: Editor) -> bool {
        &&& after.size == self.size
        &&& after.offset_y == self.offset_y
        &&& after.cursor_position == self.cursor_position
        &&& after.current_line_length == self.current_line_length
        &&& after.status == self.status
        &&& after.untouched == self.untouched
        &&& after.buffer == self.buffer
        &&& after.file_extension == self.file_extension
        &&& after.search_mode == self.search_mode
        &&& after.search_occurences == self.search_occurences
        &&& after.search_occurence_idx == self.search_occurence_idx
        &&& after.search_offset_y == self.search_offset_y
        &&& after.search_cursor_position == self.search_cursor_position
    }

    /// `after` is this editor with `command` in the command line, in the
    /// mode `mode`.
    pub open spec fn saying(&self, after: Editor, command: Seq<char>, mode: EditorMode) -> bool {
        &&& self.told(after)
        &&& after.command@ == command
        &&& after.mode == mode
        &&& after.retain_command_text == self.retain_command_text
        &&& after.debug_bar == self.debug_bar
        &&& after.running == self.running
    }

    /// The command line after it is cleared: empty, unless it holds a
    /// message that stays.
    pub open spec fn cleared(&self) -> Seq<char> {
        if self.retain_command_text {
            self.command@
        } else {
            Seq::empty()
        }
    }

    /// The command line after a change to `mode`: the insert mode announces
    /// itself, and the line is cleared on the way into the command mode and
    /// out of a mode other than the normal one.
    pub open spec fn command_in(&self, mode: EditorMode) -> Seq<char> {
        match mode {
            EditorMode::Insert => "-- INSERT --"@,
            EditorMode::Normal => if self.mode == EditorMode::Normal {
                self.command@
            } else {
                self.cleared()
            },
            EditorMode::Command => self.cleared(),
        }
    }

    /// `after` is this editor in the mode `mode`.
    pub open spec fn entered(&self, after: Editor, mode: EditorMode) -> bool {
        self.saying(after, self.command_in(mode), mode)
    }

    /// `after` is this editor with the debug bar shown where it was hidden
    /// and hidden where it was shown, and the command line cleared.
    pub open spec fn toggled(&self, after: Editor) -> bool {
        &&& self.told(after)
        &&& after.command@ == self.cleared()
        &&& after.mode == self.mode
        &&& after.retain_command_text == self.retain_command_text
        &&& after.debug_bar == !self.debug_bar
        &&& after.running == self.running
    }

    /// `after` is this editor, stopped.
    pub open spec fn stopped(&self, after: Editor) -> bool {
        &&& self.told(after)
        &&& after.command == self.command
        &&& after.mode == self.mode
        &&& after.retain_command_text == self.retain_command_text
        &&& after.debug_bar == self.debug_bar
        &&& !after.running
    }

    /// The help that `print_help` puts into the command line.
    pub open spec fn help() -> Seq<char> {
        "<C-q> - Exit, <C-w> - Save | Command: :q - quit, :w - write, :debug - toggle debug bar"@
    }

    /// Empty the command line, unless it holds a message that stays.
    pub fn clear_command(&mut self)
        ensures
            old(self).saying(*final(self), old(self).cleared(), old(self).mode),
    {
        if !self.retain_command_text {
            self.command.clear();
            self.retain_command_text = false;
        }
    }

    /// Change the mode.
    pub fn change_mode(&mut self, mode: EditorMode)
        ensures
            old(self).entered(*final(self), mode),
    {
        match mode {
            EditorMode::Insert => {
                self.command = to_chars("-- INSERT --");
            },
            EditorMode::Normal => {
                if self.mode == EditorMode::Command {
                    self.clear_command();
                } else if self.mode == EditorMode::Insert {
                    self.clear_command();
                }
            },
            EditorMode::Command => {
                self.clear_command();
            },
        }
        self.mode = mode;
    }

    /// Print the keybind information into the command bar.
    pub fn print_help(&mut self)
        ensures
            old(self).saying(*final(self), Self::help(), old(self).mode),
    {
        self.command = to_chars(
            "<C-q> - Exit, <C-w> - Save | Command: :q - quit, :w - write, :debug - toggle debug bar",
        );
    }

    /// Show the debug bar, or hide it.
    pub fn toggle_debug_bar(&mut self)
        ensures
            old(self).toggled(*final(self)),
    {
        self.debug_bar = !self.debug_bar;
        self.clear_command();
    }

    /// Stop running. The terminal is cleared outside.
    pub fn quit(&mut self)
        ensures
            old(self).stopped(*final(self)),
    {
        self.running = false;
    }

    /// The name of the kind of file that an extension stands for.
    pub fn get_extension_name(&self, extension: &str) -> (name: &'static str)
        ensures
            name@ == extension_name(extension@),
    {
        let chars = to_chars(extension);
        if is_text(chars.as_slice(), "rs") {
            "rust"
        } else if is_text(chars.as_slice(), "toml") {
            "toml"
        } else if is_text(chars.as_slice(), "txt") {
            "text"
        } else {
            "unknown"
        }
    }

    /// What the command line says once the buffer was written to `path`.
    pub open spec fn saved_to(path: Seq<char>) -> Seq<char> {
        "-- File saved to "@ + path + "."@
    }

    /// `after` is this editor after it has asked for the name of a file to
    /// make: in the command mode, with the prompt in the command line where
    /// a message stays there and with the line cleared where none does.
    pub open spec fn prompted(&self, after: Editor) -> bool {
        self.saying(
            after,
            if self.retain_command_text {
                "-- Create file:"@
            } else {
                Seq::empty()
            },
            EditorMode::Command,
        )
    }

    /// What the editor says once the buffer was written to `saved_to`, or
    /// could not be written: that the file was saved, or that a file is to
    /// be made.
    pub fn save_finished(&mut self, saved_to: Option<&str>)
        ensures
            match saved_to {
                Some(path) => old(self).saying(
                    *final(self),
                    Self::saved_to(path@),
                    old(self).mode,
                ),
                None => old(self).prompted(*final(self)),
            },
    {
        match saved_to {
            Some(path) => {
                let mut line = to_chars("-- File saved to ");
                let mut name = to_chars(path);
                let mut stop = to_chars(".");
                line.append(&mut name);
                line.append(&mut stop);
                self.command = line;
            },
            None => {
                self.command = to_chars("-- Create file:");
                self.change_mode(EditorMode::Command);
            },
        }
    }

    /// Make `path` the path of the buffer's file, and clear the command
    /// line.
    pub fn create_file(&mut self, path: String)
        ensures
            final(self).buffer.path() == Some(path@),
            final(self).buffer.table() == old(self).buffer.table(),
            final(self).command@ == old(self).cleared(),
            final(self).mode == old(self).mode,
            final(self).retain_command_text == old(self).retain_command_text,
            final(self).debug_bar == old(self).debug_bar,
            final(self).running == old(self).running,
            final(self).size == old(self).size,
            final(self).offset_y == old(self).offset_y,
            final(self).cursor_position == old(self).cursor_position,
            final(self).current_line_length == old(self).current_line_length,
            final(self).untouched == old(self).untouched,
            final(self).search_mode == old(self).search_mode,
            final(self).search_occurences == old(self).search_occurences,
            final(self).search_occurence_idx == old(self).search_occurence_idx,
            final(self).search_offset_y == old(self).search_offset_y,
            final(self).search_cursor_position == old(self).search_cursor_position,
    {
        self.buffer.set_file_path(path);
        self.clear_command();
    }

    /// The index of the match after the one last shown, the first match
    /// after the last; and the index of the match before it, the last match
    /// before the first.
    pub open spec fn turned(&self, forward: bool) -> int {
        let count = self.search_occurences@.len() as int;
        if forward {
            if self.search_occurence_idx + 1 < count {
                self.search_occurence_idx + 1
            } else {
                0
            }
        } else {
            if 0 < self.search_occurence_idx <= count {
                self.search_occurence_idx - 1
            } else {
                count - 1
            }
        }
    }

    /// `after` is this editor with the cursor on the next match, or on the
    /// one before: the view scrolls where the match lies outside it, so
    /// that the match stands in the last row on the way forward and in the
    /// first on the way back. Without matches nothing changes.
    pub open spec fn sought(&self, after: Editor, forward: bool) -> bool {
        if self.search_occurences@.len() == 0 {
            after == *self
        } else {
            let index = self.turned(forward);
            let at = self.buffer.table().position_of(self.search_occurences@[index].start);
            let offset_y = if at.y < self.offset_y || at.y > self.offset_y + self.rows() {
                if forward {
                    less(at.y as int, self.rows())
                } else {
                    at.y as int
                }
            } else {
                self.offset_y as int
            };
            &&& after.size == self.size
            &&& after.status == self.status
            &&& after.command == self.command
            &&& after.mode == self.mode
            &&& after.retain_command_text == self.retain_command_text
            &&& after.running == self.running
            &&& after.untouched == self.untouched
            &&& after.debug_bar == self.debug_bar
            &&& after.buffer == self.buffer
            &&& after.file_extension == self.file_extension
            &&& after.search_mode == self.search_mode
            &&& after.search_occurences == self.search_occurences
            &&& after.search_offset_y == self.search_offset_y
            &&& after.search_cursor_position == self.search_cursor_position
            &&& after.current_line_length == self.current_line_length
            &&& after.search_occurence_idx == index
            &&& after.offset_y == offset_y
            &&& after.cursor_position == (Position {
                x: at.x,
                y: less(at.y as int, offset_y) as usize,
            })
        }
    }

    /// Send the cursor to the match at `index`.
    fn show_match(&mut self, index: usize, forward: bool)
        requires
            index < old(self).search_occurences@.len(),
            index == old(self).turned(forward),
        ensures
            old(self).sought(*final(self), forward),
    {
        self.search_occurence_idx = index;
        let start = self.search_occurences[index].start;
        let at = self.buffer.get_position_from_offset(start);
        let rows = self.draw_terminal_size().1;
        let below = match self.offset_y.checked_add(rows) {
            Some(last) => at.y > last,
            None => false,
        };
        if at.y < self.offset_y || below {
            self.offset_y = if forward {
                if at.y >= rows {
                    at.y - rows
                } else {
                    0
                }
            } else {
                at.y
            };
        }
        let y = if at.y >= self.offset_y {
            at.y - self.offset_y
        } else {
            0
        };
        self.cursor_position = Position::new(at.x, y);
    }

    /// Send the cursor to the next match.
    pub fn search_next(&mut self)
        ensures
            old(self).sought(*final(self), true),
    {
        let count = self.search_occurences.len();
        if count == 0 {
            return ;
        }
        let index = if self.search_occurence_idx < count - 1 {
            self.search_occurence_idx + 1
        } else {
            0
        };
        self.show_match(index, true);
    }

    /// Send the cursor to the match before.
    pub fn search_previous(&mut self)
        ensures
            old(self).sought(*final(self), false),
    {
        let count = self.search_occurences.len();
        if count == 0 {
            return ;
        }
        let index = if self.search_occurence_idx > 0 && self.search_occurence_idx <= count {
            self.search_occurence_idx - 1
        } else {
            count - 1
        };
        self.show_match(index, false);
    }

    /// `after` differs from this editor in nothing but the buffer, the
    /// cursor, the scroll offset and the remembered line length.
    pub open spec fn edited(&self, after: Editor) -> bool {
        &&& after.size == self.size
        &&& after.status == self.status
        &&& after.command == self.command
        &&& after.mode == self.mode
        &&& after.retain_command_text == self.retain_command_text
        &&& after.running == self.running
        &&& after.untouched == self.untouched
        &&& after.debug_bar == self.debug_bar
        &&& after.file_extension == self.file_extension
        &&& after.search_mode == self.search_mode
        &&& after.search_occurences == self.search_occurences
        &&& after.search_occurence_idx == self.search_occurence_idx
        &&& after.search_offset_y == self.search_offset_y
        &&& after.search_cursor_position == self.search_cursor_position
    }

    /// The buffer of `after` is this editor's with `text` put in at the
    /// column `x` of the line `line`, and is the same buffer where the
    /// machine's word cannot hold the line's number or the place has no
    /// offset.
    pub open spec fn put(&self, after: Editor, text: Seq<u8>, x: int, line: int) -> bool {
        &&& after.buffer.path() == self.buffer.path()
        &&& match self.offset_at(x, line) {
            Some(offset) => self.buffer.table().with_text(after.buffer.table(), text, offset),
            None => after.buffer == self.buffer,
        }
    }

    /// The buffer of `after` is this editor's with `count` bytes taken out
    /// at the column `x` of the line `line`, and is the same buffer where
    /// the machine's word cannot hold the line's number or the place has no
    /// offset.
    pub open spec fn taken(&self, after: Editor, count: usize, x: int, line: int) -> bool {
        &&& after.buffer.path() == self.buffer.path()
        &&& match self.offset_at(x, line) {
            Some(offset) => self.buffer.table().without_text(
                after.buffer.table(),
                offset,
                count,
            ),
            None => after.buffer == self.buffer,
        }
    }

    /// The offset of the column `x` of the line `line`, where the machine's
    /// word holds both and the place has an offset.
    pub open spec fn offset_at(&self, x: int, line: int) -> Option<usize> {
        if 0 <= x <= usize::MAX && 0 <= line <= usize::MAX {
            self.buffer.table().offset_of(Position { x: x as usize, y: line as usize })
        } else {
            None
        }
    }

    /// `after` is this editor after the character `c` is typed into the
    /// text: the character stands where the cursor was shown, and the
    /// cursor a column further right.
    pub open spec fn typed(&self, after: Editor, c: char) -> bool {
        &&& self.edited(after)
        &&& self.put(after, encode_utf8(seq![c]), self.column(), self.line())
        &&& after.cursor_position == (Position {
            x: more(self.column(), 1) as usize,
            y: self.cursor_position.y,
        })
        &&& after.offset_y == self.offset_y
        &&& after.current_line_length == self.current_line_length
    }

    /// `after` is this editor after the line is broken where the cursor was
    /// shown: the line break stands there, and the cursor at the start of
    /// the next row.
    pub open spec fn broken(&self, after: Editor) -> bool {
        &&& self.edited(after)
        &&& self.put(after, seq![CR, LF], self.column(), self.line())
        &&& after.cursor_position == (Position {
            x: 0,
            y: more(self.cursor_position.y as int, 1) as usize,
        })
        &&& after.offset_y == self.offset_y
        &&& after.current_line_length == self.current_line_length
    }

    /// The command line is a search: a slash with a text after it.
    pub open spec fn is_search(command: Seq<char>) -> bool {
        command.len() > 1 && command[0] == '/'
    }

    /// `after` differs from this editor in nothing but the command line,
    /// the mode and the search.
    pub open spec fn searched(&self, after: Editor) -> bool {
        &&& after.size == self.size
        &&& after.offset_y == self.offset_y
        &&& after.cursor_position == self.cursor_position
        &&& after.current_line_length == self.current_line_length
        &&& after.status == self.status
        &&& after.retain_command_text == self.retain_command_text
        &&& after.running == self.running
        &&& after.untouched == self.untouched
        &&& after.debug_bar == self.debug_bar
        &&& after.buffer == self.buffer
        &&& after.file_extension == self.file_extension
        &&& after.search_occurence_idx == self.search_occurence_idx
        &&& after.search_cursor_position == self.search_cursor_position
    }

    /// `after` is this editor after the character `c` is typed into the
    /// command line: where the line is then a search, the matches are those
    /// of its text in the whole document, and the search shows as it is
    /// typed.
    pub open spec fn said(&self, after: Editor, c: char) -> bool {
        let command = self.command@.push(c);
        &&& self.searched(after)
        &&& after.command@ == command
        &&& after.mode == self.mode
        &&& after.search_offset_y == self.search_offset_y
        &&& if Self::is_search(command) {
            &&& after.search_mode == SearchMode::Incremental
            &&& bounds(after.search_occurences@) == self.buffer.table().found(
                encode_utf8(command.skip(1)),
                0,
                true,
            )
        } else {
            &&& after.search_mode == self.search_mode
            &&& after.search_occurences == self.search_occurences
        }
    }

    /// `after` is this editor after a key of the normal mode.
    pub open spec fn normal_key(&self, after: Editor, key: char) -> bool {
        if key == 'i' {
            self.entered(after, EditorMode::Insert)
        } else if key == 'k' {
            self.gone_up(after)
        } else if key == 'j' {
            self.gone_down(after)
        } else if key == 'h' {
            self.gone_left(after)
        } else if key == 'l' {
            self.gone_right(after)
        } else if key == '0' {
            self.gone_home(after)
        } else if key == '$' {
            self.gone_end(after)
        } else if key == 'A' {
            exists|mid: Editor| #[trigger] self.gone_end(mid) && mid.entered(after, EditorMode::Insert)
        } else if key == '/' {
            self.saying(after, self.cleared().push('/'), EditorMode::Command)
        } else if key == 'n' {
            self.sought(after, true)
        } else if key == 'N' {
            self.sought(after, false)
        } else {
            after == *self
        }
    }

    /// Act on a key of the normal mode: `i` and `A` lead to the insert
    /// mode, `/` to the command mode, `h`, `j`, `k`, `l`, `0` and `$` move
    /// the cursor, `n` and `N` go from match to match.
    pub fn handle_key_normal_mode(&mut self, key: char)
        ensures
            old(self).normal_key(*final(self), key),
    {
        if key == 'i' {
            self.change_mode(EditorMode::Insert);
        } else if key == 'k' {
            self.move_up();
        } else if key == 'j' {
            self.move_down();
        } else if key == 'h' {
            self.move_left();
        } else if key == 'l' {
            self.move_right();
        } else if key == '0' {
            self.move_to_sol();
        } else if key == '$' {
            self.move_to_eol();
        } else if key == 'A' {
            self.move_to_eol();
            let ghost mid = *self;
            self.change_mode(EditorMode::Insert);
            assert(old(self).gone_end(mid) && mid.entered(*self, EditorMode::Insert));
        } else if key == '/' {
            self.change_mode(EditorMode::Command);
            self.command.push('/');
        } else if key == 'n' {
            self.search_next();
        } else if key == 'N' {
            self.search_previous();
        }
    }

    /// Type a character into the text.
    pub fn type_char(&mut self, c: char)
        ensures
            old(self).typed(*final(self), c),
    {
        self.reset_cursor();
        let mut chars: Vec<char> = Vec::new();
        chars.push(c);
        let text = to_text(chars.as_slice());
        proof {
            assert(text@ =~= seq![c]);
        }
        match self.cursor_line() {
            Some(line) => {
                self.buffer.insert(text.as_str(), &Position::new(self.cursor_position.x, line));
            },
            None => {},
        }
        if self.cursor_position.x < usize::MAX {
            self.cursor_position.x += 1;
        }
    }

    /// Break the line where the cursor is.
    pub fn break_line(&mut self)
        ensures
            old(self).broken(*final(self)),
    {
        self.reset_cursor();
        match self.cursor_line() {
            Some(line) => {
                self.buffer.insert_new_line(&Position::new(self.cursor_position.x, line));
            },
            None => {},
        }
        self.cursor_position.x = 0;
        if self.cursor_position.y < usize::MAX {
            self.cursor_position.y += 1;
        }
    }

    /// Search the whole document for the text of the command line, the
    /// slash left out.
    fn search(&mut self, all: bool)
        requires
            Self::is_search(old(self).command@),
        ensures
            old(self).searched(*final(self)),
            final(self).command == old(self).command,
            final(self).mode == old(self).mode,
            final(self).search_mode == old(self).search_mode,
            final(self).search_offset_y == old(self).search_offset_y,
            bounds(final(self).search_occurences@) == old(self).buffer.table().found(
                encode_utf8(old(self).command@.skip(1)),
                0,
                all,
            ),
    {
        let needle = to_text(
            vstd::slice::slice_subrange(self.command.as_slice(), 1, self.command.len()),
        );
        proof {
            assert(needle@ =~= self.command@.skip(1));
        }
        self.search_occurences = self.buffer.find(needle.as_str(), 0, all);
    }

    /// Type a character into the command line.
    pub fn say(&mut self, c: char)
        ensures
            old(self).said(*final(self), c),
    {
        self.command.push(c);
        if self.command.len() > 1 && self.command[0] == '/' {
            self.search(true);
            self.search_mode = SearchMode::Incremental;
        }
    }

    /// `after` is this editor after the character before the cursor is
    /// erased from the command line: with no character left the editor is
    /// back in the normal mode, without matches; where the line is still a
    /// search, the matches are the first match of its text in each piece of
    /// the document.
    pub open spec fn unsaid(&self, after: Editor) -> bool {
        let command = self.command@.drop_last();
        &&& self.searched(after)
        &&& after.search_mode == self.search_mode
        &&& after.search_offset_y == self.search_offset_y
        &&& if command.len() == 0 {
            &&& after.command@ == Seq::<char>::empty()
            &&& after.mode == EditorMode::Normal
            &&& after.search_occurences@ == Seq::<Range<usize>>::empty()
        } else {
            &&& after.command@ == command
            &&& after.mode == self.mode
            &&& if Self::is_search(command) {
                bounds(after.search_occurences@) == self.buffer.table().found(
                    encode_utf8(command.skip(1)),
                    0,
                    false,
                )
            } else {
                after.search_occurences == self.search_occurences
            }
        }
    }

    /// `after` is this editor after the backspace key in the insert mode:
    /// the byte before the cursor is gone and the cursor a column further
    /// left, or, with the cursor in the first column of a row that is not
    /// the first, the two bytes at the end of the line above are gone and
    /// the cursor stands there; the line is measured anew. In the first
    /// column of the first row nothing changes.
    pub open spec fn erased(&self, after: Editor) -> bool {
        let x = self.column();
        let y = self.cursor_position.y as int;
        if x > 0 {
            &&& self.edited(after)
            &&& after.offset_y == self.offset_y
            &&& after.cursor_position == (Position { x: (x - 1) as usize, y: y as usize })
            &&& self.taken(after, 1, x - 1, self.line())
            &&& after.current_line_length == after.length_at(after.line())
        } else if y > 0 {
            let above = self.length_at(self.line() - 1) as int;
            &&& self.edited(after)
            &&& after.offset_y == self.offset_y
            &&& after.cursor_position == (Position { x: above as usize, y: (y - 1) as usize })
            &&& self.taken(after, 2, above, self.line() - 1)
            &&& after.current_line_length == after.length_at(after.line())
        } else {
            self.reset(after)
        }
    }

    /// `after` is this editor after the backspace key in the normal mode:
    /// the cursor is a column further left, or, in the first column of a
    /// row that is not the first, at the end of the line above.
    pub open spec fn backed(&self, after: Editor) -> bool {
        let x = self.column();
        let y = self.cursor_position.y as int;
        if x > 0 {
            self.placed(
                after,
                Position { x: (x - 1) as usize, y: y as usize },
                self.offset_y as int,
            )
        } else if y > 0 {
            let above = self.length_at(self.line() - 1);
            &&& self.moved(after)
            &&& after.offset_y == self.offset_y
            &&& after.cursor_position == (Position { x: above as usize, y: (y - 1) as usize })
            &&& after.current_line_length == above
        } else {
            self.reset(after)
        }
    }

    /// `after` is this editor after the backspace key.
    pub open spec fn backspaced(&self, after: Editor) -> bool {
        if self.mode == EditorMode::Command && self.command@.len() > 0 {
            self.unsaid(after)
        } else {
            match self.mode {
                EditorMode::Insert => self.erased(after),
                EditorMode::Normal => self.backed(after),
                EditorMode::Command => self.reset(after),
            }
        }
    }

    /// The length of the line above the one the cursor is on.
    fn line_above(&self) -> (length: usize)
        requires
            self.cursor_position.y > 0,
        ensures
            length == self.length_at(self.line() - 1),
    {
        match self.offset_y.checked_add(self.cursor_position.y - 1) {
            Some(line) => self.buffer.get_line_length(line),
            None => 0,
        }
    }

    /// Take `count` bytes out of the text at the cursor.
    fn delete_at_cursor(&mut self, count: usize)
        ensures
            old(self).edited(*final(self)),
            final(self).offset_y == old(self).offset_y,
            final(self).cursor_position == old(self).cursor_position,
            final(self).current_line_length == old(self).current_line_length,
            old(self).taken(
                *final(self),
                count,
                old(self).cursor_position.x as int,
                old(self).line(),
            ),
    {
        match self.cursor_line() {
            Some(line) => {
                self.buffer.delete(&Position::new(self.cursor_position.x, line), count);
            },
            None => {},
        }
    }

    /// Act on the backspace key.
    pub fn press_backspace(&mut self)
        ensures
            old(self).backspaced(*final(self)),
    {
        if self.mode == EditorMode::Command && self.command.len() > 0 {
            self.command.pop();
            assert(self.command@ =~= old(self).command@.drop_last());
            if self.command.len() == 0 {
                assert(self.command@ =~= Seq::<char>::empty());
                self.change_mode(EditorMode::Normal);
                self.search_occurences.clear();
            } else if self.command.len() > 1 && self.command[0] == '/' {
                self.search(false);
            }
            return ;
        }
        self.reset_cursor();
        match self.mode {
            EditorMode::Insert => {
                if self.cursor_position.x > 0 {
                    self.cursor_position.x -= 1;
                    self.delete_at_cursor(1);
                } else if self.cursor_position.y > 0 {
                    let line_len = self.line_above();
                    self.cursor_position.x = line_len;
                    self.cursor_position.y -= 1;
                    self.delete_at_cursor(2);
                } else {
                    return ;
                }
                self.measure();
            },
            EditorMode::Normal => {
                if self.cursor_position.x > 0 {
                    self.cursor_position.x -= 1;
                } else if self.cursor_position.y > 0 {
                    let line_len = self.line_above();
                    self.cursor_position.x = line_len;
                    self.cursor_position.y -= 1;
                    self.current_line_length = line_len;
                }
            },
            EditorMode::Command => {},
        }
    }

    /// `after` is this editor after the delete key: in the insert mode the
    /// byte at the cursor is gone, or the last byte of the line where the
    /// cursor stands at its end, and the remembered line length is one
    /// less; in another mode, in an empty line and beyond the end of the
    /// line nothing changes.
    pub open spec fn deleted(&self, after: Editor) -> bool {
        let x = self.cursor_position.x as int;
        let length = self.current_line_length as int;
        if self.mode == EditorMode::Insert && x <= length && length > 0 {
            let at = if x < length {
                x
            } else {
                length - 1
            };
            &&& self.edited(after)
            &&& after.offset_y == self.offset_y
            &&& after.cursor_position == (Position { x: at as usize, y: self.cursor_position.y })
            &&& after.current_line_length == length - 1
            &&& self.taken(after, 1, at, self.line())
        } else {
            after == *self
        }
    }

    /// Act on the delete key.
    pub fn press_delete(&mut self)
        ensures
            old(self).deleted(*final(self)),
    {
        if self.mode == EditorMode::Insert {
            if self.cursor_position.x < self.current_line_length {
                self.current_line_length -= 1;
                self.delete_at_cursor(1);
            } else if self.cursor_position.x == self.current_line_length
                && self.cursor_position.x > 0 {
                self.current_line_length -= 1;
                self.cursor_position.x = self.current_line_length;
                self.delete_at_cursor(1);
            }
        }
    }

    /// `after` is this editor after the escape key: out of the insert and
    /// the command mode it is back in the normal mode, with no search being
    /// typed.
    pub open spec fn escaped(&self, after: Editor) -> bool {
        if self.mode == EditorMode::Normal {
            after == *self
        } else {
            &&& self.searched(after)
            &&& after.command@ == self.cleared()
            &&& after.mode == EditorMode::Normal
            &&& after.search_mode == SearchMode::Off
            &&& after.search_offset_y == 0
            &&& after.search_occurences == self.search_occurences
        }
    }

    /// Act on the escape key.
    pub fn press_escape(&mut self)
        ensures
            old(self).escaped(*final(self)),
    {
        if self.mode == EditorMode::Insert || self.mode == EditorMode::Command {
            self.search_mode = SearchMode::Off;
            self.search_offset_y = 0;
            self.change_mode(EditorMode::Normal);
        }
    }

    /// `after` and `action` are what a wish to save makes of this editor:
    /// the buffer is to be written where it has a file, and a file is asked
    /// for where it has none.
    pub open spec fn saving(&self, after: Editor, action: Action) -> bool {
        if self.buffer.path() is Some {
            after == *self && action == Action::Save
        } else {
            self.prompted(after) && action == Action::Nothing
        }
    }

    /// Start to write the buffer to its file.
    pub fn save_buffer(&mut self) -> (action: Action)
        ensures
            old(self).saving(*final(self), action),
    {
        if self.buffer.file_path().is_some() {
            Action::Save
        } else {
            self.save_finished(None);
            Action::Nothing
        }
    }

    /// `after` and `action` are what a character key pressed together with
    /// the control key makes of this editor: `q` stops it, `w` saves.
    pub open spec fn controlled(&self, after: Editor, c: char, action: Action) -> bool {
        if c == 'q' {
            self.stopped(after) && action == Action::Quit
        } else if c == 'w' {
            self.saving(after, action)
        } else {
            after == *self && action == Action::Nothing
        }
    }

    /// Act on a character key pressed together with the control key.
    pub fn press_ctrl(&mut self, c: char) -> (action: Action)
        ensures
            old(self).controlled(*final(self), c, action),
    {
        if c == 'q' {
            self.quit();
            Action::Quit
        } else if c == 'w' {
            self.save_buffer()
        } else {
            Action::Nothing
        }
    }

    /// What stands in the command line before its first colon.
    pub open spec fn command_head(&self) -> Seq<char> {
        self.command@.take(next_mark(self.command@, ':', 0))
    }

    /// What stands in the command line between its first colon and its
    /// second, or the end of the line.
    pub open spec fn command_word(&self) -> Seq<char> {
        let first = next_mark(self.command@, ':', 0);
        self.command@.subrange(first + 1, next_mark(self.command@, ':', first + 1))
    }

    /// `after` is this editor after the search in the command line is
    /// confirmed: back in the normal mode, scrolled as the search had
    /// scrolled, with the cursor on the match shown where there was one.
    pub open spec fn found(&self, after: Editor) -> bool {
        &&& after.size == self.size
        &&& after.current_line_length == self.current_line_length
        &&& after.status == self.status
        &&& after.retain_command_text == self.retain_command_text
        &&& after.running == self.running
        &&& after.untouched == self.untouched
        &&& after.debug_bar == self.debug_bar
        &&& after.buffer == self.buffer
        &&& after.file_extension == self.file_extension
        &&& after.search_occurences == self.search_occurences
        &&& after.search_occurence_idx == self.search_occurence_idx
        &&& after.search_cursor_position == self.search_cursor_position
        &&& after.cursor_position == if self.search_occurences@.len() > 0 {
            self.search_cursor_position
        } else {
            self.cursor_position
        }
        &&& after.search_mode == SearchMode::Off
        &&& after.offset_y == self.search_offset_y
        &&& after.search_offset_y == 0
        &&& after.mode == EditorMode::Normal
        &&& after.command@ == self.command_in(EditorMode::Normal)
    }

    /// `after` is this editor after a command that it does not know: back
    /// in the normal mode, with a message in the command line that stays.
    pub open spec fn refused(&self, after: Editor) -> bool {
        &&& self.told(after)
        &&& after.command@ == "Command not found!"@
        &&& after.mode == EditorMode::Normal
        &&& after.retain_command_text
        &&& after.debug_bar == self.debug_bar
        &&& after.running == self.running
    }

    /// `after` and `action` are what the command `wq` makes of this editor:
    /// it stops, after the buffer is written where it has a file and after
    /// a file is asked for where it has none.
    pub open spec fn saving_to_quit(&self, after: Editor, action: Action) -> bool {
        if self.buffer.path() is Some {
            self.stopped(after) && action == Action::SaveAndQuit
        } else {
            &&& action == Action::Quit
            &&& exists|mid: Editor| #[trigger] self.prompted(mid) && mid.stopped(after)
        }
    }

    /// `after` and `action` are what the command line, run as a command,
    /// makes of this editor. A line that starts with a slash confirms the
    /// search. In another line the word after the first colon counts: `q`
    /// stops the editor, `w` saves, `wq` does both, `help` shows the keys
    /// and `debug` the debug bar; another word names the file to make where
    /// the line asks for one before the colon, and is refused where it does
    /// not. A line without a colon does nothing.
    pub open spec fn ran(&self, after: Editor, action: Action) -> bool {
        let command = self.command@;
        if command.len() > 0 && command[0] == '/' {
            self.found(after) && action == Action::Nothing
        } else if next_mark(command, ':', 0) >= command.len() {
            after == *self && action == Action::Nothing
        } else if self.command_word() == "q"@ {
            self.stopped(after) && action == Action::Quit
        } else if self.command_word() == "w"@ {
            self.saving(after, action)
        } else if self.command_word() == "wq"@ {
            self.saving_to_quit(after, action)
        } else if self.command_word() == "help"@ {
            self.saying(after, Self::help(), self.mode) && action == Action::Nothing
        } else if self.command_word() == "debug"@ {
            self.toggled(after) && action == Action::Nothing
        } else if holds(self.command_head(), "-- Create file"@) {
            &&& after == *self
            &&& action matches Action::Create(name) && name@ == self.command_word()
        } else {
            self.refused(after) && action == Action::Nothing
        }
    }

    /// Run the command line as a command.
    pub fn run_command(&mut self) -> (action: Action)
        ensures
            old(self).ran(*final(self), action),
    {
        if self.command.len() > 0 && self.command[0] == '/' {
            if self.search_occurences.len() > 0 {
                self.cursor_position = self.search_cursor_position;
            }
            self.search_mode = SearchMode::Off;
            self.offset_y = self.search_offset_y;
            self.search_offset_y = 0;
            self.change_mode(EditorMode::Normal);
            return Action::Nothing;
        }
        let length = self.command.len();
        let first = find_mark(self.command.as_slice(), ':', 0);
        if first >= length {
            return Action::Nothing;
        }
        let second = find_mark(self.command.as_slice(), ':', first + 1);
        let word = to_chars(
            to_text(vstd::slice::slice_subrange(self.command.as_slice(), first + 1, second)).as_str(),
        );
        let asked = to_chars("-- Create file");
        let asks = contains(
            vstd::slice::slice_subrange(self.command.as_slice(), 0, first),
            asked.as_slice(),
        );
        proof {
            assert(word@ =~= self.command_word());
            assert(self.command@.subrange(0, first as int) =~= self.command_head());
        }
        if is_text(word.as_slice(), "q") {
            self.quit();
            Action::Quit
        } else if is_text(word.as_slice(), "w") {
            self.save_buffer()
        } else if is_text(word.as_slice(), "wq") {
            let saving = self.save_buffer();
            let ghost mid = *self;
            self.quit();
            match saving {
                Action::Save => Action::SaveAndQuit,
                _ => {
                    assert(old(self).prompted(mid) && mid.stopped(*self));
                    Action::Quit
                },
            }
        } else if is_text(word.as_slice(), "help") {
            self.print_help();
            Action::Nothing
        } else if is_text(word.as_slice(), "debug") {
            self.toggle_debug_bar();
            Action::Nothing
        } else if asks {
            Action::Create(to_text(word.as_slice()))
        } else {
            self.command = to_chars("Command not found!");
            self.retain_command_text = true;
            self.change_mode(EditorMode::Normal);
            Action::Nothing
        }
    }

    /// `after` and `action` are what a character key makes of this editor,
    /// before the line is measured anew. The enter key moves down in the
    /// normal mode, breaks the line in the insert mode and runs the command
    /// in the command mode. A colon leads from the normal mode to the
    /// command mode. Another character is a key of the normal mode, goes
    /// into the text or goes into the command line, by the mode.
    pub open spec fn char_pressed(&self, after: Editor, c: char, action: Action) -> bool {
        if c == '\n' {
            match self.mode {
                EditorMode::Normal => self.gone_down(after) && action == Action::Nothing,
                EditorMode::Insert => self.broken(after) && action == Action::Nothing,
                EditorMode::Command => self.ran(after, action),
            }
        } else if c == ':' && self.mode == EditorMode::Normal {
            &&& self.saying(after, self.cleared().push(':'), EditorMode::Command)
            &&& action == Action::Nothing
        } else {
            &&& action == Action::Nothing
            &&& match self.mode {
                EditorMode::Normal => self.normal_key(after, c),
                EditorMode::Insert => self.typed(after, c),
                EditorMode::Command => self.said(after, c),
            }
        }
    }

    /// Act on a character key, and measure the line anew.
    pub fn press_char(&mut self, c: char) -> (action: Action)
        ensures
            exists|mid: Editor| #[trigger]
                old(self).char_pressed(mid, c, action) && mid.measured(*final(self)),
    {
        let mut action = Action::Nothing;
        if c == '\n' {
            match self.mode {
                EditorMode::Normal => {
                    self.move_down();
                },
                EditorMode::Insert => {
                    self.break_line();
                },
                EditorMode::Command => {
                    action = self.run_command();
                },
            }
        } else if c == ':' && self.mode == EditorMode::Normal {
            self.change_mode(EditorMode::Command);
            self.command.push(':');
        } else {
            match self.mode {
                EditorMode::Normal => {
                    self.handle_key_normal_mode(c);
                },
                EditorMode::Insert => {
                    self.type_char(c);
                },
                EditorMode::Command => {
                    self.say(c);
                },
            }
        }
        let ghost mid = *self;
        self.measure();
        assert(old(self).char_pressed(mid, c, action) && mid.measured(*self));
        action
    }

    /// This editor once a key has come in.
    pub open spec fn touched(&self) -> Editor {
        Editor { untouched: false, ..*self }
    }

    /// `after` and `action` are what a key makes of this editor.
    pub open spec fn pressed(&self, after: Editor, key: Key, action: Action) -> bool {
        let touched = self.touched();
        match key {
            Key::Char(c) => exists|mid: Editor| #[trigger]
                touched.char_pressed(mid, c, action) && mid.measured(after),
            Key::Ctrl(c) => touched.controlled(after, c, action),
            _ => {
                &&& action == Action::Nothing
                &&& match key {
                    Key::Esc => touched.escaped(after),
                    Key::Backspace => touched.backspaced(after),
                    Key::Delete => touched.deleted(after),
                    Key::Left => touched.gone_left(after),
                    Key::Right => touched.gone_right(after),
                    Key::Up => touched.gone_up(after),
                    Key::Down => touched.gone_down(after),
                    Key::Home => touched.gone_home(after),
                    Key::End => touched.gone_end(after),
                    Key::PageUp => touched.paged_up(after),
                    Key::PageDown => touched.paged_down(after),
                    _ => after == touched,
                }
            },
        }
    }

    /// Act on a key, and say what is to be done outside.
    pub fn handle_key(&mut self, key: Key) -> (action: Action)
        ensures
            old(self).pressed(*final(self), key, action),
    {
        self.untouched = false;
        assert(*self == old(self).touched());
        match key {
            Key::Char(c) => self.press_char(c),
            Key::Ctrl(c) => self.press_ctrl(c),
            Key::Esc => {
                self.press_escape();
                Action::Nothing
            },
            Key::Backspace => {
                self.press_backspace();
                Action::Nothing
            },
            Key::Delete => {
                self.press_delete();
                Action::Nothing
            },
            Key::Left => {
                self.move_left();
                Action::Nothing
            },
            Key::Right => {
                self.move_right();
                Action::Nothing
            },
            Key::Up => {
                self.move_up();
                Action::Nothing
            },
            Key::Down => {
                self.move_down();
                Action::Nothing
            },
            Key::Home => {
                self.move_to_sol();
                Action::Nothing
            },
            Key::End => {
                self.move_to_eol();
                Action::Nothing
            },
            Key::PageUp => {
                self.move_page_up();
                Action::Nothing
            },
            Key::PageDown => {
                self.move_page_down();
                Action::Nothing
            },
            Key::Other => Action::Nothing,
        }
    }
}

} // verus!

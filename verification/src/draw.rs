//! What the editor asks its terminal to show.

use crate::position::Position;
use vstd::prelude::*;

verus! {

/// A colour of the terminal.
#[derive(Debug, Clone, Copy, PartialEq, Eq, Structural)]
pub enum Color {
    Black,
    Blue,
    LightBlue,
    LightGreen,
    LightRed,
    LightWhite,
    LightYellow,
    Magenta,
    /// The terminal's own colour.
    Reset,
    White,
    Yellow,
    /// A colour by its red, green and blue parts.
    Rgb(u8, u8, u8),
}

/// One step of drawing.
#[derive(Debug, PartialEq, Eq)]
pub enum Draw {
    /// Clear the terminal.
    Clear,
    /// Send what was written so far to the terminal.
    Flush,
    HideCursor,
    ShowCursor,
    /// Move the cursor to a position, counted from 0.
    Goto(Position),
    /// Write a text where the cursor is.
    Write(String),
    /// Write a text in a colour.
    WriteColor(String, Color),
    /// Write a text in a colour on a background.
    WriteColors(String, Color, Color),
    /// Write a text of source code, coloured by its kind of file.
    Highlight(String),
}

/// A step of drawing, with its text as a sequence of characters.
pub enum Shown {
    Clear,
    Flush,
    HideCursor,
    ShowCursor,
    Goto(Position),
    Write(Seq<char>),
    WriteColor(Seq<char>, Color),
    WriteColors(Seq<char>, Color, Color),
    Highlight(Seq<char>),
}

impl View for Draw {
    type V = Shown;

    /// The step with its text as a sequence of characters.
    open spec fn view(&self) -> Shown {
        match self {
            Draw::Clear => Shown::Clear,
            Draw::Flush => Shown::Flush,
            Draw::HideCursor => Shown::HideCursor,
            Draw::ShowCursor => Shown::ShowCursor,
            Draw::Goto(position) => Shown::Goto(*position),
            Draw::Write(text) => Shown::Write(text@),
            Draw::WriteColor(text, color) => Shown::WriteColor(text@, *color),
            Draw::WriteColors(text, color, ground) => Shown::WriteColors(text@, *color, *ground),
            Draw::Highlight(text) => Shown::Highlight(text@),
        }
    }
}

/// The steps, each with its text as a sequence of characters.
pub open spec fn shown(steps: Seq<Draw>) -> Seq<Shown> {
    Seq::new(steps.len(), |k: int| steps[k]@)
}

/// Add a step to the steps.
pub fn put(steps: &mut Vec<Draw>, step: Draw)
    ensures
        shown(final(steps)@) == shown(old(steps)@).push(step@),
{
    steps.push(step);
    proof {
        assert(shown(steps@) =~= shown(old(steps)@).push(step@));
    }
}

/// Add steps to the steps.
pub fn put_all(steps: &mut Vec<Draw>, more: Vec<Draw>)
    ensures
        shown(final(steps)@) == shown(old(steps)@) + shown(more@),
{
    let ghost added = more@;
    let mut more = more;
    steps.append(&mut more);
    proof {
        assert(shown(steps@) =~= shown(old(steps)@) + shown(added));
    }
}

} // verus!

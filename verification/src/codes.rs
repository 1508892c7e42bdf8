//! The escape sequences that draw on a terminal, as `termion` gives them.

use crate::draw::{Color, Draw, Shown};
use crate::format::digits;
use vstd::prelude::*;

verus! {

/// The sequence that moves the cursor to column `x` of row `y`, both
/// counted from 1.
pub open spec fn goto_code(x: u16, y: u16) -> Seq<char> {
    "\x1B["@ + digits(y as nat) + ";"@ + digits(x as nat) + "H"@
}

/// The sequence that clears the terminal.
pub open spec fn clear_code() -> Seq<char> {
    "\x1B[2J"@
}

/// The sequence that hides the cursor.
pub open spec fn hide_code() -> Seq<char> {
    "\x1B[?25l"@
}

/// The sequence that shows the cursor.
pub open spec fn show_code() -> Seq<char> {
    "\x1B[?25h"@
}

/// The sequence that writes in the colour of a number.
pub open spec fn fg_value_code(value: u8) -> Seq<char> {
    "\x1B[38;5;"@ + digits(value as nat) + "m"@
}

/// The sequence that writes on the colour of a number.
pub open spec fn bg_value_code(value: u8) -> Seq<char> {
    "\x1B[48;5;"@ + digits(value as nat) + "m"@
}

/// The sequence that writes in a colour by its red, green and blue parts.
pub open spec fn fg_rgb_code(red: u8, green: u8, blue: u8) -> Seq<char> {
    "\x1B[38;2;"@ + digits(red as nat) + ";"@ + digits(green as nat) + ";"@ + digits(blue as nat)
        + "m"@
}

/// The sequence that writes on a colour by its red, green and blue parts.
pub open spec fn bg_rgb_code(red: u8, green: u8, blue: u8) -> Seq<char> {
    "\x1B[48;2;"@ + digits(red as nat) + ";"@ + digits(green as nat) + ";"@ + digits(blue as nat)
        + "m"@
}

/// The sequence that writes in the terminal's own colour again.
pub open spec fn fg_reset_code() -> Seq<char> {
    "\x1B[39m"@
}

/// The sequence that writes on the terminal's own colour again.
pub open spec fn bg_reset_code() -> Seq<char> {
    "\x1B[49m"@
}

/// The number of a colour that has a name.
pub open spec fn value_of(color: Color) -> u8 {
    match color {
        Color::Black => 0,
        Color::Yellow => 3,
        Color::Blue => 4,
        Color::Magenta => 5,
        Color::White => 7,
        Color::LightRed => 9,
        Color::LightGreen => 10,
        Color::LightYellow => 11,
        Color::LightBlue => 12,
        Color::LightWhite => 15,
        _ => 0,
    }
}

/// The sequence that writes in a colour.
pub open spec fn fg_code(color: Color) -> Seq<char> {
    match color {
        Color::Reset => fg_reset_code(),
        Color::Rgb(red, green, blue) => fg_rgb_code(red, green, blue),
        _ => fg_value_code(value_of(color)),
    }
}

/// The sequence that writes on a colour.
pub open spec fn bg_code(color: Color) -> Seq<char> {
    match color {
        Color::Reset => bg_reset_code(),
        Color::Rgb(red, green, blue) => bg_rgb_code(red, green, blue),
        _ => bg_value_code(value_of(color)),
    }
}

/// `text` is what switches to a colour: the colour's sequence, or nothing
/// where the colours are switched off outside; the terminal's own colour is
/// always switched to.
pub open spec fn switches(color: Color, code: Seq<char>, text: Seq<char>) -> bool {
    text == code || (color != Color::Reset && text == Seq::<char>::empty())
}

impl Shown {
    /// `text` is what is written to the terminal for the step: nothing for
    /// a flush, the text of a step that writes, between the sequences of its
    /// colours where it has colours, and the sequence of any other step.
    pub open spec fn renders(self, text: Seq<char>) -> bool {
        match self {
            Shown::Clear => text == clear_code(),
            Shown::Flush => text == Seq::<char>::empty(),
            Shown::HideCursor => text == hide_code(),
            Shown::ShowCursor => text == show_code(),
            Shown::Goto(position) => text == goto_code(
                (position.x + 1) as u16,
                (position.y + 1) as u16,
            ),
            Shown::Write(written) => text == written,
            Shown::Highlight(written) => text == written,
            Shown::WriteColor(written, color) => exists|on: Seq<char>|
                #![trigger switches(color, fg_code(color), on)]
                switches(color, fg_code(color), on) && text == on + written + fg_reset_code(),
            Shown::WriteColors(written, color, ground) => exists|on: Seq<char>, under: Seq<char>|
                #![trigger switches(color, fg_code(color), on), switches(ground, bg_code(ground), under)]
                switches(color, fg_code(color), on) && switches(ground, bg_code(ground), under)
                    && text == on + under + written + fg_reset_code() + bg_reset_code(),
        }
    }
}

/// The sequence for `termion::cursor::Goto`, by its `Display` form.
/// Believed, not proved: the sequence holds the row and then the column, in
/// decimal digits.
#[verifier::external_body]
fn goto_text(x: u16, y: u16) -> (code: String)
    requires
        x != 0 || y != 0,
    ensures
        code@ == goto_code(x, y),
{
    format!("{}", termion::cursor::Goto(x, y))
}

/// The sequence of `termion::clear::All`, by its `Display` form. Believed,
/// not proved.
#[verifier::external_body]
fn clear_text() -> (code: String)
    ensures
        code@ == clear_code(),
{
    format!("{}", termion::clear::All)
}

/// The sequence of `termion::cursor::Hide`, by its `Display` form.
/// Believed, not proved.
#[verifier::external_body]
fn hide_text() -> (code: String)
    ensures
        code@ == hide_code(),
{
    format!("{}", termion::cursor::Hide)
}

/// The sequence of `termion::cursor::Show`, by its `Display` form.
/// Believed, not proved.
#[verifier::external_body]
fn show_text() -> (code: String)
    ensures
        code@ == show_code(),
{
    format!("{}", termion::cursor::Show)
}

/// The `Display` form of `termion::color::Fg` for a colour by its number.
/// Believed, not proved: it is the colour's sequence, with the number in
/// decimal digits, or nothing where the colours are switched off outside.
#[verifier::external_body]
fn fg_value_text(value: u8) -> (code: String)
    ensures
        code@ == fg_value_code(value) || code@ == Seq::<char>::empty(),
{
    format!("{}", termion::color::Fg(termion::color::AnsiValue(value)))
}

/// The `Display` form of `termion::color::Bg` for a colour by its number.
/// Believed, not proved: it is the colour's sequence, with the number in
/// decimal digits, or nothing where the colours are switched off outside.
#[verifier::external_body]
fn bg_value_text(value: u8) -> (code: String)
    ensures
        code@ == bg_value_code(value) || code@ == Seq::<char>::empty(),
{
    format!("{}", termion::color::Bg(termion::color::AnsiValue(value)))
}

/// The `Display` form of `termion::color::Fg` for a colour by its parts.
/// Believed, not proved: it is the colour's sequence, with the parts in
/// decimal digits, or nothing where the colours are switched off outside.
#[verifier::external_body]
fn fg_rgb_text(red: u8, green: u8, blue: u8) -> (code: String)
    ensures
        code@ == fg_rgb_code(red, green, blue) || code@ == Seq::<char>::empty(),
{
    format!("{}", termion::color::Fg(termion::color::Rgb(red, green, blue)))
}

/// The `Display` form of `termion::color::Bg` for a colour by its parts.
/// Believed, not proved: it is the colour's sequence, with the parts in
/// decimal digits, or nothing where the colours are switched off outside.
#[verifier::external_body]
fn bg_rgb_text(red: u8, green: u8, blue: u8) -> (code: String)
    ensures
        code@ == bg_rgb_code(red, green, blue) || code@ == Seq::<char>::empty(),
{
    format!("{}", termion::color::Bg(termion::color::Rgb(red, green, blue)))
}

/// The `Display` form of `termion::color::Fg` for `termion::color::Reset`.
/// Believed, not proved.
#[verifier::external_body]
fn fg_reset_text() -> (code: String)
    ensures
        code@ == fg_reset_code(),
{
    format!("{}", termion::color::Fg(termion::color::Reset))
}

/// The `Display` form of `termion::color::Bg` for `termion::color::Reset`.
/// Believed, not proved.
#[verifier::external_body]
fn bg_reset_text() -> (code: String)
    ensures
        code@ == bg_reset_code(),
{
    format!("{}", termion::color::Bg(termion::color::Reset))
}

/// The number of a colour that has a name.
pub fn color_value(color: Color) -> (value: u8)
    ensures
        value == value_of(color),
{
    match color {
        Color::Black => 0,
        Color::Yellow => 3,
        Color::Blue => 4,
        Color::Magenta => 5,
        Color::White => 7,
        Color::LightRed => 9,
        Color::LightGreen => 10,
        Color::LightYellow => 11,
        Color::LightBlue => 12,
        Color::LightWhite => 15,
        _ => 0,
    }
}

/// What switches to writing in a colour.
pub fn fg(color: Color) -> (text: String)
    ensures
        switches(color, fg_code(color), text@),
{
    match color {
        Color::Reset => fg_reset_text(),
        Color::Rgb(red, green, blue) => fg_rgb_text(red, green, blue),
        _ => fg_value_text(color_value(color)),
    }
}

/// What switches to writing on a colour.
pub fn bg(color: Color) -> (text: String)
    ensures
        switches(color, bg_code(color), text@),
{
    match color {
        Color::Reset => bg_reset_text(),
        Color::Rgb(red, green, blue) => bg_rgb_text(red, green, blue),
        _ => bg_value_text(color_value(color)),
    }
}

/// A text between what switches to its colour and what switches back.
pub fn colored(written: &str, color: Color) -> (text: String)
    ensures
        Shown::WriteColor(written@, color).renders(text@),
{
    let on = fg(color);
    let text = on.clone().concat(written).concat(fg_reset_text().as_str());
    proof {
        assert(switches(color, fg_code(color), on@) && text@ == on@ + written@ + fg_reset_code());
    }
    text
}

/// A text between what switches to its colours and what switches back.
pub fn colored_on(written: &str, color: Color, ground: Color) -> (text: String)
    ensures
        Shown::WriteColors(written@, color, ground).renders(text@),
{
    let on = fg(color);
    let under = bg(ground);
    let text = on.clone().concat(under.as_str()).concat(written).concat(
        fg_reset_text().as_str(),
    ).concat(bg_reset_text().as_str());
    proof {
        assert(switches(color, fg_code(color), on@) && switches(ground, bg_code(ground), under@)
            && text@ == on@ + under@ + written@ + fg_reset_code() + bg_reset_code());
    }
    text
}

impl Draw {
    /// The step's position lies on a terminal: a terminal counts its
    /// columns and rows in sixteen bits, from 1.
    pub open spec fn on_terminal(&self) -> bool {
        self matches Draw::Goto(position) ==> position.x < u16::MAX && position.y < u16::MAX
    }

    /// What is to be written to the terminal for the step.
    pub fn code(&self) -> (text: String)
        requires
            self.on_terminal(),
        ensures
            self@.renders(text@),
    {
        match self {
            Draw::Clear => clear_text(),
            Draw::Flush => String::new(),
            Draw::HideCursor => hide_text(),
            Draw::ShowCursor => show_text(),
            Draw::Goto(position) => {
                let (x, y) = position.get_terminal();
                goto_text(x, y)
            },
            Draw::Write(written) => written.clone(),
            Draw::Highlight(written) => written.clone(),
            Draw::WriteColor(written, color) => colored(written.as_str(), *color),
            Draw::WriteColors(written, color, ground) => colored_on(
                written.as_str(),
                *color,
                *ground,
            ),
        }
    }
}

} // verus!

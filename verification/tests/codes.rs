use nimbus_text_editor::codes::{bg, color_value, colored, colored_on, fg};
use nimbus_text_editor::draw::{Color, Draw};
use nimbus_text_editor::position::Position;

/// Whether the colours are switched on: they are where some colour has a sequence.
fn colours_on() -> bool {
    !fg(Color::Black).is_empty()
}

fn on(code: &str) -> String {
    if colours_on() {
        code.to_string()
    } else {
        String::new()
    }
}

#[test]
fn steps_without_text_have_their_sequences() {
    assert_eq!(Draw::Clear.code(), "\x1b[2J");
    assert_eq!(Draw::HideCursor.code(), "\x1b[?25l");
    assert_eq!(Draw::ShowCursor.code(), "\x1b[?25h");
    assert_eq!(Draw::Flush.code(), "");
}

#[test]
fn the_cursor_goes_to_a_row_and_a_column_counted_from_one() {
    assert_eq!(Draw::Goto(Position::new(0, 0)).code(), "\x1b[1;1H");
    assert_eq!(Draw::Goto(Position::new(4, 2)).code(), "\x1b[3;5H");
    assert_eq!(Draw::Goto(Position::new(79, 23)).code(), "\x1b[24;80H");
    assert_eq!(
        Draw::Goto(Position::new(65534, 65534)).code(),
        "\x1b[65535;65535H"
    );
}

#[test]
fn a_text_is_written_as_it_stands() {
    assert_eq!(Draw::Write("File \x1b is read.".to_string()).code(), "File \x1b is read.");
    assert_eq!(Draw::Highlight("fn main() {}".to_string()).code(), "fn main() {}");
    assert_eq!(Draw::Write(String::new()).code(), "");
}

#[test]
fn a_colour_has_the_sequence_of_its_number() {
    for (color, value) in [
        (Color::Black, 0),
        (Color::Yellow, 3),
        (Color::Blue, 4),
        (Color::Magenta, 5),
        (Color::White, 7),
        (Color::LightRed, 9),
        (Color::LightGreen, 10),
        (Color::LightYellow, 11),
        (Color::LightBlue, 12),
        (Color::LightWhite, 15),
    ] {
        assert_eq!(color_value(color), value);
        assert_eq!(fg(color), on(&format!("\x1b[38;5;{}m", value)));
        assert_eq!(bg(color), on(&format!("\x1b[48;5;{}m", value)));
    }
    assert_eq!(fg(Color::Rgb(200, 84, 60)), on("\x1b[38;2;200;84;60m"));
    assert_eq!(bg(Color::Rgb(0, 255, 7)), on("\x1b[48;2;0;255;7m"));
    assert_eq!(fg(Color::Reset), "\x1b[39m");
    assert_eq!(bg(Color::Reset), "\x1b[49m");
}

#[test]
fn a_coloured_text_stands_between_its_sequences() {
    assert_eq!(
        colored("hi", Color::Yellow),
        on("\x1b[38;5;3m") + "hi\x1b[39m"
    );
    assert_eq!(
        Draw::WriteColor("hi".to_string(), Color::Reset).code(),
        "\x1b[39mhi\x1b[39m"
    );
    assert_eq!(
        colored_on("st", Color::Black, Color::Magenta),
        on("\x1b[38;5;0m\x1b[48;5;5m") + "st\x1b[39m\x1b[49m"
    );
    assert_eq!(
        Draw::WriteColors("st".to_string(), Color::Black, Color::LightYellow).code(),
        on("\x1b[38;5;0m\x1b[48;5;11m") + "st\x1b[39m\x1b[49m"
    );
}

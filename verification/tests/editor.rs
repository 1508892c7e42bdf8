use nimbus_text_editor::buffer::Buffer;
use nimbus_text_editor::draw::{Color, Draw};
use nimbus_text_editor::editor::{Action, Editor, EditorMode, SearchMode};
use nimbus_text_editor::key::Key;
use nimbus_text_editor::position::Position;

fn editor_for(text: &str) -> Editor {
    Editor::new(Buffer::from_string(text.to_string()), (80, 24))
}

fn whole(editor: &Editor) -> String {
    editor.buffer.get(&Position::new(0, 0), None)
}

fn press(editor: &mut Editor, keys: &str) {
    for c in keys.chars() {
        assert_eq!(editor.handle_key(Key::Char(c)), Action::Nothing);
    }
}

#[test]
fn editor_test_is_valid_column() {
    let buffer = Buffer::from_string("File is read.\r\nThe hero lied.\r\nThe end.".to_string());
    let mut editor = Editor::new(buffer, (80, 24));

    assert!(editor.is_valid_column(&Position::new(0, 0)));
    assert!(editor.is_valid_column(&Position::new(13, 0)));

    editor.move_down();
    assert!(editor.is_valid_column(&Position::new(0, 1)));
    assert!(editor.is_valid_column(&Position::new(14, 1)));

    editor.move_down();
    assert!(editor.is_valid_column(&Position::new(0, 2)));
    assert!(editor.is_valid_column(&Position::new(8, 2)));
}

#[test]
fn editor_test_is_valid_line() {
    let buffer = Buffer::from_string("File is read.\r\nThe hero lied.\r\nThe end.".to_string());
    let editor = Editor::new(buffer, (80, 24));

    assert!(editor.is_valid_line(0));
    assert!(editor.is_valid_line(1));
    assert!(editor.is_valid_line(2));
    assert!(!editor.is_valid_line(3));
    assert!(!editor.is_valid_line(4));

    let buffer =
        Buffer::from_string("File is read.\r\nThe hero lied.\r\nThe end.\r\n".to_string());
    let editor = Editor::new(buffer, (80, 24));

    assert!(editor.is_valid_line(3));
    assert!(!editor.is_valid_line(4));
}

#[test]
fn tests_test_is_valid_line() {
    let buffer = Buffer::from_string("File is read.\r\nThe hero lied.\r\nThe end.".to_string());
    let editor = Editor::new(buffer, (80, 24));

    assert!(editor.is_valid_line(0));
    assert!(editor.is_valid_line(1));
    assert!(editor.is_valid_line(2));
    assert!(!editor.is_valid_line(3));
    assert!(!editor.is_valid_line(4));

    let buffer = Buffer::from_string("File is read.\r\nThe hero lied.\r\nThe end.\r\n".to_string());
    let editor = Editor::new(buffer, (80, 24));

    assert!(editor.is_valid_line(3));
    assert!(!editor.is_valid_line(4));
}

#[test]
fn test_buffer_test_is_valid_line() {
    let file = String::from("File is read.\r\nThe hero lied.\r\nThe end.");
    let editor = Editor::new(Buffer::from_string(file), (80, 24));

    assert!(editor.is_valid_line(0));
    assert!(editor.is_valid_line(1));
    assert!(editor.is_valid_line(2));
    assert!(!editor.is_valid_line(3));
    assert!(!editor.is_valid_line(4));

    let file = String::from("File is read.\r\nThe hero lied.\r\nThe end.\r\n");
    let editor = Editor::new(Buffer::from_string(file), (80, 24));

    assert!(editor.is_valid_line(3));
    assert!(!editor.is_valid_line(4));
}

#[test]
fn editor_test_editor_complex_1() {
    let buffer =
        Buffer::from_string("File is read.\r\nThe hero lied.\r\nThe end.\r\n".to_string());
    let mut editor = Editor::new(buffer, (80, 24));

    editor.buffer.delete(&Position::new(14, 1), 2);
    assert_eq!(
        editor.buffer.get(&Position::new(0, 0), None),
        "File is read.\r\nThe hero lied.The end.\r\n"
    );

    assert_eq!(editor.buffer.get_line_length(1), 22);
    assert_eq!(editor.buffer.get_total_lines(), 3);

    editor.move_down();
    assert!(editor.is_valid_column(&Position { x: 22, y: 1 }));
    assert!(!editor.is_valid_column(&Position { x: 23, y: 1 }));
    assert!(editor.is_valid_line(1));
    assert!(editor.is_valid_line(2));
    assert!(!editor.is_valid_line(3));
}

#[test]
fn new_editor_starts_in_normal_mode_at_the_top() {
    let editor = editor_for("File is read.\r\nThe hero lied.");
    assert_eq!(editor.mode, EditorMode::Normal);
    assert_eq!(editor.cursor_position, Position::new(0, 0));
    assert_eq!(editor.offset_y, 0);
    assert_eq!(editor.current_line_length, 13);
    assert!(editor.running);
    assert!(editor.untouched);
    assert_eq!(editor.file_extension, "");
    assert_eq!(editor.draw_terminal_size(), (80, 20));
}

#[test]
fn editor_knows_the_extension_of_its_file() {
    let mut buffer = Buffer::from_string("fn main() {}".to_string());
    buffer.set_file_path("/tmp/src/main.rs".to_string());
    let editor = Editor::new(buffer, (80, 24));
    assert!(!editor.untouched);
    assert_eq!(editor.file_extension, "rs");
    assert_eq!(editor.get_extension_name("rs"), "rust");
    assert_eq!(editor.get_extension_name("toml"), "toml");
    assert_eq!(editor.get_extension_name("txt"), "text");
    assert_eq!(editor.get_extension_name(""), "unknown");
    assert_eq!(editor.get_extension_name("md"), "unknown");
}

#[test]
fn typing_in_insert_mode_changes_the_text() {
    let mut editor = editor_for("File is read.\r\nThe hero lied.");
    press(&mut editor, "i");
    assert_eq!(editor.mode, EditorMode::Insert);
    assert_eq!(editor.command.iter().collect::<String>(), "-- INSERT --");
    press(&mut editor, "A ");
    assert_eq!(whole(&editor), "A File is read.\r\nThe hero lied.");
    assert_eq!(editor.cursor_position, Position::new(2, 0));
    assert_eq!(editor.current_line_length, 15);
    assert!(!editor.untouched);
}

#[test]
fn enter_in_insert_mode_breaks_the_line() {
    let mut editor = editor_for("File is read.");
    press(&mut editor, "i");
    for _ in 0..4 {
        editor.handle_key(Key::Right);
    }
    press(&mut editor, "\n");
    assert_eq!(whole(&editor), "File\r\n is read.");
    assert_eq!(editor.cursor_position, Position::new(0, 1));
    assert_eq!(editor.current_line_length, 9);
}

#[test]
fn backspace_in_insert_mode_erases_before_the_cursor() {
    let mut editor = editor_for("File is read.\r\nThe hero lied.");
    press(&mut editor, "i");
    editor.handle_key(Key::Right);
    editor.handle_key(Key::Right);
    editor.handle_key(Key::Backspace);
    assert_eq!(whole(&editor), "Fle is read.\r\nThe hero lied.");
    assert_eq!(editor.cursor_position, Position::new(1, 0));
    assert_eq!(editor.current_line_length, 12);
}

#[test]
fn backspace_at_the_start_of_a_line_joins_it_to_the_line_above() {
    let mut editor = editor_for("File is read.\r\nThe hero lied.");
    press(&mut editor, "i");
    editor.handle_key(Key::Down);
    editor.handle_key(Key::Backspace);
    assert_eq!(whole(&editor), "File is read.The hero lied.");
    assert_eq!(editor.cursor_position, Position::new(13, 0));
}

#[test]
fn backspace_in_the_first_column_of_the_first_row_changes_nothing() {
    let mut editor = editor_for("File is read.");
    press(&mut editor, "i");
    editor.handle_key(Key::Backspace);
    assert_eq!(whole(&editor), "File is read.");
    assert_eq!(editor.cursor_position, Position::new(0, 0));
}

#[test]
fn delete_in_insert_mode_erases_at_the_cursor() {
    let mut editor = editor_for("File is read.");
    press(&mut editor, "i");
    editor.handle_key(Key::Delete);
    assert_eq!(whole(&editor), "ile is read.");
    assert_eq!(editor.current_line_length, 12);
    editor.handle_key(Key::End);
    editor.handle_key(Key::Delete);
    assert_eq!(whole(&editor), "ile is read");
    assert_eq!(editor.cursor_position, Position::new(11, 0));
}

#[test]
fn delete_in_normal_mode_changes_nothing() {
    let mut editor = editor_for("File is read.");
    editor.handle_key(Key::Delete);
    assert_eq!(whole(&editor), "File is read.");
}

#[test]
fn the_cursor_moves_within_the_text() {
    let mut editor = editor_for("File is read.\r\nThe hero lied.\r\nThe end.");
    press(&mut editor, "l");
    assert_eq!(editor.cursor_position, Position::new(1, 0));
    press(&mut editor, "$");
    assert_eq!(editor.cursor_position, Position::new(13, 0));
    press(&mut editor, "l");
    assert_eq!(editor.cursor_position, Position::new(13, 0));
    press(&mut editor, "j");
    assert_eq!(editor.cursor_position, Position::new(13, 1));
    assert_eq!(editor.current_line_length, 14);
    press(&mut editor, "jj");
    assert_eq!(editor.cursor_position, Position::new(13, 2));
    assert_eq!(editor.current_line_length, 8);
    assert_eq!(editor.adjusted_cursor_position(), Position::new(8, 2));
    press(&mut editor, "h");
    assert_eq!(editor.cursor_position, Position::new(7, 2));
    press(&mut editor, "0");
    assert_eq!(editor.cursor_position, Position::new(0, 2));
    press(&mut editor, "kkk");
    assert_eq!(editor.cursor_position, Position::new(0, 0));
    editor.handle_key(Key::End);
    editor.handle_key(Key::Left);
    assert_eq!(editor.cursor_position, Position::new(12, 0));
    editor.handle_key(Key::Home);
    assert_eq!(editor.cursor_position, Position::new(0, 0));
}

#[test]
fn the_view_scrolls_when_the_cursor_leaves_it() {
    let text = "a\r\n".repeat(30);
    let mut editor = Editor::new(Buffer::from_string(text), (80, 8));
    assert_eq!(editor.draw_terminal_size().1, 4);
    for _ in 0..4 {
        editor.handle_key(Key::Down);
    }
    assert_eq!(editor.cursor_position.y, 4);
    assert_eq!(editor.offset_y, 0);
    editor.handle_key(Key::Down);
    assert_eq!(editor.cursor_position.y, 4);
    assert_eq!(editor.offset_y, 1);
    editor.handle_key(Key::PageDown);
    assert_eq!(editor.offset_y, 6);
    editor.handle_key(Key::PageUp);
    assert_eq!(editor.offset_y, 1);
    editor.handle_key(Key::PageUp);
    assert_eq!(editor.offset_y, 0);
    for _ in 0..4 {
        editor.handle_key(Key::Up);
    }
    assert_eq!(editor.cursor_position.y, 0);
    editor.handle_key(Key::Up);
    assert_eq!(editor.cursor_position.y, 0);
    assert_eq!(editor.offset_y, 0);
}

#[test]
fn escape_leads_back_to_normal_mode() {
    let mut editor = editor_for("File is read.");
    press(&mut editor, "i");
    editor.handle_key(Key::Esc);
    assert_eq!(editor.mode, EditorMode::Normal);
    assert!(editor.command.is_empty());
    press(&mut editor, ":");
    assert_eq!(editor.mode, EditorMode::Command);
    assert_eq!(editor.command, vec![':']);
    editor.handle_key(Key::Esc);
    assert_eq!(editor.mode, EditorMode::Normal);
    assert!(editor.command.is_empty());
}

#[test]
fn the_command_q_quits() {
    let mut editor = editor_for("File is read.");
    press(&mut editor, ":q");
    assert_eq!(editor.handle_key(Key::Char('\n')), Action::Quit);
    assert!(!editor.running);
}

#[test]
fn control_q_quits() {
    let mut editor = editor_for("File is read.");
    assert_eq!(editor.handle_key(Key::Ctrl('q')), Action::Quit);
    assert!(!editor.running);
    let mut editor = editor_for("File is read.");
    assert_eq!(editor.handle_key(Key::Ctrl('x')), Action::Nothing);
    assert!(editor.running);
}

#[test]
fn saving_a_buffer_with_a_file_is_done_outside() {
    let mut buffer = Buffer::from_string("File is read.".to_string());
    buffer.set_file_path("/tmp/file.txt".to_string());
    let mut editor = Editor::new(buffer, (80, 24));
    assert_eq!(editor.handle_key(Key::Ctrl('w')), Action::Save);
    editor.save_finished(Some("/tmp/file.txt"));
    assert_eq!(
        editor.command.iter().collect::<String>(),
        "-- File saved to /tmp/file.txt."
    );
    press(&mut editor, ":wq");
    assert_eq!(editor.handle_key(Key::Char('\n')), Action::SaveAndQuit);
    assert!(!editor.running);
}

#[test]
fn saving_a_buffer_without_a_file_asks_for_one() {
    let mut editor = editor_for("File is read.");
    assert_eq!(editor.handle_key(Key::Ctrl('w')), Action::Nothing);
    assert_eq!(editor.mode, EditorMode::Command);
    assert!(editor.command.is_empty());
    let mut editor = editor_for("File is read.");
    press(&mut editor, ":w");
    assert_eq!(editor.handle_key(Key::Char('\n')), Action::Nothing);
    assert_eq!(editor.mode, EditorMode::Command);
    let mut editor = editor_for("File is read.");
    press(&mut editor, ":wq");
    assert_eq!(editor.handle_key(Key::Char('\n')), Action::Quit);
    assert!(!editor.running);
}

#[test]
fn a_name_after_the_prompt_makes_a_file() {
    let mut editor = editor_for("File is read.");
    editor.mode = EditorMode::Command;
    editor.command = "-- Create file:notes.txt".chars().collect();
    assert_eq!(
        editor.run_command(),
        Action::Create("notes.txt".to_string())
    );
    editor.create_file("/tmp/notes.txt".to_string());
    assert_eq!(editor.buffer.file_path(), Some("/tmp/notes.txt"));
    assert!(editor.command.is_empty());
}

#[test]
fn an_unknown_command_is_refused() {
    let mut editor = editor_for("File is read.");
    press(&mut editor, ":frobnicate\n");
    assert_eq!(editor.mode, EditorMode::Normal);
    assert_eq!(
        editor.command.iter().collect::<String>(),
        "Command not found!"
    );
    assert!(editor.retain_command_text);
    press(&mut editor, "i");
    editor.handle_key(Key::Esc);
    assert_eq!(
        editor.command.iter().collect::<String>(),
        "-- INSERT --"
    );
}

#[test]
fn help_and_debug_are_commands() {
    let mut editor = editor_for("File is read.");
    press(&mut editor, ":help\n");
    assert_eq!(
        editor.command.iter().collect::<String>(),
        "<C-q> - Exit, <C-w> - Save | Command: :q - quit, :w - write, :debug - toggle debug bar"
    );
    assert_eq!(editor.mode, EditorMode::Command);
    editor.handle_key(Key::Esc);
    press(&mut editor, ":debug\n");
    assert!(editor.debug_bar);
    assert!(editor.command.is_empty());
}

#[test]
fn a_command_line_without_a_colon_does_nothing() {
    let mut editor = editor_for("File is read.");
    editor.mode = EditorMode::Command;
    editor.command = "q".chars().collect();
    assert_eq!(editor.run_command(), Action::Nothing);
    assert!(editor.running);
    assert_eq!(editor.mode, EditorMode::Command);
}

#[test]
fn a_search_finds_as_it_is_typed() {
    let mut editor = editor_for(
        "File is read.\r\nThe hero lied.\r\nThe end.\r\nThe hero rises once more.",
    );
    press(&mut editor, "/");
    assert_eq!(editor.mode, EditorMode::Command);
    assert_eq!(editor.search_mode, SearchMode::Off);
    press(&mut editor, "hero");
    assert_eq!(editor.search_mode, SearchMode::Incremental);
    assert_eq!(editor.search_occurences, vec![19..23, 45..49]);
    editor.handle_key(Key::Backspace);
    assert_eq!(editor.search_occurences, vec![19..22]);
    press(&mut editor, "o");
    assert_eq!(editor.search_occurences, vec![19..23, 45..49]);
    let steps = editor.draw_buffer();
    assert_eq!(editor.search_cursor_position, Position::new(4, 1));
    assert_eq!(
        steps[steps.len() - 3..],
        [
            Draw::Goto(Position::new(4, 1)),
            Draw::WriteColors("hero".to_string(), Color::Black, Color::LightYellow),
            Draw::ShowCursor,
        ]
    );
    press(&mut editor, "\n");
    assert_eq!(editor.mode, EditorMode::Normal);
    assert_eq!(editor.search_mode, SearchMode::Off);
    assert_eq!(editor.cursor_position, Position::new(4, 1));
    press(&mut editor, "n");
    assert_eq!(editor.search_occurence_idx, 1);
    assert_eq!(editor.cursor_position, Position::new(4, 3));
    press(&mut editor, "n");
    assert_eq!(editor.search_occurence_idx, 0);
    assert_eq!(editor.cursor_position, Position::new(4, 1));
    press(&mut editor, "N");
    assert_eq!(editor.search_occurence_idx, 1);
    assert_eq!(editor.cursor_position, Position::new(4, 3));
}

#[test]
fn going_to_a_match_without_matches_changes_nothing() {
    let mut editor = editor_for("File is read.");
    press(&mut editor, "nN");
    assert_eq!(editor.cursor_position, Position::new(0, 0));
    assert_eq!(editor.search_occurence_idx, 0);
}

#[test]
fn erasing_the_whole_command_line_leads_back_to_normal_mode() {
    let mut editor = editor_for("File is read.");
    press(&mut editor, "/i");
    assert_eq!(editor.search_occurences, vec![1..2, 5..6]);
    editor.handle_key(Key::Backspace);
    editor.handle_key(Key::Backspace);
    assert_eq!(editor.mode, EditorMode::Normal);
    assert!(editor.search_occurences.is_empty());
}

#[test]
fn an_untouched_editor_greets() {
    let mut editor = Editor::new(Buffer::default(), (80, 24));
    let steps = editor.draw();
    assert_eq!(
        steps,
        vec![
            Draw::Clear,
            Draw::HideCursor,
            Draw::Goto(Position::new(0, 0)),
            Draw::Goto(Position::new(31, 12)),
            Draw::WriteColor("Nimbus Text Editor".to_string(), Color::Yellow),
            Draw::Goto(Position::new(34, 13)),
            Draw::Write("Version 0.1.0".to_string()),
            Draw::Goto(Position::new(26, 15)),
            Draw::WriteColor("Type :help for usage manual.".to_string(), Color::White),
            Draw::ShowCursor,
            Draw::Goto(Position::new(0, 23)),
            Draw::Write(String::new()),
            Draw::Goto(Position::new(0, 0)),
            Draw::Flush,
        ]
    );
}

#[test]
fn a_touched_editor_shows_its_text_and_bars() {
    let mut editor = editor_for("File is read.\r\nThe hero lied.");
    press(&mut editor, ":debug\n");
    editor.handle_key(Key::Esc);
    press(&mut editor, "lj");
    let steps = editor.draw();
    let status = format!(" [No Name]{:>69} ", "unknown | 1:1");
    assert_eq!(
        steps,
        vec![
            Draw::Clear,
            Draw::HideCursor,
            Draw::Goto(Position::new(0, 0)),
            Draw::Write("File is read.\r\nThe hero lied.".to_string()),
            Draw::ShowCursor,
            Draw::Goto(Position::new(0, 22)),
            Draw::WriteColors(status.clone(), Color::Black, Color::Magenta),
            Draw::Goto(Position::new(0, 23)),
            Draw::Write(String::new()),
            Draw::Goto(Position::new(0, 24)),
            Draw::Write("offset_y=0 | Search: offset_y=0, pos=(0,0).".to_string()),
            Draw::Goto(Position::new(1, 1)),
            Draw::Flush,
        ]
    );
    assert_eq!(editor.status, status);
}

#[test]
fn a_rust_source_is_shown_as_source_code() {
    let mut buffer = Buffer::from_string("fn main() {}".to_string());
    buffer.set_file_path("main.rs".to_string());
    let mut editor = Editor::new(buffer, (80, 24));
    let steps = editor.draw_buffer();
    assert_eq!(
        steps,
        vec![
            Draw::HideCursor,
            Draw::Goto(Position::new(0, 0)),
            Draw::Highlight("fn main() {}".to_string()),
            Draw::ShowCursor,
        ]
    );
}

#[test]
fn only_the_lines_in_view_are_shown() {
    let text = "one\r\ntwo\r\nthree\r\nfour\r\nfive\r\nsix\r\nseven";
    let mut editor = Editor::new(Buffer::from_string(text.to_string()), (80, 6));
    editor.handle_key(Key::Down);
    let steps = editor.draw_buffer();
    assert_eq!(steps[2], Draw::Write("one\r\ntwo\r\nthree\r\n".to_string()));
    for _ in 0..3 {
        editor.handle_key(Key::Down);
    }
    assert_eq!(editor.offset_y, 2);
    let steps = editor.draw_buffer();
    assert_eq!(steps[2], Draw::Write("three\r\nfour\r\nfive\r\n".to_string()));
}

#[test]
fn a_small_terminal_leaves_no_row_for_text() {
    let editor = Editor::new(Buffer::default(), (10, 3));
    assert_eq!(editor.draw_terminal_size(), (10, 0));
}

#[test]
fn load_buffer_measures_the_first_line() {
    let mut editor = editor_for("File is read.");
    editor.load_buffer(Buffer::from_string("The end.".to_string()));
    assert_eq!(editor.current_line_length, 8);
    assert_eq!(whole(&editor), "The end.");
}

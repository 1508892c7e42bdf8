use nimbus_text_editor::buffer::{count_visible, last_part, Buffer};
use nimbus_text_editor::file_extension::FileExtension;
use nimbus_text_editor::position::Position;

fn whole(buffer: &Buffer) -> String {
    buffer.get(&Position::new(0, 0), None)
}

#[test]
fn a_new_buffer_is_empty_and_has_no_path() {
    let buffer = Buffer::new();
    assert_eq!(whole(&buffer), "");
    assert_eq!(buffer.file_path(), None);
    assert_eq!(buffer.file_name(), None);
    assert_eq!(buffer.file_extension(), None);
    assert_eq!(buffer.get_total_lines(), 0);
    let buffer = Buffer::default();
    assert_eq!(whole(&buffer), "");
    assert_eq!(buffer.file_path(), None);
}

#[test]
fn the_name_follows_the_last_slash_and_the_extension_the_last_dot() {
    let mut buffer = Buffer::new();
    for (path, name, extension) in [
        ("/home/user/notes.txt", "notes.txt", "txt"),
        ("notes.txt", "notes.txt", "txt"),
        ("file", "file", "file"),
        ("/dir/", "", ""),
        ("/home/user/.bashrc", ".bashrc", "bashrc"),
        ("a.tar.gz", "a.tar.gz", "gz"),
        ("/a.b/c", "c", "c"),
        ("name.", "name.", ""),
        ("", "", ""),
        ("/h\u{e9}/n\u{e4}me.t\u{e9}xt", "n\u{e4}me.t\u{e9}xt", "t\u{e9}xt"),
    ] {
        buffer.set_file_path(path.to_string());
        assert_eq!(buffer.file_path(), Some(path));
        assert_eq!(buffer.file_name(), Some(name));
        assert_eq!(buffer.file_extension(), Some(extension));
    }
    assert_eq!(last_part("a:b:c", ':'), "c");
    assert_eq!(last_part("abc", ':'), "abc");
}

#[test]
fn get_falls_back_where_a_position_has_no_offset() {
    let buffer = Buffer::from_string("one\r\ntwo\r\nthree".to_string());
    assert_eq!(buffer.get(&Position::new(0, 1), None), "two\r\nthree");
    assert_eq!(
        buffer.get(&Position::new(1, 1), Some(&Position::new(2, 2))),
        "wo\r\nth"
    );
    assert_eq!(
        buffer.get(&Position::new(0, 1), Some(&Position::new(0, 3))),
        "two\r\nthree"
    );
    assert_eq!(buffer.get(&Position::new(0, 3), None), "one\r\ntwo\r\nthree");
    assert_eq!(
        buffer.get(&Position::new(0, 3), Some(&Position::new(0, 1))),
        "one\r\ntwo\r\nthree"
    );
    assert_eq!(
        buffer.get(&Position::new(0, 2), Some(&Position::new(0, 1))),
        ""
    );
}

#[test]
fn an_edit_at_a_position_without_offset_changes_nothing() {
    let mut buffer = Buffer::from_string("one\r\ntwo".to_string());
    buffer.insert("x", &Position::new(0, 2));
    buffer.insert_new_line(&Position::new(0, 2));
    buffer.delete(&Position::new(0, 2), 1);
    assert_eq!(whole(&buffer), "one\r\ntwo");
    buffer.insert("x", &Position::new(1, 1));
    assert_eq!(whole(&buffer), "one\r\ntxwo");
    buffer.delete(&Position::new(0, 1), 2);
    assert_eq!(whole(&buffer), "one\r\nwo");
    buffer.insert_new_line(&Position::new(1, 0));
    assert_eq!(whole(&buffer), "o\r\nne\r\nwo");
    assert_eq!(buffer.get_total_lines(), 3);
}

#[test]
fn the_length_of_a_line_leaves_its_line_break_out() {
    let buffer = Buffer::from_string("one\r\n\r\nthree\r\n".to_string());
    assert_eq!(buffer.get_line_length(0), 3);
    assert_eq!(buffer.get_line_length(1), 0);
    assert_eq!(buffer.get_line_length(2), 5);
    assert_eq!(buffer.get_line_length(3), 0);
    assert_eq!(buffer.get_line_length(4), 0);
    assert_eq!(buffer.get_line_length(usize::MAX), 0);
    let buffer = Buffer::from_string("ab\r\ncd\nef".to_string());
    assert_eq!(buffer.get_line_length(0), 2);
    assert_eq!(buffer.get_line_length(1), 1);
    assert_eq!(buffer.get_line_length(2), 2);
    assert_eq!(count_visible(b"a\rb\nc\r\n"), 3);
    assert_eq!(count_visible(b""), 0);
}

#[test]
fn positions_and_offsets_go_through_the_buffer() {
    let buffer = Buffer::from_string("one\r\ntwo".to_string());
    assert_eq!(buffer.get_offset_from_position(&Position::new(2, 1)), Some(7));
    assert_eq!(buffer.get_position_from_offset(7), Position::new(2, 1));
    assert_eq!(buffer.get_position_from_offset(4), Position::new(4, 0));
    assert_eq!(buffer.find("o", 0, true), vec![0..1, 7..8]);
    assert_eq!(buffer.find("o", 1, false), vec![7..8]);
}

#[test]
fn the_debug_status_shows_the_table() {
    let mut buffer = Buffer::from_string("one\r\ntwo".to_string());
    buffer.insert_new_line(&Position::new(1, 0));
    assert_eq!(
        buffer.get_debug_status(&Position::new(1, 1)),
        "nl_data=[0, 4] | nl_add=[1] | offset=4 | pieces=[Piece { source: Data, offset: 0, length: 1 }, \
         Piece { source: Add, offset: 0, length: 2 }, Piece { source: Data, offset: 1, length: 7 }] | \"o\\r\\nne\\r\\ntwo\""
    );
    assert_eq!(
        Buffer::new().get_debug_status(&Position::new(0, 5)),
        "nl_data=[0] | nl_add=[] | offset=0 | pieces=[] | \"\""
    );
}

#[test]
fn each_kind_of_file_has_its_name() {
    assert_eq!(FileExtension::Rust.as_str(), "rs");
    assert_eq!(FileExtension::Toml.as_str(), "toml");
    assert_eq!(FileExtension::Text.as_str(), "text");
    assert_eq!(FileExtension::Unknown.as_str(), "unknown");
}

#[test]
fn a_position_on_the_terminal_counts_from_one() {
    assert_eq!(Position::new(0, 0).get_terminal(), (1, 1));
    assert_eq!(Position::new(79, 23).get_terminal(), (80, 24));
    assert_eq!(Position::new(65534, 65534).get_terminal(), (65535, 65535));
    assert_eq!(Position::default(), Position::new(0, 0));
}

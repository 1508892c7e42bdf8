use nimbus_text_editor::buffer::Buffer;
use nimbus_text_editor::position::Position;

#[test]
fn buffer_test_buffer_init() {
    let buffer = Buffer::from_string(String::from("This is already in the file."));
    assert_eq!(
        buffer.piece_table().get(0, None),
        "This is already in the file."
    )
}

#[test]
fn buffer_test_buffer_get() {
    let buffer =
        Buffer::from_string(String::from("File is read.\r\nThe hero lied.\r\nThe end."));
    assert_eq!(
        buffer.get(&Position::new(0, 1), None),
        "The hero lied.\r\nThe end."
    );
    assert_eq!(
        buffer.get(&Position::new(0, 1), Some(&Position::new(0, 2))),
        "The hero lied.\r\n"
    );
}

#[test]
fn test_buffer_search() {
    let buffer = Buffer::from_string(String::from(
        "File is read.\r\nThe hero lied.\r\nThe end.\r\nThe hero rises once more.",
    ));
    let occurences = buffer.find("hero", 0, false);
    assert_eq!(occurences[0], 19..23);
    assert_eq!(occurences.len(), 1);
    let occurences = buffer.find("hero", 0, true);
    assert_eq!(occurences[0], 19..23);
    assert_eq!(occurences[1], 45..49);
}

#[test]
fn buffer_test_get_line_length() {
    let buffer = Buffer::from_string("File is read.\r\nThe hero lied.\r\nThe end.".to_string());

    assert_eq!(buffer.get_line_length(0), 13);
    assert_eq!(buffer.get_line_length(1), 14);
    assert_eq!(buffer.get_line_length(2), 8);
    assert_eq!(buffer.get_line_length(3), 0);
    assert_eq!(buffer.get_line_length(4), 0);
}

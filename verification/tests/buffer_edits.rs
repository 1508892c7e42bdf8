use nimbus_text_editor::buffer::Buffer;
use nimbus_text_editor::position::Position;

fn whole(buffer: &Buffer) -> String {
    buffer.get(&Position::new(0, 0), None)
}

#[test]
fn tests_test_buffer_init() {
    let buffer = Buffer::from_string(String::from("This is already in the file."));
    assert_eq!(whole(&buffer), "This is already in the file.")
}

#[test]
fn tests_test_get_offset_from_position_unmodified_buffer() {
    let file = String::from("File is read.\r\nThe hero lied.\r\nThe end.");
    let buffer = Buffer::from_string(file);

    assert_eq!(
        buffer.piece_table().data,
        "File is read.\r\nThe hero lied.\r\nThe end.".as_bytes()
    );
    assert_eq!(whole(&buffer), "File is read.\r\nThe hero lied.\r\nThe end.");

    assert_eq!(
        buffer.get_offset_from_position(&Position::new(3, 0)),
        Some(3)
    );
    assert_eq!(
        buffer.get_offset_from_position(&Position::new(0, 1)),
        Some(15)
    );
    assert_eq!(
        buffer.get_offset_from_position(&Position::new(3, 1)),
        Some(18)
    );
    assert_eq!(
        buffer.get_offset_from_position(&Position::new(0, 2)),
        Some(31)
    );
    assert_eq!(
        buffer.get_offset_from_position(&Position::new(7, 2)),
        Some(38)
    );
    assert_eq!(buffer.get_offset_from_position(&Position::new(0, 3)), None);
    assert_eq!(buffer.get_offset_from_position(&Position::new(7, 3)), None);
}

#[test]
fn tests_test_find_piece_from_offset_unmodified_buffer() {
    let file = String::from("File is read.\r\nThe hero lied.");
    let buffer = Buffer::from_string(file);

    assert_eq!(buffer.piece_table().find_piece_from_offset(5).unwrap().0, 0);
    assert_eq!(buffer.piece_table().find_piece_from_offset(22).unwrap().0, 0);
    assert!(buffer.piece_table().find_piece_from_offset(999).is_none());
}

#[test]
fn tests_test_find_piece_from_offset_modified_buffer() {
    let file = String::from("File is read.\r\nThe hero lied.\r\nThe end.");
    let mut buffer = Buffer::from_string(file);
    buffer.insert("has ", &Position::new(24, 0));
    buffer.delete(&Position::new(33, 0), 2);
    buffer.insert_new_line(&Position::new(5, 0));

    assert_eq!(
        whole(&buffer),
        "File \r\nis read.\r\nThe hero has lied.The end."
    );
    assert_eq!(buffer.piece_table().find_piece_from_offset(4).unwrap().0, 0);
    assert_eq!(buffer.piece_table().find_piece_from_offset(5).unwrap().0, 0);
    assert_eq!(buffer.piece_table().find_piece_from_offset(6).unwrap().0, 1);
    assert_eq!(buffer.piece_table().find_piece_from_offset(13).unwrap().0, 2);
    assert_eq!(buffer.piece_table().find_piece_from_offset(14).unwrap().0, 2);
    assert_eq!(buffer.piece_table().find_piece_from_offset(30).unwrap().0, 3);
    assert!(buffer.piece_table().find_piece_from_offset(50).is_none());
}

#[test]
fn tests_test_find_piece_from_offset_modified_buffer_2() {
    let file = String::from("File is read.\r\nThe hero lied.\r\nThe end.");
    let mut buffer = Buffer::from_string(file);
    buffer.delete(&Position::new(13, 0), 2);

    assert_eq!(whole(&buffer), "File is read.The hero lied.\r\nThe end.");
    assert_eq!(
        buffer.get_offset_from_position(&Position::new(0, 1)),
        Some(29)
    );
}

#[test]
fn tests_test_buffer_insert() {
    let file = String::from("This is already in the file.");
    let file_len = file.len();
    let mut buffer = Buffer::from_string(file);

    buffer.insert("New text appended.", &Position::new(file_len, 0));
    assert_eq!(
        whole(&buffer),
        "This is already in the file.New text appended."
    );
}

#[test]
fn tests_test_buffer_insert_middle() {
    let file = String::from("File is read.");
    let mut buffer = Buffer::from_string(file);
    buffer.insert("not ", &Position::new(8, 0));
    assert_eq!(whole(&buffer), "File is not read.");
}

#[test]
fn tests_test_buffer_insert_new_line() {
    let file = String::from("File is read.\r\nThe hero lied.\r\n");
    let mut buffer = Buffer::from_string(file);

    assert_eq!(
        buffer.get_offset_from_position(&Position { x: 5, y: 1 }),
        Some(20)
    );

    buffer.insert_new_line(&Position::new(5, 0));
    assert_eq!(whole(&buffer), "File \r\nis read.\r\nThe hero lied.\r\n");
    assert_eq!(
        buffer.get_offset_from_position(&Position { x: 4, y: 1 }),
        Some(11)
    );

    buffer.insert("\r\n", &Position::new(10, 0));
    assert_eq!(whole(&buffer), "File \r\nis \r\nread.\r\nThe hero lied.\r\n");

    buffer.insert("\r\n", &Position::new(5, 0));
    buffer.insert("\r\n", &Position::new(5, 0));
    buffer.insert("\r\n", &Position::new(5, 0));
    assert_eq!(
        whole(&buffer),
        "File \r\n\r\n\r\n\r\nis \r\nread.\r\nThe hero lied.\r\n"
    );
}

#[test]
fn tests_test_buffer_insert_middle_multiple_lines() {
    let file = String::from("File is read.\r\nThe hero lied.");
    let mut buffer = Buffer::from_string(file);
    buffer.insert("has ", &Position::new(24, 0));
    assert_eq!(whole(&buffer), "File is read.\r\nThe hero has lied.");
    buffer.insert_new_line(&Position::new(33, 0));
    buffer.insert("The end.", &Position::new(35, 0));
    assert_eq!(
        whole(&buffer),
        "File is read.\r\nThe hero has lied.\r\nThe end."
    );
}

#[test]
fn tests_test_buffer_insert_middle_2nd_line() {
    let file = String::from("File is read.\r\nThe hero lied.\r\n");
    let mut buffer = Buffer::from_string(file);
    buffer.insert("Third line.\r\n", &Position::new(31, 0));
    assert_eq!(
        whole(&buffer),
        "File is read.\r\nThe hero lied.\r\nThird line.\r\n"
    );
}

#[test]
fn tests_test_buffer_insert_middle_2nd_line_sequence() {
    let file = String::from("File is read.\r\nThe hero lied.");
    let mut buffer = Buffer::from_string(file);
    buffer.insert("h", &Position::new(24, 0));
    buffer.insert("a", &Position::new(25, 0));
    buffer.insert("s", &Position::new(26, 0));
    buffer.insert(" ", &Position::new(27, 0));
    assert_eq!(whole(&buffer), "File is read.\r\nThe hero has lied.");
}

#[test]
fn tests_test_delete() {
    let file = String::from("File is read.\r\nThe hero lied.\r\n");
    let mut buffer = Buffer::from_string(file);

    buffer.delete(&Position::new(3, 0), 1);
    assert_eq!(whole(&buffer), "Fil is read.\r\nThe hero lied.\r\n");

    buffer.delete(&Position::new(14, 0), 16);
    assert_eq!(whole(&buffer), "Fil is read.\r\n");
}

#[test]
fn tests_test_delete_insert_alternate() {
    let file = String::from("File is read.\r\nThe hero lied.\r\n");
    let mut buffer = Buffer::from_string(file);

    buffer.delete(&Position::new(7, 0), 8);
    buffer.insert_new_line(&Position::new(7, 0));
    buffer.insert(".", &Position::new(7, 0));
    assert_eq!(whole(&buffer), "File is.\r\nThe hero lied.\r\n");
}

#[test]
fn tests_test_get_total_line() {
    let file = String::from("File is read.\r\nThe hero lied.\r\nThe end.");
    let buffer = Buffer::from_string(file);
    assert_eq!(buffer.get_total_lines(), 3);
}

#[test]
fn tests_test_get_line_length() {
    let buffer = Buffer::from_string("File is read.\r\nThe hero lied.\r\nThe end.".to_string());

    assert_eq!(buffer.get_line_length(0), 13);
    assert_eq!(buffer.get_line_length(1), 14);
    assert_eq!(buffer.get_line_length(2), 8);
    assert_eq!(buffer.get_line_length(3), 0);
    assert_eq!(buffer.get_line_length(4), 0);
}

#[test]
fn tests_test_delete_2() {
    let mut buffer = Buffer::from_string(
        "File is read.\r\nThe hero lied.\r\nThe end.\r\nBensu.\r\nHello.\r\nlo.\r\n".to_string(),
    );

    buffer.delete(&Position::new(57, 0), 5);
    assert_eq!(
        whole(&buffer),
        "File is read.\r\nThe hero lied.\r\nThe end.\r\nBensu.\r\nHello.\r\n".to_string()
    );
}

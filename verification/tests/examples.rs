use nimbus_text_editor::piece::Source;
use nimbus_text_editor::piece_table::PieceTable;
use nimbus_text_editor::position::Position;

const TEXT: &str = "File is read.\r\nThe hero lied.\r\nThe end.";

#[test]
fn three_lines_are_counted_and_found() {
    let table = PieceTable::from_string(TEXT.to_string());
    assert_eq!(table.get_total_lines(), 3);
    assert_eq!(table.get_offset_from_position(&Position { x: 0, y: 1 }), Some(15));
    assert_eq!(table.get_offset_from_position(&Position { x: 0, y: 3 }), None);
}

#[test]
fn an_insert_stands_between_what_was_there() {
    let mut table = PieceTable::from_string(TEXT.to_string());
    table.insert("not ", 8);
    assert_eq!(
        table.get(0, None),
        "File is not read.\r\nThe hero lied.\r\nThe end."
    );
}

#[test]
fn a_delete_takes_one_byte_out() {
    let mut table = PieceTable::from_string(TEXT.to_string());
    table.delete(3, 1);
    assert_eq!(
        table.get(0, None),
        "Fil is read.\r\nThe hero lied.\r\nThe end."
    );
}

#[test]
fn five_characters_typed_on_make_one_piece() {
    let mut table = PieceTable::from_string(TEXT.to_string());
    let before = table.pieces.len();
    for (i, c) in ["a", "b", "c", "d", "e"].iter().enumerate() {
        table.insert(c, 39 + i);
    }
    assert_eq!(before, 1);
    assert_eq!(table.pieces.len(), before + 1);
    assert_eq!(table.pieces[1].source, Source::Add);
    assert_eq!(table.pieces[1].length, 5);
    let mut table = PieceTable::from_string(TEXT.to_string());
    table.insert("a", 8);
    let split = table.pieces.len();
    assert_eq!(split, 3);
    for (i, c) in ["b", "c", "d", "e"].iter().enumerate() {
        table.insert(c, 9 + i);
        assert_eq!(table.pieces.len(), split);
    }
    assert_eq!(
        table.get(0, None),
        "File is abcderead.\r\nThe hero lied.\r\nThe end."
    );
}

#[test]
fn both_heroes_are_found_in_order() {
    let table = PieceTable::from_string(
        "File is read.\r\nThe hero lied.\r\nThe end.\r\nThe hero rises once more.".to_string(),
    );
    assert_eq!(table.find("hero", 0, true), vec![19..23, 45..49]);
}

use nimbus_text_editor::piece::{Piece, Source};
use nimbus_text_editor::piece_table::PieceTable;
use nimbus_text_editor::position::Position;

/// An edit, for the table and for a string alike.
enum Edit {
    Insert(&'static str, usize),
    Delete(usize, usize),
}

fn edits() -> Vec<Edit> {
    vec![
        Edit::Insert("not ", 8),
        Edit::Delete(3, 1),
        Edit::Insert("\r\n", 0),
        Edit::Insert("", 5),
        Edit::Insert("x", 1),
        Edit::Insert("y", 2),
        Edit::Insert("z", 3),
        Edit::Delete(0, 4),
        Edit::Delete(10, 0),
        Edit::Insert("\r\n", 12),
        Edit::Insert("tail", 45),
        Edit::Delete(20, 14),
        Edit::Insert("é", 7),
        Edit::Delete(30, 6),
    ]
}

fn assert_sound(table: &PieceTable) {
    for piece in table.pieces.iter() {
        assert!(piece.length > 0);
        let store = match piece.source {
            Source::Data => table.data.len(),
            Source::Add => table.add.len(),
        };
        assert!(piece.offset + piece.length <= store);
    }
}

#[test]
fn edits_leave_the_text_of_a_growable_string() {
    let text = "File is read.\r\nThe hero lied.\r\nThe end.";
    let mut table = PieceTable::from_string(text.to_string());
    let mut model = text.as_bytes().to_vec();
    for edit in edits() {
        match edit {
            Edit::Insert(more, offset) => {
                table.insert(more, offset);
                model.splice(offset..offset, more.bytes());
            }
            Edit::Delete(offset, count) => {
                table.delete(offset, count);
                model.drain(offset..offset + count);
            }
        }
        assert_eq!(table.get_bytes(0, None), model);
        assert_eq!(table.len(), model.len());
        assert_eq!(table.get(0, None), String::from_utf8_lossy(&model));
        assert_sound(&table);
    }
    assert_eq!(table.get(0, None), "\nFil isé not \r\nread.\r.\r\nThe el");
}

#[test]
fn offsets_and_positions_lead_back_to_each_other() {
    let mut table =
        PieceTable::from_string("File is read.\r\nThe hero lied.\r\nThe end.".to_string());
    table.insert_new_line(5);
    table.insert("has ", 26);
    table.delete(0, 2);
    table.insert_new_line(40);
    let length = table.len();
    for offset in 0..length + 3 {
        let position = table.get_position_from_offset(offset);
        assert_eq!(table.get_offset_from_position(&position), Some(offset));
    }
    let text = table.get_bytes(0, None);
    let mut line = 0;
    let mut column = 0;
    for offset in 0..length {
        let position = Position::new(column, line);
        assert_eq!(table.get_offset_from_position(&position), Some(offset));
        assert_eq!(table.get_position_from_offset(offset), position);
        if text[offset] == b'\n' {
            line += 1;
            column = 0;
        } else {
            column += 1;
        }
    }
    assert_eq!(line, 4);
}

#[test]
fn an_offset_after_a_line_feed_starts_a_line() {
    let table = PieceTable::from_string("ab\r\ncd".to_string());
    assert_eq!(table.get_position_from_offset(0), Position::new(0, 0));
    assert_eq!(table.get_position_from_offset(3), Position::new(3, 0));
    assert_eq!(table.get_position_from_offset(4), Position::new(0, 1));
    assert_eq!(table.get_position_from_offset(6), Position::new(2, 1));
    assert_eq!(table.get_position_from_offset(9), Position::new(5, 1));
}

#[test]
fn empty_edits_change_nothing() {
    let mut table = PieceTable::from_string("File is read.".to_string());
    table.insert("not ", 8);
    let pieces = table.pieces.clone();
    let add = table.add.clone();
    for offset in [0, 4, 8, 17, 18, 999, usize::MAX] {
        table.insert("", offset);
        table.delete(offset, 0);
        assert_eq!(table.get(0, None), "File is not read.");
        assert_eq!(table.pieces, pieces);
        assert_eq!(table.add, add);
    }
}

#[test]
fn lines_are_counted_by_their_line_feeds() {
    let mut table = PieceTable::from_string("one\r\ntwo\r\nthree".to_string());
    assert_eq!(table.get_total_lines(), 3);
    table.delete(0, 1);
    assert_eq!(table.get(0, None), "ne\r\ntwo\r\nthree");
    assert_eq!(table.get_total_lines(), 2);
    table.insert_new_line(9);
    table.insert("four", 11);
    table.insert_new_line(4);
    let text = table.get_bytes(0, None);
    assert_eq!(text, b"ne\r\n\r\ntwo\r\n\r\nfourthree");
    assert_eq!(
        table.get_total_lines(),
        text.iter().filter(|byte| **byte == b'\n').count()
    );
    assert_eq!(table.get_total_lines(), 4);
}

#[test]
fn a_line_feed_inside_an_inserted_text_is_not_counted() {
    let mut table = PieceTable::from_string("one".to_string());
    table.insert("a\r\nb", 3);
    assert_eq!(table.get(0, None), "onea\r\nb");
    assert_eq!(table.get_total_lines(), 1);
    assert_eq!(table.get_offset_from_position(&Position::new(0, 1)), None);
    assert!(table.line_starts_add.is_empty());
}

#[test]
fn the_first_store_is_marked_from_its_start() {
    let table = PieceTable::from_string("\r\nab\r\n".to_string());
    assert_eq!(table.line_starts_data, vec![0, 1, 5]);
    assert_eq!(table.get_total_lines(), 3);
    let table = PieceTable::from_string("\nab".to_string());
    assert_eq!(table.data, b"\r\nab");
    assert_eq!(table.line_starts_data, vec![0, 1]);
    let table = PieceTable::from_string("".to_string());
    assert_eq!(table.line_starts_data, vec![0]);
    assert_eq!(table.get_total_lines(), 0);
    let table = PieceTable::default();
    assert!(table.line_starts_data.is_empty());
    assert_eq!(table.get_total_lines(), 0);
}

#[test]
fn pieces_stay_sound_when_a_whole_piece_is_deleted() {
    let mut table = PieceTable::from_string("abc".to_string());
    table.insert("XY", 1);
    assert_eq!(table.pieces.len(), 3);
    table.delete(1, 2);
    assert_eq!(table.get(0, None), "abc");
    assert_eq!(
        table.pieces,
        vec![
            Piece::new(Source::Data, 0, 1),
            Piece::new(Source::Data, 1, 2),
        ]
    );
    table.delete(0, 1);
    assert_eq!(table.pieces, vec![Piece::new(Source::Data, 1, 2)]);
    table.delete(0, 2);
    assert!(table.pieces.is_empty());
    assert_eq!(table.get(0, None), "");
    assert_sound(&table);
}

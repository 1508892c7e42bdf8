use nimbus_text_editor::piece::{Piece, Source};
use nimbus_text_editor::piece_table::PieceTable;
use nimbus_text_editor::position::Position;

fn table_of(text: &str) -> PieceTable {
    PieceTable::from_string(text.to_string())
}

#[test]
fn a_table_starts_with_one_piece_for_its_text() {
    let table = table_of("File is read.\r\nThe hero lied.\r\nThe end.");
    assert_eq!(table.pieces, vec![Piece::new(Source::Data, 0, 39)]);
    assert_eq!(table.line_starts_data, vec![0, 14, 30]);
    assert!(table.add.is_empty());
    assert!(table.line_starts_add.is_empty());
    assert_eq!(table.len(), 39);
}

#[test]
fn a_table_for_no_text_has_no_piece() {
    let table = table_of("");
    assert!(table.pieces.is_empty());
    assert_eq!(table.get(0, None), "");
    assert_eq!(table.find_piece_from_offset(0), None);
    assert_eq!(table.len(), 0);
}

#[test]
fn line_feeds_get_a_carriage_return_where_the_text_has_no_line_break() {
    assert_eq!(table_of("a\nb\n").get(0, None), "a\r\nb\r\n");
    assert_eq!(table_of("\n").get(0, None), "\r\n");
    assert_eq!(table_of("a\rb").get(0, None), "a\rb");
    assert_eq!(table_of("a\r\nb\nc").get(0, None), "a\r\nb\nc");
    assert_eq!(table_of("a\r\nb\nc").line_starts_data, vec![0, 2, 4]);
    assert_eq!(table_of("a\n\rb").get(0, None), "a\r\n\rb");
}

#[test]
fn an_offset_between_two_pieces_belongs_to_the_first() {
    let mut table = table_of("File is read.");
    table.insert("not ", 8);
    assert_eq!(
        table.pieces,
        vec![
            Piece::new(Source::Data, 0, 8),
            Piece::new(Source::Add, 0, 4),
            Piece::new(Source::Data, 8, 5),
        ]
    );
    assert_eq!(table.find_piece_from_offset(0), Some((0, 0)));
    assert_eq!(table.find_piece_from_offset(7), Some((0, 7)));
    assert_eq!(table.find_piece_from_offset(8), Some((0, 8)));
    assert_eq!(table.find_piece_from_offset(9), Some((1, 1)));
    assert_eq!(table.find_piece_from_offset(12), Some((1, 4)));
    assert_eq!(table.find_piece_from_offset(13), Some((2, 9)));
    assert_eq!(table.find_piece_from_offset(17), Some((2, 13)));
    assert_eq!(table.find_piece_from_offset(18), None);
}

#[test]
fn into_an_empty_document_a_text_goes_whatever_the_offset() {
    let mut table = PieceTable::default();
    table.insert("abc", 7);
    assert_eq!(table.get(0, None), "abc");
    assert_eq!(table.pieces, vec![Piece::new(Source::Add, 0, 3)]);
    let mut table = table_of("");
    table.insert("abc", 99);
    assert_eq!(table.get(0, None), "abc");
    let mut table = table_of("abc");
    table.delete(0, 3);
    table.insert("new", 2);
    assert_eq!(table.get(0, None), "new");
}

#[test]
fn an_insert_past_the_end_reaches_the_store_and_not_the_document() {
    let mut table = table_of("abc");
    table.insert("xyz", 4);
    assert_eq!(table.get(0, None), "abc");
    assert_eq!(table.add, b"xyz");
    assert_eq!(table.pieces, vec![Piece::new(Source::Data, 0, 3)]);
    table.insert("!", 3);
    assert_eq!(table.get(0, None), "abc!");
    assert_eq!(table.add, b"xyz!");
}

#[test]
fn a_delete_that_reaches_past_the_end_changes_nothing() {
    let mut table = table_of("abc");
    table.delete(2, 2);
    table.delete(3, 1);
    table.delete(4, 1);
    table.delete(usize::MAX, 1);
    table.delete(1, usize::MAX);
    assert_eq!(table.get(0, None), "abc");
    assert_eq!(table.pieces, vec![Piece::new(Source::Data, 0, 3)]);
    table.delete(0, 3);
    assert_eq!(table.get(0, None), "");
    table.delete(0, 1);
    assert_eq!(table.get(0, None), "");
}

#[test]
fn typing_on_makes_the_last_piece_longer() {
    let mut table = table_of("File is read.\r\nThe hero lied.");
    table.insert("h", 24);
    assert_eq!(table.pieces.len(), 3);
    table.insert("a", 25);
    table.insert("s", 26);
    table.insert(" ", 27);
    table.insert("!", 28);
    assert_eq!(table.pieces.len(), 3);
    assert_eq!(table.pieces[1], Piece::new(Source::Add, 0, 5));
    assert_eq!(table.get(0, None), "File is read.\r\nThe hero has !lied.");
}

#[test]
fn typing_elsewhere_splits_a_piece() {
    let mut table = table_of("File is read.");
    table.insert("ab", 13);
    assert_eq!(table.pieces.len(), 2);
    table.insert("cd", 0);
    assert_eq!(table.pieces.len(), 3);
    table.insert("ef", 17);
    assert_eq!(table.pieces.len(), 4);
    table.insert("gh", 19);
    assert_eq!(table.pieces.len(), 4);
    table.insert("ij", 5);
    assert_eq!(table.pieces.len(), 6);
    assert_eq!(table.get(0, None), "cdFilije is read.abefgh");
}

#[test]
fn a_delete_at_an_end_of_a_piece_shrinks_it() {
    let mut table = table_of("abcdef");
    table.delete(0, 2);
    assert_eq!(table.pieces, vec![Piece::new(Source::Data, 2, 4)]);
    table.delete(2, 2);
    assert_eq!(table.pieces, vec![Piece::new(Source::Data, 2, 2)]);
    assert_eq!(table.get(0, None), "cd");
}

#[test]
fn a_delete_inside_a_piece_splits_it() {
    let mut table = table_of("abcdef");
    table.delete(2, 2);
    assert_eq!(
        table.pieces,
        vec![
            Piece::new(Source::Data, 0, 2),
            Piece::new(Source::Data, 4, 2),
        ]
    );
    assert_eq!(table.get(0, None), "abef");
}

#[test]
fn a_delete_over_pieces_leaves_what_lies_outside() {
    let mut table = table_of("abcdef");
    table.insert("123", 2);
    table.insert("456", 7);
    assert_eq!(table.get(0, None), "ab123cd456ef");
    assert_eq!(table.pieces.len(), 5);
    table.delete(1, 10);
    assert_eq!(table.get(0, None), "af");
    assert_eq!(
        table.pieces,
        vec![
            Piece::new(Source::Data, 0, 1),
            Piece::new(Source::Data, 5, 1),
        ]
    );
}

#[test]
fn get_holds_its_ends_to_the_document() {
    let mut table = table_of("File read.");
    table.insert("is ", 5);
    assert_eq!(table.get(0, None), "File is read.");
    assert_eq!(table.get(5, Some(7)), "is");
    assert_eq!(table.get(3, Some(10)), "e is re");
    assert_eq!(table.get(5, Some(3)), "");
    assert_eq!(table.get(5, Some(5)), "");
    assert_eq!(table.get(5, Some(999)), "is read.");
    assert_eq!(table.get(13, None), "");
    assert_eq!(table.get(999, None), "");
    assert_eq!(table.get(999, Some(2)), "");
    assert_eq!(table.get(0, Some(0)), "");
    assert_eq!(table.get(0, Some(usize::MAX)), "File is read.");
    assert_eq!(table.get_bytes(8, Some(12)), b"read");
}

#[test]
fn a_slice_that_cuts_a_character_is_given_with_a_replacement() {
    let table = table_of("h\u{e9}llo");
    assert_eq!(table.len(), 6);
    assert_eq!(table.get_bytes(0, Some(2)), vec![0x68, 0xc3]);
    assert_eq!(table.get(0, Some(2)), "h\u{fffd}");
    assert_eq!(table.get(2, None), "\u{fffd}llo");
    assert_eq!(table.get(0, Some(3)), "h\u{e9}");
    assert_eq!(table.get(0, None), "h\u{e9}llo");
}

#[test]
fn find_gives_the_matches_of_a_piece() {
    let table = table_of("aXaXa");
    assert_eq!(table.find("a", 0, false), vec![0..1]);
    assert_eq!(table.find("a", 0, true), vec![0..1, 2..3, 4..5]);
    assert_eq!(table.find("aX", 0, true), vec![0..2, 2..4]);
    assert_eq!(table.find("b", 0, true), vec![]);
    assert_eq!(table.find("aXaXaX", 0, true), vec![]);
    assert_eq!(table_of("aaaaa").find("aa", 0, true), vec![0..2, 2..4]);
}

#[test]
fn find_starts_at_the_offset() {
    let table = table_of("hero hero");
    assert_eq!(table.find("hero", 1, true), vec![5..9]);
    assert_eq!(table.find("hero", 5, true), vec![5..9]);
    assert_eq!(table.find("hero", 6, true), vec![]);
    assert_eq!(table.find("hero", 9, true), vec![]);
    assert_eq!(table.find("hero", 10, true), vec![]);
}

#[test]
fn find_does_not_look_across_pieces() {
    let mut table = table_of("hero");
    table.insert("XX", 2);
    table.delete(2, 2);
    assert_eq!(table.get(0, None), "hero");
    assert_eq!(table.pieces.len(), 2);
    assert_eq!(table.find("hero", 0, true), vec![]);
    assert_eq!(table.find("er", 0, true), vec![]);
    assert_eq!(table.find("he", 0, true), vec![0..2]);
    assert_eq!(table.find("ro", 0, true), vec![2..4]);
}

#[test]
fn find_gives_the_first_match_of_each_piece() {
    let mut table = table_of("abab");
    table.insert("cabab", 4);
    assert_eq!(table.get(0, None), "ababcabab");
    assert_eq!(table.find("ab", 0, false), vec![0..2, 5..7]);
    assert_eq!(table.find("ab", 0, true), vec![0..2, 2..4, 5..7, 7..9]);
    assert_eq!(table.find("ab", 3, true), vec![5..7, 7..9]);
    assert_eq!(table.find("ab", 6, false), vec![7..9]);
}

#[test]
fn an_empty_text_is_found_at_every_place() {
    let table = table_of("ab");
    assert_eq!(table.find("", 0, false), vec![0..0]);
    assert_eq!(table.find("", 0, true), vec![0..0, 1..1, 2..2]);
    assert_eq!(table.find("", 2, true), vec![2..2]);
    assert_eq!(table.find("", 3, true), vec![]);
    let mut table = table_of("ab");
    table.insert("cd", 2);
    assert_eq!(table.find("", 2, false), vec![2..2, 2..2]);
}

#[test]
fn a_line_break_inserted_as_such_is_marked() {
    let mut table = table_of("ab");
    table.insert_new_line(1);
    assert_eq!(table.add, b"\r\n");
    assert_eq!(table.line_starts_add, vec![1]);
    table.insert("\r\n", 4);
    assert_eq!(table.add, b"\r\n\r\n");
    assert_eq!(table.line_starts_add, vec![1, 3]);
    table.insert("x\r\n", 0);
    assert_eq!(table.line_starts_add, vec![1, 3]);
    assert_eq!(table.get(0, None), "x\r\na\r\nb\r\n");
    assert_eq!(table.get_total_lines(), 3);
    assert_eq!(table.get_offset_from_position(&Position::new(0, 1)), Some(6));
    assert_eq!(table.get_offset_from_position(&Position::new(1, 2)), Some(10));
    assert_eq!(table.get_offset_from_position(&Position::new(0, 3)), None);
}

#[test]
fn the_column_is_not_held_against_the_line() {
    let table = table_of("ab\r\ncd");
    assert_eq!(table.get_offset_from_position(&Position::new(99, 0)), Some(99));
    assert_eq!(table.get_offset_from_position(&Position::new(99, 1)), Some(103));
    assert_eq!(
        table.get_offset_from_position(&Position::new(usize::MAX, 1)),
        None
    );
    assert_eq!(
        table.get_offset_from_position(&Position::new(usize::MAX, 0)),
        Some(usize::MAX)
    );
}

#[test]
fn a_line_feed_at_the_start_of_the_first_store_starts_no_line() {
    let table = table_of("\nab");
    assert_eq!(table.get(0, None), "\r\nab");
    assert_eq!(table.get_offset_from_position(&Position::new(0, 1)), Some(2));
    let table = table_of("\n\r\nab");
    assert_eq!(table.line_starts_data, vec![0, 0, 2]);
    assert_eq!(table.get_total_lines(), 3);
    assert_eq!(table.get_offset_from_position(&Position::new(0, 1)), Some(3));
    assert_eq!(table.get_offset_from_position(&Position::new(0, 2)), None);
    assert_eq!(table.get_position_from_offset(1), Position::new(1, 0));
}

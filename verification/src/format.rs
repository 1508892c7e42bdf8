//! Numbers and padding in the texts that the editor shows.

use crate::piece::{Piece, Source};
use vstd::prelude::*;

verus! {

/// The character of a digit.
pub open spec fn digit(d: int) -> char {
    if d == 0 {
        '0'
    } else if d == 1 {
        '1'
    } else if d == 2 {
        '2'
    } else if d == 3 {
        '3'
    } else if d == 4 {
        '4'
    } else if d == 5 {
        '5'
    } else if d == 6 {
        '6'
    } else if d == 7 {
        '7'
    } else if d == 8 {
        '8'
    } else {
        '9'
    }
}

/// The number in decimal digits.
pub open spec fn digits(n: nat) -> Seq<char>
    decreases n,
{
    if n < 10 {
        seq![digit(n as int)]
    } else {
        digits(n / 10).push(digit((n % 10) as int))
    }
}

/// The text with blanks before it, so many that it is `width` characters
/// long; the text itself where it is that long or longer.
pub open spec fn padded(text: Seq<char>, width: int) -> Seq<char> {
    if text.len() >= width {
        text
    } else {
        Seq::new((width - text.len()) as nat, |k: int| ' ') + text
    }
}

/// The character of a digit.
pub fn digit_char(d: usize) -> (c: char)
    requires
        d < 10,
    ensures
        c == digit(d as int),
{
    if d == 0 {
        '0'
    } else if d == 1 {
        '1'
    } else if d == 2 {
        '2'
    } else if d == 3 {
        '3'
    } else if d == 4 {
        '4'
    } else if d == 5 {
        '5'
    } else if d == 6 {
        '6'
    } else if d == 7 {
        '7'
    } else if d == 8 {
        '8'
    } else {
        '9'
    }
}

/// Add the decimal digits of a number to the text.
pub fn push_number(text: &mut Vec<char>, n: usize)
    ensures
        final(text)@ == old(text)@ + digits(n as nat),
    decreases n,
{
    if n >= 10 {
        push_number(text, n / 10);
    }
    text.push(digit_char(n % 10));
    proof {
        if n >= 10 {
            assert(text@ =~= old(text)@ + digits(n as nat));
        } else {
            assert(text@ =~= old(text)@ + digits(n as nat));
        }
    }
}

/// Add the characters of a string to the text.
pub fn push_text(text: &mut Vec<char>, more: &str)
    ensures
        final(text)@ == old(text)@ + more@,
{
    let mut chars = crate::chars::to_chars(more);
    text.append(&mut chars);
}

/// Add a text to the text, with blanks before it so that `width`
/// characters are added where the text is shorter.
pub fn push_padded(text: &mut Vec<char>, more: &Vec<char>, width: usize)
    ensures
        final(text)@ == old(text)@ + padded(more@, width as int),
{
    let ghost before = text@;
    let mut k: usize = more.len();
    while k < width
        invariant
            more@.len() <= k,
            k <= width || k == more@.len(),
            text@ == before + Seq::new((k - more@.len()) as nat, |i: int| ' '),
        decreases width - k,
    {
        text.push(' ');
        proof {
            assert(text@ =~= before + Seq::new((k + 1 - more@.len()) as nat, |i: int| ' '));
        }
        k += 1;
    }
    let mut i: usize = 0;
    let ghost blanks = text@;
    while i < more.len()
        invariant
            i <= more.len(),
            text@ == blanks + more@.take(i as int),
        decreases more.len() - i,
    {
        text.push(more[i]);
        proof {
            assert(more@.take(i + 1) =~= more@.take(i as int).push(more@[i as int]));
            assert(text@ =~= blanks + more@.take(i + 1));
        }
        i += 1;
    }
    proof {
        assert(more@.take(more@.len() as int) =~= more@);
        assert(text@ =~= before + padded(more@, width as int));
    }
}

/// The numbers in decimal digits, with a comma and a blank between them.
pub open spec fn joined(numbers: Seq<usize>) -> Seq<char>
    decreases numbers.len(),
{
    if numbers.len() == 0 {
        Seq::empty()
    } else if numbers.len() == 1 {
        digits(numbers[0] as nat)
    } else {
        joined(numbers.drop_last()) + ", "@ + digits(numbers.last() as nat)
    }
}

/// The numbers as a list in square brackets.
pub open spec fn listed(numbers: Seq<usize>) -> Seq<char> {
    "["@ + joined(numbers) + "]"@
}

/// The name of a store.
pub open spec fn source_name(source: Source) -> Seq<char> {
    match source {
        Source::Data => "Data"@,
        Source::Add => "Add"@,
    }
}

/// A piece with the names and the values of its fields.
pub open spec fn piece_shown(piece: Piece) -> Seq<char> {
    "Piece { source: "@ + source_name(piece.source) + ", offset: "@ + digits(piece.offset as nat)
        + ", length: "@ + digits(piece.length as nat) + " }"@
}

/// The pieces as they are shown, with a comma and a blank between them.
pub open spec fn pieces_joined(pieces: Seq<Piece>) -> Seq<char>
    decreases pieces.len(),
{
    if pieces.len() == 0 {
        Seq::empty()
    } else if pieces.len() == 1 {
        piece_shown(pieces[0])
    } else {
        pieces_joined(pieces.drop_last()) + ", "@ + piece_shown(pieces.last())
    }
}

/// The pieces as a list in square brackets.
pub open spec fn pieces_listed(pieces: Seq<Piece>) -> Seq<char> {
    "["@ + pieces_joined(pieces) + "]"@
}

/// Add the numbers to the text, as a list in square brackets.
pub fn push_numbers(text: &mut Vec<char>, numbers: &Vec<usize>)
    ensures
        final(text)@ == old(text)@ + listed(numbers@),
{
    let ghost before = text@;
    push_text(text, "[");
    let mut i: usize = 0;
    proof {
        assert(numbers@.take(0) =~= Seq::<usize>::empty());
        assert(text@ =~= before + "["@ + joined(numbers@.take(0)));
    }
    while i < numbers.len()
        invariant
            i <= numbers.len(),
            text@ == before + "["@ + joined(numbers@.take(i as int)),
        decreases numbers.len() - i,
    {
        proof {
            assert(numbers@.take(i + 1).drop_last() =~= numbers@.take(i as int));
        }
        if i > 0 {
            push_text(text, ", ");
        }
        push_number(text, numbers[i]);
        proof {
            assert(text@ =~= before + "["@ + joined(numbers@.take(i + 1)));
        }
        i += 1;
    }
    push_text(text, "]");
    proof {
        assert(numbers@.take(numbers@.len() as int) =~= numbers@);
        assert(text@ =~= before + listed(numbers@));
    }
}

/// Add a piece to the text, with the names and the values of its fields.
pub fn push_piece(text: &mut Vec<char>, piece: &Piece)
    ensures
        final(text)@ == old(text)@ + piece_shown(*piece),
{
    let ghost before = text@;
    push_text(text, "Piece { source: ");
    match piece.source {
        Source::Data => push_text(text, "Data"),
        Source::Add => push_text(text, "Add"),
    }
    push_text(text, ", offset: ");
    push_number(text, piece.offset);
    push_text(text, ", length: ");
    push_number(text, piece.length);
    push_text(text, " }");
    proof {
        assert(text@ =~= before + piece_shown(*piece));
    }
}

/// Add the pieces to the text, as a list in square brackets.
pub fn push_pieces(text: &mut Vec<char>, pieces: &Vec<Piece>)
    ensures
        final(text)@ == old(text)@ + pieces_listed(pieces@),
{
    let ghost before = text@;
    push_text(text, "[");
    let mut i: usize = 0;
    proof {
        assert(pieces@.take(0) =~= Seq::<Piece>::empty());
        assert(text@ =~= before + "["@ + pieces_joined(pieces@.take(0)));
    }
    while i < pieces.len()
        invariant
            i <= pieces.len(),
            text@ == before + "["@ + pieces_joined(pieces@.take(i as int)),
        decreases pieces.len() - i,
    {
        proof {
            assert(pieces@.take(i + 1).drop_last() =~= pieces@.take(i as int));
        }
        if i > 0 {
            push_text(text, ", ");
        }
        push_piece(text, &pieces[i]);
        proof {
            assert(text@ =~= before + "["@ + pieces_joined(pieces@.take(i + 1)));
        }
        i += 1;
    }
    push_text(text, "]");
    proof {
        assert(pieces@.take(pieces@.len() as int) =~= pieces@);
        assert(text@ =~= before + pieces_listed(pieces@));
    }
}

} // verus!

//! The bytes that a sequence of pieces denotes, as mathematical sequences.
//!
//! Everything here is ghost: the functions give the meaning of a piece
//! sequence over two stores, and the lemmas say how that meaning behaves when
//! the sequence is cut, joined or grown.

use crate::piece::{Piece, Source};
use vstd::prelude::*;

verus! {

/// The contents of the two stores that pieces point into.
pub struct Stores {
    pub data: Seq<u8>,
    pub add: Seq<u8>,
}

impl Stores {
    /// The store that `source` names.
    pub open spec fn of(self, source: Source) -> Seq<u8> {
        match source {
            Source::Data => self.data,
            Source::Add => self.add,
        }
    }

    /// `self` with `more` appended to the add store.
    pub open spec fn grown(self, more: Seq<u8>) -> Stores {
        Stores { data: self.data, add: self.add + more }
    }
}

/// A piece is sound when it is not empty and lies inside its store, at
/// places that a machine word can name.
pub open spec fn piece_fits(piece: Piece, stores: Stores) -> bool {
    &&& piece.length > 0
    &&& piece.offset + piece.length <= stores.of(piece.source).len()
    &&& piece.offset + piece.length <= usize::MAX
}

/// Every piece of the sequence is sound.
pub open spec fn pieces_fit(pieces: Seq<Piece>, stores: Stores) -> bool {
    forall|i: int| 0 <= i < pieces.len() ==> piece_fits(#[trigger] pieces[i], stores)
}

/// The bytes one piece denotes.
pub open spec fn piece_text(piece: Piece, stores: Stores) -> Seq<u8> {
    stores.of(piece.source).subrange(piece.offset as int, piece.offset + piece.length)
}

/// The sum of the lengths of the pieces.
pub open spec fn length_of(pieces: Seq<Piece>) -> nat
    decreases pieces.len(),
{
    if pieces.len() == 0 {
        0
    } else {
        length_of(pieces.drop_last()) + pieces.last().length as nat
    }
}

/// The document: the bytes of the pieces, joined in order.
pub open spec fn text_of(pieces: Seq<Piece>, stores: Stores) -> Seq<u8>
    decreases pieces.len(),
{
    if pieces.len() == 0 {
        Seq::empty()
    } else {
        text_of(pieces.drop_last(), stores) + piece_text(pieces.last(), stores)
    }
}

/// The offset in the document at which piece `i` starts.
pub open spec fn start_of(pieces: Seq<Piece>, i: int) -> nat {
    length_of(pieces.take(i))
}

/// Piece `index` holds the place `offset` of the document, at the place `at`
/// of its store: it is the first piece that ends at or after `offset`.
pub open spec fn located(pieces: Seq<Piece>, offset: int, index: int, at: int) -> bool {
    &&& 0 <= index < pieces.len()
    &&& start_of(pieces, index) <= offset <= start_of(pieces, index + 1)
    &&& forall|k: int| 0 < k <= index ==> #[trigger] start_of(pieces, k) < offset
    &&& at == pieces[index].offset + (offset - start_of(pieces, index))
}

/// The document with `text` put in at `offset`.
pub open spec fn inserted(doc: Seq<u8>, text: Seq<u8>, offset: int) -> Seq<u8> {
    doc.subrange(0, offset) + text + doc.subrange(offset, doc.len() as int)
}

/// The document without the `count` bytes that start at `offset`.
pub open spec fn removed(doc: Seq<u8>, offset: int, count: int) -> Seq<u8> {
    doc.subrange(0, offset) + doc.subrange(offset + count, doc.len() as int)
}

/// One piece alone is as long as it says.
pub proof fn lemma_length_of_one(piece: Piece)
    ensures
        length_of(seq![piece]) == piece.length,
{
    assert(seq![piece].drop_last() =~= Seq::<Piece>::empty());
    assert(length_of(Seq::<Piece>::empty()) == 0);
}

/// One piece alone denotes its own bytes.
pub proof fn lemma_text_of_one(piece: Piece, stores: Stores)
    ensures
        text_of(seq![piece], stores) == piece_text(piece, stores),
{
    assert(seq![piece].drop_last() =~= Seq::<Piece>::empty());
    assert(text_of(Seq::<Piece>::empty(), stores) =~= Seq::<u8>::empty());
    assert(Seq::<u8>::empty() + piece_text(piece, stores) =~= piece_text(piece, stores));
}

/// Pieces joined are as long as both runs together.
pub proof fn lemma_length_of_concat(a: Seq<Piece>, b: Seq<Piece>)
    ensures
        length_of(a + b) == length_of(a) + length_of(b),
    decreases b.len(),
{
    if b.len() == 0 {
        assert(a + b =~= a);
    } else {
        lemma_length_of_concat(a, b.drop_last());
        assert((a + b).drop_last() =~= a + b.drop_last());
    }
}

/// Pieces joined denote the bytes of the one run and then those of the
/// other.
pub proof fn lemma_text_of_concat(a: Seq<Piece>, b: Seq<Piece>, stores: Stores)
    ensures
        text_of(a + b, stores) == text_of(a, stores) + text_of(b, stores),
    decreases b.len(),
{
    if b.len() == 0 {
        assert(a + b =~= a);
        assert(text_of(a, stores) + text_of(b, stores) =~= text_of(a, stores));
    } else {
        lemma_text_of_concat(a, b.drop_last(), stores);
        assert((a + b).drop_last() =~= a + b.drop_last());
        assert(text_of(a + b, stores) =~= text_of(a, stores) + text_of(b, stores));
    }
}

/// Sound pieces denote as many bytes as their lengths say.
pub proof fn lemma_text_len(pieces: Seq<Piece>, stores: Stores)
    requires
        pieces_fit(pieces, stores),
    ensures
        text_of(pieces, stores).len() == length_of(pieces),
    decreases pieces.len(),
{
    if pieces.len() > 0 {
        assert(piece_fits(pieces.last(), stores));
        assert(pieces_fit(pieces.drop_last(), stores)) by {
            assert forall|i: int| 0 <= i < pieces.drop_last().len() implies piece_fits(
                #[trigger] pieces.drop_last()[i],
                stores,
            ) by {
                assert(pieces.drop_last()[i] == pieces[i]);
            }
        }
        lemma_text_len(pieces.drop_last(), stores);
    }
}

/// One more piece in a prefix adds that piece's length and bytes.
pub proof fn lemma_take_next(pieces: Seq<Piece>, stores: Stores, i: int)
    requires
        0 <= i < pieces.len(),
    ensures
        length_of(pieces.take(i + 1)) == length_of(pieces.take(i)) + pieces[i].length,
        text_of(pieces.take(i + 1), stores) == text_of(pieces.take(i), stores) + piece_text(
            pieces[i],
            stores,
        ),
{
    assert(pieces.take(i + 1).drop_last() =~= pieces.take(i));
}

/// A prefix is no longer than the whole, and a longer prefix is no shorter.
pub proof fn lemma_prefix_length(pieces: Seq<Piece>, i: int, j: int)
    requires
        0 <= i <= j <= pieces.len(),
    ensures
        length_of(pieces.take(i)) <= length_of(pieces.take(j)) <= length_of(pieces),
{
    assert(pieces.take(j) =~= pieces.take(i) + pieces.subrange(i, j));
    assert(pieces =~= pieces.take(j) + pieces.skip(j));
    lemma_length_of_concat(pieces.take(i), pieces.subrange(i, j));
    lemma_length_of_concat(pieces.take(j), pieces.skip(j));
}

/// Soundness is kept by every part of a sequence and by joining sound parts.
pub proof fn lemma_fit_parts(pieces: Seq<Piece>, stores: Stores, i: int, j: int)
    requires
        pieces_fit(pieces, stores),
        0 <= i <= j <= pieces.len(),
    ensures
        pieces_fit(pieces.subrange(i, j), stores),
{
    assert forall|k: int| 0 <= k < pieces.subrange(i, j).len() implies piece_fits(
        #[trigger] pieces.subrange(i, j)[k],
        stores,
    ) by {
        assert(pieces.subrange(i, j)[k] == pieces[i + k]);
    }
}

/// Sound pieces joined are sound.
pub proof fn lemma_fit_concat(a: Seq<Piece>, b: Seq<Piece>, stores: Stores)
    requires
        pieces_fit(a, stores),
        pieces_fit(b, stores),
    ensures
        pieces_fit(a + b, stores),
{
    assert forall|k: int| 0 <= k < (a + b).len() implies piece_fits(#[trigger] (a + b)[k], stores) by {
        if k < a.len() {
            assert((a + b)[k] == a[k]);
        } else {
            assert((a + b)[k] == b[k - a.len()]);
        }
    }
}

/// Appending to the add store changes neither soundness nor the document.
pub proof fn lemma_grown_stores(pieces: Seq<Piece>, stores: Stores, more: Seq<u8>)
    requires
        pieces_fit(pieces, stores),
    ensures
        pieces_fit(pieces, stores.grown(more)),
        text_of(pieces, stores.grown(more)) == text_of(pieces, stores),
    decreases pieces.len(),
{
    let grown = stores.grown(more);
    assert forall|i: int| 0 <= i < pieces.len() implies piece_fits(#[trigger] pieces[i], grown) by {
        assert(piece_fits(pieces[i], stores));
    }
    if pieces.len() > 0 {
        lemma_fit_parts(pieces, stores, 0, pieces.len() - 1);
        assert(pieces.subrange(0, pieces.len() - 1) =~= pieces.drop_last());
        lemma_grown_stores(pieces.drop_last(), stores, more);
        let last = pieces.last();
        assert(piece_fits(last, stores));
        assert(piece_text(last, grown) =~= piece_text(last, stores));
    }
}

/// The sequence that holds `piece`, or nothing when `piece` is empty.
pub open spec fn kept(piece: Piece) -> Seq<Piece> {
    if piece.length > 0 {
        seq![piece]
    } else {
        Seq::empty()
    }
}

/// The first `at` bytes of `piece` as a piece of their own.
pub open spec fn head_of(piece: Piece, at: int) -> Piece {
    Piece { source: piece.source, offset: piece.offset, length: at as usize }
}

/// What follows the first `at` bytes of `piece` as a piece of its own.
pub open spec fn tail_of(piece: Piece, at: int) -> Piece {
    Piece {
        source: piece.source,
        offset: (piece.offset + at) as usize,
        length: (piece.length - at) as usize,
    }
}

/// The pieces that are left when the bytes between a place in piece `i`,
/// `from` bytes after its start, and a place in piece `j`, `to` bytes after
/// its start, are taken out.
pub open spec fn without(pieces: Seq<Piece>, i: int, from: int, j: int, to: int) -> Seq<Piece> {
    pieces.take(i) + kept(head_of(pieces[i], from)) + kept(tail_of(pieces[j], to)) + pieces.skip(
        j + 1,
    )
}

/// The piece that covers `length` bytes appended to an add store that held
/// `add_len` bytes before.
pub open spec fn fresh_piece(add_len: int, length: int) -> Piece {
    Piece { source: Source::Add, offset: add_len as usize, length: length as usize }
}

/// `piece` made `length` bytes longer.
pub open spec fn extended(piece: Piece, length: int) -> Piece {
    Piece { source: piece.source, offset: piece.offset, length: (piece.length + length) as usize }
}

/// The pieces with `fresh` put into piece `i`, `at` bytes after its start.
pub open spec fn with_piece(pieces: Seq<Piece>, i: int, at: int, fresh: Piece) -> Seq<Piece> {
    pieces.take(i) + kept(head_of(pieces[i], at)) + seq![fresh] + kept(tail_of(pieces[i], at))
        + pieces.skip(i + 1)
}

/// A text put in between two texts is put into their join at the length of
/// the first.
pub proof fn lemma_inserted_between(before: Seq<u8>, after: Seq<u8>, text: Seq<u8>)
    ensures
        inserted(before + after, text, before.len() as int) == before + text + after,
{
    let whole = before + after;
    assert(whole.subrange(0, before.len() as int) =~= before);
    assert(whole.subrange(before.len() as int, whole.len() as int) =~= after);
}

/// A text taken out between two texts leaves their join.
pub proof fn lemma_removed_between(before: Seq<u8>, text: Seq<u8>, after: Seq<u8>)
    ensures
        removed(before + text + after, before.len() as int, text.len() as int) == before + after,
{
    let whole = before + text + after;
    assert(whole.subrange(0, before.len() as int) =~= before);
    assert(whole.subrange((before.len() + text.len()) as int, whole.len() as int) =~= after);
}

/// A piece that lies inside its store, empty or not, contributes its bytes
/// when kept.
pub proof fn lemma_kept(piece: Piece, stores: Stores)
    requires
        piece.offset + piece.length <= stores.of(piece.source).len(),
        piece.offset + piece.length <= usize::MAX,
    ensures
        pieces_fit(kept(piece), stores),
        length_of(kept(piece)) == piece.length,
        text_of(kept(piece), stores) == piece_text(piece, stores),
{
    if piece.length > 0 {
        lemma_length_of_one(piece);
        lemma_text_of_one(piece, stores);
    } else {
        assert(piece_text(piece, stores) =~= Seq::<u8>::empty());
    }
}

/// A piece is its head and its tail.
pub proof fn lemma_head_and_tail(piece: Piece, stores: Stores, at: int)
    requires
        piece_fits(piece, stores),
        0 <= at <= piece.length,
    ensures
        piece_text(piece, stores) == piece_text(head_of(piece, at), stores) + piece_text(
            tail_of(piece, at),
            stores,
        ),
        piece_text(head_of(piece, at), stores).len() == at,
        piece_text(tail_of(piece, at), stores).len() == piece.length - at,
        pieces_fit(kept(head_of(piece, at)), stores),
        pieces_fit(kept(tail_of(piece, at)), stores),
        length_of(kept(head_of(piece, at))) == at,
        length_of(kept(tail_of(piece, at))) == piece.length - at,
        text_of(kept(head_of(piece, at)), stores) == piece_text(head_of(piece, at), stores),
        text_of(kept(tail_of(piece, at)), stores) == piece_text(tail_of(piece, at), stores),
{
    lemma_kept(head_of(piece, at), stores);
    lemma_kept(tail_of(piece, at), stores);
    assert(piece_text(piece, stores) =~= piece_text(head_of(piece, at), stores) + piece_text(
        tail_of(piece, at),
        stores,
    ));
}

/// Pieces put in the place of the pieces from `i` to `j` stand between the
/// pieces before `i` and the pieces from `j` on.
pub proof fn lemma_replaced(
    pieces: Seq<Piece>,
    stores: Stores,
    i: int,
    j: int,
    with: Seq<Piece>,
)
    requires
        pieces_fit(pieces, stores),
        pieces_fit(with, stores),
        0 <= i <= j <= pieces.len(),
    ensures
        pieces_fit(pieces.take(i) + with + pieces.skip(j), stores),
        length_of(pieces.take(i) + with + pieces.skip(j)) == length_of(pieces.take(i))
            + length_of(with) + length_of(pieces.skip(j)),
        text_of(pieces.take(i) + with + pieces.skip(j), stores) == text_of(
            pieces.take(i),
            stores,
        ) + text_of(with, stores) + text_of(pieces.skip(j), stores),
        text_of(pieces.take(i), stores).len() == length_of(pieces.take(i)),
        text_of(pieces.skip(j), stores).len() == length_of(pieces.skip(j)),
{
    let before = pieces.take(i);
    let after = pieces.skip(j);
    lemma_fit_parts(pieces, stores, 0, i);
    lemma_fit_parts(pieces, stores, j, pieces.len() as int);
    lemma_fit_concat(before, with, stores);
    lemma_fit_concat(before + with, after, stores);
    lemma_text_of_concat(before, with, stores);
    lemma_text_of_concat(before + with, after, stores);
    lemma_length_of_concat(before, with);
    lemma_length_of_concat(before + with, after);
    lemma_text_len(before, stores);
    lemma_text_len(after, stores);
}

/// The pieces are those before `i`, those from `i` to `j` and those from
/// `j` on.
pub proof fn lemma_parted(pieces: Seq<Piece>, stores: Stores, i: int, j: int)
    requires
        pieces_fit(pieces, stores),
        0 <= i <= j <= pieces.len(),
    ensures
        length_of(pieces) == length_of(pieces.take(i)) + length_of(pieces.subrange(i, j))
            + length_of(pieces.skip(j)),
        text_of(pieces, stores) == text_of(pieces.take(i), stores) + text_of(
            pieces.subrange(i, j),
            stores,
        ) + text_of(pieces.skip(j), stores),
        text_of(pieces, stores).len() == length_of(pieces),
        pieces_fit(pieces.subrange(i, j), stores),
{
    lemma_fit_parts(pieces, stores, i, j);
    lemma_replaced(pieces, stores, i, j, pieces.subrange(i, j));
    assert(pieces.take(i) + pieces.subrange(i, j) + pieces.skip(j) =~= pieces);
    lemma_text_len(pieces, stores);
}

/// Cutting the document inside piece `i`, `at` bytes after the piece's start,
/// cuts that piece and leaves the others whole.
pub proof fn lemma_cut(pieces: Seq<Piece>, stores: Stores, i: int, at: int)
    requires
        pieces_fit(pieces, stores),
        0 <= i < pieces.len(),
        0 <= at <= pieces[i].length,
    ensures
        length_of(pieces.take(i)) + at <= length_of(pieces),
        length_of(pieces) == length_of(pieces.take(i)) + pieces[i].length + length_of(
            pieces.skip(i + 1),
        ),
        text_of(pieces, stores) == (text_of(pieces.take(i), stores) + piece_text(
            head_of(pieces[i], at),
            stores,
        )) + (piece_text(tail_of(pieces[i], at), stores) + text_of(pieces.skip(i + 1), stores)),
        (text_of(pieces.take(i), stores) + piece_text(head_of(pieces[i], at), stores)).len()
            == length_of(pieces.take(i)) + at,
{
    let piece = pieces[i];
    assert(piece_fits(piece, stores));
    lemma_parted(pieces, stores, i, i + 1);
    assert(pieces.subrange(i, i + 1) =~= seq![piece]);
    lemma_length_of_one(piece);
    lemma_text_of_one(piece, stores);
    lemma_head_and_tail(piece, stores, at);
    lemma_fit_parts(pieces, stores, 0, i);
    lemma_text_len(pieces.take(i), stores);
    let before = text_of(pieces.take(i), stores);
    let head = piece_text(head_of(piece, at), stores);
    let tail = piece_text(tail_of(piece, at), stores);
    let after = text_of(pieces.skip(i + 1), stores);
    assert(before + (head + tail) + after =~= (before + head) + (tail + after));
}

/// Taking a range out of the pieces takes it out of the document, and leaves
/// the pieces sound.
pub proof fn lemma_removed(
    pieces: Seq<Piece>,
    stores: Stores,
    i: int,
    from: int,
    j: int,
    to: int,
)
    requires
        pieces_fit(pieces, stores),
        0 <= i <= j < pieces.len(),
        0 <= from <= pieces[i].length,
        0 <= to <= pieces[j].length,
        length_of(pieces.take(i)) + from <= length_of(pieces.take(j)) + to,
    ensures
        ({
            let rest = without(pieces, i, from, j, to);
            let start = length_of(pieces.take(i)) + from;
            let end = length_of(pieces.take(j)) + to;
            &&& pieces_fit(rest, stores)
            &&& end <= length_of(pieces)
            &&& length_of(rest) == length_of(pieces) - (end - start)
            &&& text_of(rest, stores) == removed(text_of(pieces, stores), start, end - start)
        }),
{
    let head = head_of(pieces[i], from);
    let tail = tail_of(pieces[j], to);
    let start = length_of(pieces.take(i)) + from;
    let end = length_of(pieces.take(j)) + to;
    let whole = text_of(pieces, stores);
    assert(piece_fits(pieces[i], stores));
    assert(piece_fits(pieces[j], stores));
    lemma_head_and_tail(pieces[i], stores, from);
    lemma_head_and_tail(pieces[j], stores, to);
    lemma_cut(pieces, stores, i, from);
    lemma_cut(pieces, stores, j, to);
    let left = text_of(pieces.take(i), stores) + piece_text(head, stores);
    let right = piece_text(tail, stores) + text_of(pieces.skip(j + 1), stores);
    let gone = whole.subrange(start, end);
    assert(whole =~= left + gone + right) by {
        assert(whole.subrange(0, start) =~= left);
        assert(whole.subrange(end, whole.len() as int) =~= right);
    }
    lemma_removed_between(left, gone, right);
    lemma_fit_concat(kept(head), kept(tail), stores);
    lemma_text_of_concat(kept(head), kept(tail), stores);
    lemma_length_of_concat(kept(head), kept(tail));
    lemma_replaced(pieces, stores, i, j + 1, kept(head) + kept(tail));
    assert(without(pieces, i, from, j, to) =~= pieces.take(i) + (kept(head) + kept(tail))
        + pieces.skip(j + 1));
    assert(text_of(pieces.take(i), stores) + (piece_text(head, stores) + piece_text(
        tail,
        stores,
    )) + text_of(pieces.skip(j + 1), stores) =~= left + right);
}

/// Splitting piece `i` around a piece for freshly appended bytes puts those
/// bytes into the document at the place of the split.
pub proof fn lemma_inserted(pieces: Seq<Piece>, stores: Stores, i: int, at: int, more: Seq<u8>)
    requires
        pieces_fit(pieces, stores),
        0 <= i < pieces.len(),
        0 <= at <= pieces[i].length,
        more.len() > 0,
        stores.add.len() + more.len() <= usize::MAX,
    ensures
        ({
            let fresh = fresh_piece(stores.add.len() as int, more.len() as int);
            let rest = with_piece(pieces, i, at, fresh);
            &&& pieces_fit(rest, stores.grown(more))
            &&& length_of(rest) == length_of(pieces) + more.len()
            &&& length_of(pieces.take(i)) + at <= length_of(pieces)
            &&& text_of(rest, stores.grown(more)) == inserted(
                text_of(pieces, stores),
                more,
                length_of(pieces.take(i)) + at,
            )
        }),
{
    let grown = stores.grown(more);
    let fresh = fresh_piece(stores.add.len() as int, more.len() as int);
    let head = head_of(pieces[i], at);
    let tail = tail_of(pieces[i], at);
    lemma_grown_stores(pieces, stores, more);
    assert(piece_fits(pieces[i], grown));
    lemma_head_and_tail(pieces[i], grown, at);
    lemma_cut(pieces, grown, i, at);
    let left = text_of(pieces.take(i), grown) + piece_text(head, grown);
    let right = piece_text(tail, grown) + text_of(pieces.skip(i + 1), grown);
    lemma_inserted_between(left, right, more);
    let with = kept(head) + seq![fresh] + kept(tail);
    assert(pieces_fit(seq![fresh], grown));
    assert(piece_text(fresh, grown) =~= more);
    lemma_length_of_one(fresh);
    lemma_text_of_one(fresh, grown);
    lemma_fit_concat(kept(head), seq![fresh], grown);
    lemma_fit_concat(kept(head) + seq![fresh], kept(tail), grown);
    lemma_text_of_concat(kept(head), seq![fresh], grown);
    lemma_text_of_concat(kept(head) + seq![fresh], kept(tail), grown);
    lemma_length_of_concat(kept(head), seq![fresh]);
    lemma_length_of_concat(kept(head) + seq![fresh], kept(tail));
    lemma_replaced(pieces, grown, i, i + 1, with);
    assert(with_piece(pieces, i, at, fresh) =~= pieces.take(i) + with + pieces.skip(i + 1));
    assert(text_of(pieces.take(i), grown) + (piece_text(head, grown) + more + piece_text(
        tail,
        grown,
    )) + text_of(pieces.skip(i + 1), grown) =~= left + more + right);
}

/// Making piece `i` longer, when it is the piece that ends the add store,
/// puts the freshly appended bytes into the document where the piece ends.
pub proof fn lemma_extended(pieces: Seq<Piece>, stores: Stores, i: int, more: Seq<u8>)
    requires
        pieces_fit(pieces, stores),
        0 <= i < pieces.len(),
        pieces[i].source == Source::Add,
        pieces[i].offset + pieces[i].length == stores.add.len(),
        more.len() > 0,
        stores.add.len() + more.len() <= usize::MAX,
    ensures
        ({
            let rest = pieces.update(i, extended(pieces[i], more.len() as int));
            &&& pieces_fit(rest, stores.grown(more))
            &&& length_of(rest) == length_of(pieces) + more.len()
            &&& length_of(pieces.take(i + 1)) <= length_of(pieces)
            &&& text_of(rest, stores.grown(more)) == inserted(
                text_of(pieces, stores),
                more,
                length_of(pieces.take(i + 1)) as int,
            )
        }),
{
    let grown = stores.grown(more);
    let piece = pieces[i];
    let longer = extended(piece, more.len() as int);
    lemma_grown_stores(pieces, stores, more);
    assert(piece_fits(piece, grown));
    lemma_head_and_tail(piece, grown, piece.length as int);
    lemma_cut(pieces, grown, i, piece.length as int);
    lemma_take_next(pieces, grown, i);
    let left = text_of(pieces.take(i), grown) + piece_text(
        head_of(piece, piece.length as int),
        grown,
    );
    let right = piece_text(tail_of(piece, piece.length as int), grown) + text_of(
        pieces.skip(i + 1),
        grown,
    );
    lemma_inserted_between(left, right, more);
    assert(pieces_fit(seq![longer], grown));
    assert(piece_text(longer, grown) =~= piece_text(piece, grown) + more);
    assert(piece_text(head_of(piece, piece.length as int), grown) =~= piece_text(piece, grown));
    assert(piece_text(tail_of(piece, piece.length as int), grown) =~= Seq::<u8>::empty());
    lemma_length_of_one(longer);
    lemma_text_of_one(longer, grown);
    lemma_replaced(pieces, grown, i, i + 1, seq![longer]);
    assert(pieces.update(i, longer) =~= pieces.take(i) + seq![longer] + pieces.skip(i + 1));
    assert(text_of(pieces.take(i), grown) + (piece_text(piece, grown) + more) + text_of(
        pieces.skip(i + 1),
        grown,
    ) =~= left + more + right);
}

/// The bytes of a prefix of the pieces are a prefix of the document.
pub proof fn lemma_prefix_text(pieces: Seq<Piece>, stores: Stores, i: int)
    requires
        pieces_fit(pieces, stores),
        0 <= i <= pieces.len(),
    ensures
        length_of(pieces.take(i)) <= length_of(pieces),
        text_of(pieces.take(i), stores) == text_of(pieces, stores).subrange(
            0,
            length_of(pieces.take(i)) as int,
        ),
{
    let before = pieces.take(i);
    let after = pieces.skip(i);
    assert(pieces =~= before + after);
    lemma_text_of_concat(before, after, stores);
    lemma_length_of_concat(before, after);
    lemma_fit_parts(pieces, stores, 0, i);
    lemma_text_len(before, stores);
    assert(text_of(before, stores) =~= text_of(pieces, stores).subrange(
        0,
        length_of(before) as int,
    ));
}

/// A range of the document that lies in piece `i` is the same range of the
/// piece's store, moved by the piece's place.
pub proof fn lemma_piece_range(pieces: Seq<Piece>, stores: Stores, i: int, from: int, to: int)
    requires
        pieces_fit(pieces, stores),
        0 <= i < pieces.len(),
        0 <= from <= to <= pieces[i].length,
    ensures
        length_of(pieces.take(i)) + to <= length_of(pieces),
        text_of(pieces, stores).subrange(
            length_of(pieces.take(i)) + from,
            length_of(pieces.take(i)) + to,
        ) == stores.of(pieces[i].source).subrange(pieces[i].offset + from, pieces[i].offset + to),
{
    let piece = pieces[i];
    assert(piece_fits(piece, stores));
    lemma_prefix_text(pieces, stores, i);
    lemma_prefix_text(pieces, stores, i + 1);
    lemma_take_next(pieces, stores, i);
    lemma_fit_parts(pieces, stores, 0, i);
    lemma_text_len(pieces.take(i), stores);
    lemma_text_len(pieces, stores);
    let whole = text_of(pieces, stores);
    let base = length_of(pieces.take(i)) as int;
    assert(whole.subrange(0, base + piece.length) =~= whole.subrange(0, base) + piece_text(
        piece,
        stores,
    ));
    let left = whole.subrange(base + from, base + to);
    let right = stores.of(piece.source).subrange(piece.offset + from, piece.offset + to);
    assert forall|k: int| 0 <= k < left.len() implies #[trigger] left[k] == right[k] by {
        assert(whole.subrange(0, base + piece.length)[base + from + k] == piece_text(
            piece,
            stores,
        )[from + k]);
    }
    assert(left =~= right);
}

} // verus!

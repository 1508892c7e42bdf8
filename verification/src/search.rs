//! Search for a run of bytes in a run of bytes.

use crate::document::{
    lemma_fit_parts, lemma_piece_range, lemma_prefix_text, lemma_text_len, length_of, piece_fits,
    piece_text, pieces_fit, text_of, Stores,
};
use crate::piece::Piece;
use std::ops::Range;
use vstd::prelude::*;

verus! {

/// `needle` stands in `hay` at the place `at`.
pub open spec fn occurs_at(hay: Seq<u8>, needle: Seq<u8>, at: int) -> bool {
    &&& 0 <= at
    &&& at + needle.len() <= hay.len()
    &&& hay.subrange(at, at + needle.len()) == needle
}

/// How far the search moves on after a match: past the match, and by one
/// place where the needle is empty.
pub open spec fn stride(needle: Seq<u8>) -> int {
    if needle.len() == 0 {
        1
    } else {
        needle.len() as int
    }
}

/// The places at or after `from` where `needle` stands in `hay`, from left to
/// right and without overlap: all of them, or the first alone.
pub open spec fn occurrences(hay: Seq<u8>, needle: Seq<u8>, from: int, all: bool) -> Seq<int>
    decreases hay.len() + 1 - from,
{
    if from < 0 || from + needle.len() > hay.len() {
        Seq::empty()
    } else if occurs_at(hay, needle, from) {
        if all {
            seq![from] + occurrences(hay, needle, from + stride(needle), all)
        } else {
            seq![from]
        }
    } else {
        occurrences(hay, needle, from + 1, all)
    }
}

/// The ranges that the matches at `places` cover, in a text that starts at
/// `base`.
pub open spec fn spans(places: Seq<int>, base: int, length: int) -> Seq<(int, int)> {
    Seq::new(places.len(), |k: int| (base + places[k], base + places[k] + length))
}

/// The ends of each range, as a pair.
pub open spec fn bounds(ranges: Seq<Range<usize>>) -> Seq<(int, int)> {
    Seq::new(ranges.len(), |k: int| (ranges[k].start as int, ranges[k].end as int))
}

/// The part of a piece's bytes that a search from `offset` looks at, when the
/// piece starts at `start` in the document: all of them, or those from
/// `offset` on.
pub open spec fn searched(piece: Piece, stores: Stores, start: int, offset: int) -> Seq<u8> {
    piece_text(piece, stores).skip(skipped(start, offset))
}

/// How many bytes of a piece that starts at `start` lie before `offset`.
pub open spec fn skipped(start: int, offset: int) -> int {
    if offset > start {
        offset - start
    } else {
        0
    }
}

/// The ranges of the document in which a search from `offset` finds `needle`.
/// Each piece that ends at or after `offset` is searched by itself, so that
/// no match lies across two pieces; the ranges are those of the matches of
/// one piece after the other.
pub open spec fn found_of(
    pieces: Seq<Piece>,
    stores: Stores,
    needle: Seq<u8>,
    offset: int,
    all: bool,
) -> Seq<(int, int)>
    decreases pieces.len(),
{
    if pieces.len() == 0 {
        Seq::empty()
    } else {
        let start = length_of(pieces.drop_last()) as int;
        let rest = found_of(pieces.drop_last(), stores, needle, offset, all);
        if start + pieces.last().length < offset {
            rest
        } else {
            rest + spans(
                occurrences(searched(pieces.last(), stores, start, offset), needle, 0, all),
                start + skipped(start, offset),
                needle.len() as int,
            )
        }
    }
}

/// Does `needle` stand in `hay` at the place `at`?
pub fn matches_at(hay: &[u8], needle: &[u8], at: usize) -> (found: bool)
    requires
        at + needle@.len() <= hay@.len(),
    ensures
        found == occurs_at(hay@, needle@, at as int),
{
    let mut k: usize = 0;
    assert(hay@.len() == hay.len());
    while k < needle.len()
        invariant
            k <= needle@.len(),
            at + needle@.len() <= hay@.len() <= usize::MAX,
            hay@.subrange(at as int, at + k) == needle@.take(k as int),
        decreases needle.len() - k,
    {
        if hay[at + k] != needle[k] {
            proof {
                assert(hay@.subrange(at as int, at + needle@.len())[k as int] != needle@[k as int]);
            }
            return false;
        }
        proof {
            assert(hay@.subrange(at as int, at + k + 1) =~= hay@.subrange(at as int, at + k).push(
                hay@[at + k],
            ));
            assert(needle@.take(k + 1) =~= needle@.take(k as int).push(needle@[k as int]));
        }
        k += 1;
    }
    proof {
        assert(needle@.take(needle@.len() as int) =~= needle@);
    }
    true
}

/// Add to `found` the range of each match of `needle` in `hay`, or of the
/// first match alone, where `hay` is the part of a text that starts at
/// `base`.
pub fn collect_matches(
    hay: &[u8],
    needle: &[u8],
    all: bool,
    base: usize,
    found: &mut Vec<Range<usize>>,
)
    requires
        base + hay@.len() <= usize::MAX,
    ensures
        bounds(final(found)@) == bounds(old(found)@) + spans(
            occurrences(hay@, needle@, 0, all),
            base as int,
            needle@.len() as int,
        ),
{
    let ghost before = bounds(found@);
    let ghost length = needle@.len() as int;
    if needle.len() > hay.len() {
        proof {
            assert(bounds(found@) =~= before + spans(
                occurrences(hay@, needle@, 0, all),
                base as int,
                length,
            ));
        }
        return ;
    }
    let last = hay.len() - needle.len();
    let step = if needle.len() == 0 {
        1
    } else {
        needle.len()
    };
    let mut at: usize = 0;
    let ghost mut seen: Seq<int> = Seq::empty();
    proof {
        assert(bounds(found@) =~= before + spans(seen, base as int, length));
        assert(seen + occurrences(hay@, needle@, 0, all) =~= occurrences(hay@, needle@, 0, all));
    }
    while at <= last
        invariant
            last == hay@.len() - needle@.len(),
            length == needle@.len(),
            step == stride(needle@),
            base + hay@.len() <= usize::MAX,
            before == bounds(old(found)@),
            bounds(found@) == before + spans(seen, base as int, length),
            seen + occurrences(hay@, needle@, at as int, all) == occurrences(
                hay@,
                needle@,
                0,
                all,
            ),
        decreases last + 1 - at,
    {
        if matches_at(hay, needle, at) {
            let ghost earlier = found@;
            found.push(base + at..base + at + needle.len());
            proof {
                let later = seen.push(at as int);
                assert(bounds(found@) =~= bounds(earlier).push(
                    (base + at, base + at + length),
                ));
                assert(spans(later, base as int, length) =~= spans(seen, base as int, length).push(
                    (base + at, base + at + length),
                ));
                assert(bounds(found@) =~= before + spans(later, base as int, length));
                if all {
                    assert(later + occurrences(hay@, needle@, at + step, all) =~= seen
                        + occurrences(hay@, needle@, at as int, all));
                } else {
                    assert(later =~= seen + occurrences(hay@, needle@, at as int, all));
                }
                seen = later;
            }
            if !all {
                return ;
            }
            if step > last - at {
                proof {
                    assert(occurrences(hay@, needle@, at + step, all) =~= Seq::<int>::empty());
                    assert(seen + Seq::<int>::empty() =~= seen);
                }
                return ;
            }
            at += step;
        } else {
            if at == last {
                proof {
                    assert(occurrences(hay@, needle@, at + 1, all) =~= Seq::<int>::empty());
                    assert(seen + Seq::<int>::empty() =~= seen);
                }
                return ;
            }
            at += 1;
        }
    }
    proof {
        assert(occurrences(hay@, needle@, at as int, all) =~= Seq::<int>::empty());
        assert(seen + Seq::<int>::empty() =~= seen);
    }
}

/// Each place that a search gives is a place at or after its start where
/// the needle stands.
pub proof fn lemma_occurrences(hay: Seq<u8>, needle: Seq<u8>, from: int, all: bool, k: int)
    requires
        0 <= from,
        0 <= k < occurrences(hay, needle, from, all).len(),
    ensures
        from <= occurrences(hay, needle, from, all)[k],
        occurs_at(hay, needle, occurrences(hay, needle, from, all)[k]),
    decreases hay.len() + 1 - from,
{
    if from + needle.len() <= hay.len() {
        if occurs_at(hay, needle, from) {
            if all && k > 0 {
                let rest = occurrences(hay, needle, from + stride(needle), all);
                assert((seq![from] + rest)[k] == rest[k - 1]);
                lemma_occurrences(hay, needle, from + stride(needle), all, k - 1);
            }
        } else {
            lemma_occurrences(hay, needle, from + 1, all, k);
        }
    }
}

/// Each range that a search of the pieces gives lies in the document, starts
/// no earlier than the search, and holds the needle.
pub proof fn lemma_found(
    pieces: Seq<Piece>,
    stores: Stores,
    needle: Seq<u8>,
    offset: int,
    all: bool,
    k: int,
)
    requires
        pieces_fit(pieces, stores),
        0 <= offset,
        0 <= k < found_of(pieces, stores, needle, offset, all).len(),
    ensures
        ({
            let range = found_of(pieces, stores, needle, offset, all)[k];
            &&& offset <= range.0
            &&& range.1 <= length_of(pieces)
            &&& range.1 == range.0 + needle.len()
            &&& text_of(pieces, stores).subrange(range.0, range.1) == needle
        }),
    decreases pieces.len(),
{
    if pieces.len() > 0 {
        let init = pieces.drop_last();
        let piece = pieces.last();
        let start = length_of(init) as int;
        let rest = found_of(init, stores, needle, offset, all);
        let end = pieces.len() - 1;
        assert(pieces.take(end) =~= init);
        assert(piece_fits(piece, stores));
        lemma_fit_parts(pieces, stores, 0, end);
        lemma_prefix_text(pieces, stores, end);
        lemma_text_len(pieces, stores);
        lemma_text_len(init, stores);
        let whole = text_of(pieces, stores);
        if k < rest.len() {
            lemma_found(init, stores, needle, offset, all, k);
            let range = rest[k];
            assert(whole.subrange(0, start).subrange(range.0, range.1) =~= whole.subrange(
                range.0,
                range.1,
            ));
        } else {
            let skip = skipped(start, offset);
            let hay = searched(piece, stores, start, offset);
            let places = occurrences(hay, needle, 0, all);
            let at = places[k - rest.len()];
            lemma_occurrences(hay, needle, 0, all, k - rest.len());
            lemma_piece_range(
                pieces,
                stores,
                end,
                skip + at,
                skip + at + needle.len(),
            );
            assert(hay.subrange(at, at + needle.len()) =~= stores.of(piece.source).subrange(
                piece.offset + skip + at,
                piece.offset + skip + at + needle.len(),
            ));
        }
    }
}

} // verus!

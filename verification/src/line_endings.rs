//! Line endings: the line feeds of a text, and the text with a carriage
//! return put before each of them.

use vstd::prelude::*;

verus! {

/// The carriage return.
pub const CR: u8 = 13;

/// The line feed.
pub const LF: u8 = 10;

/// Somewhere in the text a line feed follows a carriage return.
pub open spec fn has_line_break(text: Seq<u8>) -> bool {
    exists|i: int| 0 < i < text.len() && text[i - 1] == CR && #[trigger] text[i] == LF
}

/// The text with a carriage return put before each of its line feeds.
pub open spec fn with_returns(text: Seq<u8>) -> Seq<u8>
    decreases text.len(),
{
    if text.len() == 0 {
        Seq::empty()
    } else if text.last() == LF {
        with_returns(text.drop_last()).push(CR).push(LF)
    } else {
        with_returns(text.drop_last()).push(text.last())
    }
}

/// The text as a table keeps it: unchanged where it holds a line break, and
/// with a carriage return before each line feed where it holds none.
pub open spec fn normalized(text: Seq<u8>) -> Seq<u8> {
    if has_line_break(text) {
        text
    } else {
        with_returns(text)
    }
}

/// The places of the line feeds of the text, in ascending order.
pub open spec fn feeds(text: Seq<u8>) -> Seq<usize>
    decreases text.len(),
{
    if text.len() == 0 {
        Seq::empty()
    } else if text.last() == LF {
        feeds(text.drop_last()).push((text.len() - 1) as usize)
    } else {
        feeds(text.drop_last())
    }
}

/// The places after the line feeds of the text, in ascending order: where
/// the lines after the first one start.
pub open spec fn line_ends(text: Seq<u8>) -> Seq<int>
    decreases text.len(),
{
    if text.len() == 0 {
        Seq::empty()
    } else if text.last() == LF {
        line_ends(text.drop_last()).push(text.len() as int)
    } else {
        line_ends(text.drop_last())
    }
}

/// Each place moved on by `by`.
pub open spec fn moved(places: Seq<int>, by: int) -> Seq<int> {
    Seq::new(places.len(), |k: int| places[k] + by)
}

/// The number of line feeds in the text.
pub open spec fn count_feeds(text: Seq<u8>) -> nat
    decreases text.len(),
{
    if text.len() == 0 {
        0
    } else if text.last() == LF {
        count_feeds(text.drop_last()) + 1
    } else {
        count_feeds(text.drop_last())
    }
}

/// Does a line feed follow a carriage return somewhere in the text?
pub fn contains_line_break(text: &[u8]) -> (found: bool)
    ensures
        found == has_line_break(text@),
{
    let mut i: usize = 1;
    while i < text.len()
        invariant
            1 <= i,
            forall|k: int| 0 < k < i && k < text@.len() ==> !(text@[k - 1] == CR && #[trigger] text@[k]
                == LF),
        decreases text.len() - i,
    {
        if text[i - 1] == CR && text[i] == LF {
            return true;
        }
        i += 1;
    }
    false
}

/// The text with a carriage return put before each of its line feeds.
pub fn add_returns(text: &[u8]) -> (out: Vec<u8>)
    ensures
        out@ == with_returns(text@),
{
    let mut out: Vec<u8> = Vec::new();
    let mut i: usize = 0;
    proof {
        assert(text@.take(0) =~= Seq::<u8>::empty());
    }
    while i < text.len()
        invariant
            i <= text.len(),
            out@ == with_returns(text@.take(i as int)),
        decreases text.len() - i,
    {
        proof {
            assert(text@.take(i + 1).drop_last() =~= text@.take(i as int));
        }
        if text[i] == LF {
            out.push(CR);
        }
        out.push(text[i]);
        i += 1;
    }
    proof {
        assert(text@.take(text@.len() as int) =~= text@);
    }
    out
}

/// The text as a table keeps it.
pub fn normalize(text: &[u8]) -> (out: Vec<u8>)
    ensures
        out@ == normalized(text@),
{
    if contains_line_break(text) {
        let mut out: Vec<u8> = Vec::new();
        out.extend_from_slice(text);
        proof {
            assert(out@ =~= text@);
        }
        out
    } else {
        add_returns(text)
    }
}

/// The table of line starts of a text: 0, and then the place of each line
/// feed.
pub fn line_feeds(text: &[u8]) -> (marks: Vec<usize>)
    ensures
        marks@ == seq![0usize] + feeds(text@),
{
    let mut marks: Vec<usize> = Vec::new();
    marks.push(0);
    let mut i: usize = 0;
    proof {
        assert(text@.take(0) =~= Seq::<u8>::empty());
        assert(marks@ =~= seq![0usize] + feeds(text@.take(0)));
    }
    while i < text.len()
        invariant
            i <= text.len(),
            marks@ == seq![0usize] + feeds(text@.take(i as int)),
        decreases text.len() - i,
    {
        proof {
            assert(text@.take(i + 1).drop_last() =~= text@.take(i as int));
        }
        if text[i] == LF {
            marks.push(i);
            proof {
                assert(marks@ =~= seq![0usize] + feeds(text@.take(i + 1)));
            }
        }
        i += 1;
    }
    proof {
        assert(text@.take(text@.len() as int) =~= text@);
    }
    marks
}

/// Each entry of `feeds` is the place of a line feed of the text.
pub proof fn lemma_feeds_sound(text: Seq<u8>, k: int)
    requires
        text.len() <= usize::MAX,
        0 <= k < feeds(text).len(),
    ensures
        feeds(text)[k] < text.len(),
        text[feeds(text)[k] as int] == LF,
    decreases text.len(),
{
    if text.len() > 0 {
        let init = text.drop_last();
        if k < feeds(init).len() {
            lemma_feeds_sound(init, k);
            assert(init[feeds(init)[k] as int] == text[feeds(init)[k] as int]);
        }
    }
}

/// The entries of `feeds` grow strictly.
pub proof fn lemma_feeds_grow(text: Seq<u8>, a: int, b: int)
    requires
        text.len() <= usize::MAX,
        0 <= a < b < feeds(text).len(),
    ensures
        feeds(text)[a] < feeds(text)[b],
    decreases text.len(),
{
    if text.len() > 0 {
        let init = text.drop_last();
        if b < feeds(init).len() {
            lemma_feeds_grow(init, a, b);
        } else {
            lemma_feeds_sound(init, a);
        }
    }
}

/// The line feeds of two texts joined are those of the one and those of the
/// other.
pub proof fn lemma_count_feeds_concat(a: Seq<u8>, b: Seq<u8>)
    ensures
        count_feeds(a + b) == count_feeds(a) + count_feeds(b),
    decreases b.len(),
{
    if b.len() == 0 {
        assert(a + b =~= a);
    } else {
        lemma_count_feeds_concat(a, b.drop_last());
        assert((a + b).drop_last() =~= a + b.drop_last());
    }
}

/// A text without line feeds, appended to another, adds nothing to the places
/// of its line feeds.
pub proof fn lemma_feeds_append_plain(a: Seq<u8>, b: Seq<u8>)
    requires
        count_feeds(b) == 0,
    ensures
        feeds(a + b) == feeds(a),
    decreases b.len(),
{
    if b.len() == 0 {
        assert(a + b =~= a);
    } else {
        lemma_feeds_append_plain(a, b.drop_last());
        assert((a + b).drop_last() =~= a + b.drop_last());
    }
}

/// A line break appended to a text adds the place of its line feed.
pub proof fn lemma_feeds_append_break(a: Seq<u8>)
    ensures
        feeds(a + seq![CR, LF]) == feeds(a).push((a.len() + 1) as usize),
{
    let longer = a + seq![CR, LF];
    reveal_with_fuel(feeds, 3);
    assert(longer.drop_last() =~= a.push(CR));
    assert(a.push(CR).drop_last() =~= a);
    assert(longer.last() == LF);
    assert(a.push(CR).last() == CR);
}

/// The lines of two texts joined start where those of the first start, and
/// where those of the second start after the first.
pub proof fn lemma_line_ends_concat(a: Seq<u8>, b: Seq<u8>)
    ensures
        line_ends(a + b) == line_ends(a) + moved(line_ends(b), a.len() as int),
    decreases b.len(),
{
    if b.len() == 0 {
        assert(a + b =~= a);
        assert(line_ends(a) + moved(line_ends(b), a.len() as int) =~= line_ends(a));
    } else {
        lemma_line_ends_concat(a, b.drop_last());
        assert((a + b).drop_last() =~= a + b.drop_last());
        assert(line_ends(a + b) =~= line_ends(a) + moved(line_ends(b), a.len() as int));
    }
}

/// A text without line feeds holds none at any place.
pub proof fn lemma_no_feed(text: Seq<u8>, at: int)
    requires
        count_feeds(text) == 0,
        0 <= at < text.len(),
    ensures
        text[at] != LF,
    decreases text.len(),
{
    if at < text.len() - 1 {
        lemma_no_feed(text.drop_last(), at);
    }
}

} // verus!

//! Parting a text at the occurrences of a gap.

use vstd::prelude::*;

verus! {

/// The pieces of `text` that lie between the occurrences of `gap`, found from
/// the left and not overlapping. There is always one piece more than there
/// are such occurrences, and a piece is empty where two of them meet or where
/// one stands at either end of `text`. An empty gap occurs nowhere.
pub open spec fn split(text: Seq<char>, gap: Seq<char>) -> Seq<Seq<char>>
    decreases text.len(),
{
    if gap.len() == 0 || text.len() < gap.len() {
        seq![text]
    } else if text.take(gap.len() as int) == gap {
        seq![Seq::empty()] + split(text.skip(gap.len() as int), gap)
    } else {
        let rest = split(text.drop_first(), gap);
        seq![seq![text[0]] + rest[0]] + rest.drop_first()
    }
}

/// The character sequences that `pieces` hold.
pub open spec fn views(pieces: Seq<Vec<char>>) -> Seq<Seq<char>> {
    pieces.map_values(|piece: Vec<char>| piece@)
}

/// A split always yields at least one piece.
pub proof fn lemma_split_nonempty(text: Seq<char>, gap: Seq<char>)
    ensures
        split(text, gap).len() > 0,
    decreases text.len(),
{
    if gap.len() == 0 || text.len() < gap.len() {
    } else if text.take(gap.len() as int) == gap {
    } else {
        lemma_split_nonempty(text.drop_first(), gap);
    }
}

/// The pieces put together again, with `gap` between any two.
pub open spec fn rejoined(pieces: Seq<Seq<char>>, gap: Seq<char>) -> Seq<char>
    decreases pieces.len(),
{
    if pieces.len() == 0 {
        Seq::empty()
    } else if pieces.len() == 1 {
        pieces[0]
    } else {
        rejoined(pieces.drop_last(), gap) + gap + pieces.last()
    }
}

/// Putting together a piece and the pieces after it.
proof fn lemma_rejoined_from_front(head: Seq<char>, tail: Seq<Seq<char>>, gap: Seq<char>)
    requires
        tail.len() > 0,
    ensures
        rejoined(seq![head] + tail, gap) == head + gap + rejoined(tail, gap),
    decreases tail.len(),
{
    let all = seq![head] + tail;
    if tail.len() == 1 {
        assert(rejoined(all.drop_last(), gap) == head);
    } else {
        assert(all.drop_last() == seq![head] + tail.drop_last());
        lemma_rejoined_from_front(head, tail.drop_last(), gap);
    }
}

/// Splitting loses nothing: the pieces of a text, put together again with
/// the gap between any two, are the text.
pub proof fn theorem_split_rejoins(text: Seq<char>, gap: Seq<char>)
    ensures
        rejoined(split(text, gap), gap) == text,
    decreases text.len(),
{
    let n = gap.len() as int;
    if gap.len() == 0 || text.len() < gap.len() {
        // one piece, which is the text
    } else if text.take(n) == gap {
        let rest = text.skip(n);
        theorem_split_rejoins(rest, gap);
        lemma_split_nonempty(rest, gap);
        lemma_rejoined_from_front(Seq::empty(), split(rest, gap), gap);
        assert(text.take(n) + text.skip(n) == text);
    } else {
        let rest = text.drop_first();
        let others = split(rest, gap);
        let opened = seq![text[0]] + others[0];
        theorem_split_rejoins(rest, gap);
        lemma_split_nonempty(rest, gap);
        assert(seq![text[0]] + rest == text);
        if others.len() > 1 {
            let more = others.drop_first();
            assert(others == seq![others[0]] + more);
            lemma_rejoined_from_front(others[0], more, gap);
            lemma_rejoined_from_front(opened, more, gap);
            assert(opened + gap + rejoined(more, gap) == seq![text[0]] + (others[0] + gap
                + rejoined(more, gap)));
        }
    }
}

/// Whether `gap` stands in `text` at `at`.
pub open spec fn stands(text: Seq<char>, gap: Seq<char>, at: int) -> bool {
    0 <= at && at + gap.len() <= text.len() && text.subrange(at, at + gap.len()) == gap
}

/// The `k`-th piece together with the gap that follows it, if one does.
pub open spec fn closed(pieces: Seq<Seq<char>>, gap: Seq<char>, k: int) -> Seq<char> {
    if k + 1 < pieces.len() {
        pieces[k] + gap
    } else {
        pieces[k]
    }
}

/// Splitting parts the text at the first gap it comes to: in a piece and the
/// gap that follows it, the gap stands nowhere but at the end of the piece,
/// and in the last piece it stands nowhere at all.
pub proof fn theorem_split_at_first_gaps(text: Seq<char>, gap: Seq<char>, k: int, at: int)
    requires
        gap.len() > 0,
        0 <= k < split(text, gap).len(),
        0 <= at < split(text, gap)[k].len(),
    ensures
        !stands(closed(split(text, gap), gap, k), gap, at),
    decreases text.len(),
{
    let n = gap.len() as int;
    let pieces = split(text, gap);
    if text.len() < gap.len() {
        // one piece, too short to hold the gap
    } else if text.take(n) == gap {
        // an empty piece, then the pieces of the rest
        let rest = text.skip(n);
        assert(pieces[k] == split(rest, gap)[k - 1]);
        theorem_split_at_first_gaps(rest, gap, k - 1, at);
    } else {
        // the first character opens the first piece of the rest
        let rest = text.drop_first();
        let others = split(rest, gap);
        lemma_split_nonempty(rest, gap);
        if k > 0 {
            assert(pieces[k] == others[k]);
            theorem_split_at_first_gaps(rest, gap, k, at);
        } else {
            let whole = closed(pieces, gap, 0);
            let inner = closed(others, gap, 0);
            assert(whole == seq![text[0]] + inner);
            if stands(whole, gap, at) {
                if at == 0 {
                    // the piece and its gap open the text, which would begin
                    // with the gap
                    theorem_split_rejoins(text, gap);
                    if pieces.len() > 1 {
                        assert(pieces == seq![pieces[0]] + pieces.drop_first());
                        lemma_rejoined_from_front(pieces[0], pieces.drop_first(), gap);
                    }
                    assert(text.take(n) == whole.subrange(0, n));
                } else {
                    assert(whole.subrange(at, at + n) == inner.subrange(at - 1, at - 1 + n));
                    theorem_split_at_first_gaps(rest, gap, 0, at - 1);
                }
            }
        }
    }
}

/// A text that holds the first character of `gap` nowhere is one piece.
pub proof fn lemma_split_whole(text: Seq<char>, gap: Seq<char>)
    requires
        gap.len() > 0,
        !text.contains(gap[0]),
    ensures
        split(text, gap) == seq![text],
    decreases text.len(),
{
    if text.len() < gap.len() {
        // too short to hold the gap
    } else if text.take(gap.len() as int) == gap {
        // cannot be: the text would begin with the first character of the gap
        assert(text[0] == text.take(gap.len() as int)[0]);
    } else {
        let rest = text.drop_first();
        assert forall|c: char| rest.contains(c) implies text.contains(c) by {
            let i = choose|i: int| 0 <= i < rest.len() && rest[i] == c;
            assert(text[i + 1] == c);
        }
        lemma_split_whole(rest, gap);
        assert(seq![text[0]] + rest == text);
    }
}

/// With a gap of one character, the pieces of two texts joined by the gap
/// are the pieces of the first and then those of the second.
pub proof fn lemma_split_around_gap(first: Seq<char>, second: Seq<char>, gap: char)
    ensures
        split(first.push(gap) + second, seq![gap]) == split(first, seq![gap]) + split(
            second,
            seq![gap],
        ),
    decreases first.len(),
{
    let whole = first.push(gap) + second;
    let g = seq![gap];
    if first.len() == 0 {
        // the gap comes first, and `second` is what follows it
        assert(whole.take(1) == g);
        assert(whole.skip(1) == second);
        assert(first == Seq::<char>::empty());
    } else {
        let tail = first.drop_first();
        assert(whole.drop_first() == tail.push(gap) + second);
        lemma_split_around_gap(tail, second, gap);
        lemma_split_nonempty(tail, g);
        if first[0] == gap {
            // an empty piece, then the pieces of the rest
            assert(whole.take(1) == g);
            assert(first.take(1) == g);
        } else {
            // the first character opens the first piece of the rest
            assert(first.take(1)[0] != g[0]);
        }
    }
}

/// Tells whether `gap` stands in `text` at `at`.
fn stands_at(text: &Vec<char>, at: usize, gap: &Vec<char>) -> (found: bool)
    requires
        at <= text.len(),
    ensures
        found == stands(text@, gap@, at as int),
{
    if gap.len() > text.len() - at {
        return false;
    }
    let mut k: usize = 0;
    while k < gap.len()
        invariant
            at <= text.len(),
            gap.len() <= text.len() - at,
            k <= gap.len(),
            forall|j: int| 0 <= j < k ==> text@[at + j] == gap@[j],
        decreases gap.len() - k,
    {
        if text[at + k] != gap[k] {
            assert(text@.subrange(at as int, at + gap.len())[k as int] != gap@[k as int]);
            return false;
        }
        k += 1;
    }
    assert(text@.subrange(at as int, at + gap.len()) == gap@);
    true
}

/// The pieces of a text of which `opened` has been read into the first piece
/// and `rest` are the pieces of what is still to be read.
spec fn resumed(opened: Seq<char>, rest: Seq<Seq<char>>) -> Seq<Seq<char>> {
    seq![opened + rest[0]] + rest.drop_first()
}

/// Splits `text` at each occurrence of `gap`, found from the left and not
/// overlapping. An empty gap occurs nowhere, so that the text is one piece.
pub fn split_at_gaps(text: &Vec<char>, gap: &Vec<char>) -> (pieces: Vec<Vec<char>>)
    ensures
        views(pieces@) == split(text@, gap@),
{
    let mut pieces: Vec<Vec<char>> = Vec::new();
    let mut piece: Vec<char> = Vec::new();
    let mut i: usize = 0;
    proof {
        lemma_split_nonempty(text@, gap@);
        assert(text@.skip(0) == text@);
        assert(resumed(piece@, split(text@, gap@)) == split(text@, gap@));
    }
    while i < text.len()
        invariant
            i <= text.len(),
            split(text@, gap@) == views(pieces@) + resumed(
                piece@,
                split(text@.skip(i as int), gap@),
            ),
        decreases text.len() - i,
    {
        let ghost here = text@.skip(i as int);
        if gap.len() > 0 && stands_at(text, i, gap) {
            proof {
                let after = text@.skip((i + gap.len()) as int);
                assert(here.take(gap.len() as int) == text@.subrange(i as int, i + gap.len()));
                assert(here.skip(gap.len() as int) == after);
                lemma_split_nonempty(after, gap@);
                assert(resumed(Seq::empty(), split(after, gap@)) == split(after, gap@));
                assert(views(pieces@.push(piece)) == views(pieces@).push(piece@));
            }
            pieces.push(piece);
            piece = Vec::new();
            i += gap.len();
        } else {
            proof {
                let after = text@.skip((i + 1) as int);
                assert(here.drop_first() == after);
                lemma_split_nonempty(after, gap@);
                if gap.len() == 0 || here.len() < gap.len() {
                    assert(here == seq![here[0]] + after);
                } else {
                    assert(here.take(gap.len() as int) == text@.subrange(i as int, i + gap.len()));
                }
                assert(piece@.push(text@[i as int]) + split(after, gap@)[0] == piece@ + (seq![
                    here[0],
                ] + split(after, gap@)[0]));
            }
            piece.push(text[i]);
            i += 1;
        }
    }
    proof {
        assert(text@.skip(i as int) == Seq::<char>::empty());
        assert(views(pieces@.push(piece)) == views(pieces@).push(piece@));
    }
    pieces.push(piece);
    pieces
}

} // verus!

//! Alignment of typed input against target text.
//!
//! Target and input are compared token by token, and inside a token character
//! by character, each time to the end of the longer side.

use crate::runs::{
    absorb, coalesce, gather, input_chars, input_side, lemma_chars_concat, lemma_correct_run,
    lemma_gather_concat, lemma_gather_sides, push_cell, runs_of, target_chars, target_side, Cell,
    Kind, Run, Segment,
};
use crate::text::{chars_of, one_char};
use crate::tokens::{pieces, split_tokens, terminated, texts, token_at, tokens, SEPARATOR};
use crate::zip::{full_zip, longest, owned, padded};
use vstd::prelude::*;

verus! {

/// The cell at position `k` of a target token set against an input token.
pub open spec fn cell_at(target: Seq<char>, input: Seq<char>, k: int) -> Cell {
    if k < target.len() && k < input.len() {
        if target[k] == input[k] {
            Cell::Correct(target[k])
        } else {
            Cell::Incorrect { target: target[k], input: input[k] }
        }
    } else if k < target.len() {
        Cell::NoInput(target[k])
    } else {
        Cell::Excess(input[k])
    }
}

/// The cells of a target token set against an input token, to the end of the
/// longer of the two.
pub open spec fn cells(target: Seq<char>, input: Seq<char>) -> Seq<Cell> {
    Seq::new(longest(target.len(), input.len()), |k: int| cell_at(target, input, k))
}

/// Classifies one pair of a full zip of two tokens. A pair with both sides
/// absent marks no position and yields nothing.
pub fn classify(target: Option<&char>, input: Option<&char>) -> (cell: Option<Cell>)
    ensures
        cell == match (owned(target), owned(input)) {
            (Some(t), Some(i)) => Some(
                if t == i {
                    Cell::Correct(t)
                } else {
                    Cell::Incorrect { target: t, input: i }
                },
            ),
            (Some(t), None) => Some(Cell::NoInput(t)),
            (None, Some(i)) => Some(Cell::Excess(i)),
            (None, None) => None,
        },
{
    match (target, input) {
        (Some(t), Some(i)) => if *t == *i {
            Some(Cell::Correct(*t))
        } else {
            Some(Cell::Incorrect { target: *t, input: *i })
        },
        (Some(t), None) => Some(Cell::NoInput(*t)),
        (None, Some(i)) => Some(Cell::Excess(*i)),
        (None, None) => None,
    }
}

/// Sets an input token against a target token and adds the cells to the
/// segments gathered so far.
pub fn push_token(segments: &mut Vec<Segment>, target: &Vec<char>, input: &Vec<char>)
    ensures
        runs_of(final(segments)@) == gather(runs_of(old(segments)@), cells(target@, input@)),
{
    let pairs = full_zip(target, input);
    let ghost before = runs_of(segments@);
    let ghost all = cells(target@, input@);
    let mut k: usize = 0;
    while k < pairs.len()
        invariant
            k <= pairs.len(),
            pairs.len() == longest(target@.len(), input@.len()),
            all == cells(target@, input@),
            forall|j: int|
                0 <= j < pairs.len() ==> owned(#[trigger] pairs[j].0) == padded(target@, j)
                    && owned(pairs[j].1) == padded(input@, j),
            runs_of(segments@) == gather(before, all.take(k as int)),
        decreases pairs.len() - k,
    {
        let pair = &pairs[k];
        assert(all.take(k + 1).drop_last() =~= all.take(k as int));
        assert(all.take(k + 1).last() == cell_at(target@, input@, k as int));
        match classify(pair.0, pair.1) {
            Some(cell) => {
                push_cell(segments, cell);
            },
            None => {
                assert(false);
            },
        }
        k += 1;
    }
    assert(all.take(k as int) =~= all);
}

/// Sets an input token against a target token, character by character to the
/// end of the longer one, and gathers what comes of it into segments.
pub fn align_token(target: &Vec<char>, input: &Vec<char>) -> (segments: Vec<Segment>)
    ensures
        runs_of(segments@) == coalesce(cells(target@, input@)),
{
    let mut segments: Vec<Segment> = Vec::new();
    assert(runs_of(segments@) =~= Seq::empty());
    push_token(&mut segments, target, input);
    segments
}

/// The cell of a separator between two positions. It counts as typed
/// correctly, whatever stands next to it.
pub open spec fn separator_cell() -> Cell {
    Cell::Correct(SEPARATOR)
}

/// The cells of the first `count` token positions, with a separator between
/// one position and the next.
pub open spec fn stream(target: Seq<Seq<char>>, input: Seq<Seq<char>>, count: int) -> Seq<Cell>
    decreases count,
{
    if count <= 0 {
        Seq::empty()
    } else {
        stream(target, input, count - 1) + (if count > 1 {
            seq![separator_cell()]
        } else {
            Seq::empty()
        }) + cells(token_at(target, count - 1), token_at(input, count - 1))
    }
}

/// The alignment of input tokens against target tokens.
///
/// The two are walked together to the end of the longer one; where one has run
/// out, the other's token stands against an empty one. The cells of all
/// positions, separators between them included, are gathered into runs, and a
/// closing separator follows as a run of its own. Without any token there is
/// no run at all.
pub open spec fn aligned(target: Seq<Seq<char>>, input: Seq<Seq<char>>) -> Seq<Run> {
    let count = longest(target.len(), input.len());
    if count == 0 {
        Seq::empty()
    } else {
        coalesce(stream(target, input, count as int)).push(Run::Correct(seq![SEPARATOR]))
    }
}

/// Aligns typed text against target tokens and classifies every character
/// for display.
///
/// `input` is cut into tokens at its separators. A target token without an
/// input token comes out as not typed, an input token without a target token
/// as excess.
pub fn align(target: &Vec<Vec<char>>, input: &Vec<char>) -> (segments: Vec<Segment>)
    ensures
        runs_of(segments@) == aligned(texts(target@), tokens(input@)),
{
    let typed = split_tokens(input);
    let pairs = full_zip(target, &typed);
    let absent: Vec<char> = Vec::new();
    let mut segments: Vec<Segment> = Vec::new();
    let ghost t = texts(target@);
    let ghost i = tokens(input@);
    assert(runs_of(segments@) =~= coalesce(stream(t, i, 0)));
    let mut p: usize = 0;
    while p < pairs.len()
        invariant
            p <= pairs.len(),
            pairs.len() == longest(target@.len(), typed@.len()),
            t == texts(target@),
            i == texts(typed@),
            absent@ == Seq::<char>::empty(),
            forall|j: int|
                0 <= j < pairs.len() ==> owned(#[trigger] pairs[j].0) == padded(target@, j)
                    && owned(pairs[j].1) == padded(typed@, j),
            runs_of(segments@) == coalesce(stream(t, i, p as int)),
        decreases pairs.len() - p,
    {
        let ghost done = stream(t, i, p as int);
        let ghost gap = if p > 0 {
            seq![separator_cell()]
        } else {
            Seq::empty()
        };
        if p > 0 {
            push_cell(&mut segments, Cell::Correct(SEPARATOR));
        }
        assert(runs_of(segments@) == gather(Seq::empty(), done + gap)) by {
            lemma_gather_concat(Seq::empty(), done, gap);
            let gathered = gather(Seq::empty(), done);
            if p > 0 {
                assert(gap.drop_last() =~= Seq::empty());
                assert(gap.last() == separator_cell());
                assert(gather(gathered, gap.drop_last()) == gathered);
                assert(gather(gathered, gap) == absorb(gathered, separator_cell()));
            } else {
                assert(gather(gathered, gap) == gathered);
            }
        }
        let pair = &pairs[p];
        let target_token: &Vec<char> = match pair.0 {
            Some(token) => token,
            None => &absent,
        };
        let input_token: &Vec<char> = match pair.1 {
            Some(token) => token,
            None => &absent,
        };
        assert(target_token@ == token_at(t, p as int));
        assert(input_token@ == token_at(i, p as int));
        push_token(&mut segments, target_token, input_token);
        proof {
            lemma_gather_concat(Seq::empty(), done + gap, cells(target_token@, input_token@));
        }
        p += 1;
    }
    if pairs.len() > 0 {
        let ghost before = runs_of(segments@);
        segments.push(Segment::Correct(one_char(SEPARATOR)));
        assert(runs_of(segments@) =~= before.push(Run::Correct(seq![SEPARATOR])));
    }
    segments
}

/// Aligns typed text against target text, both cut into tokens at their
/// separators.
pub fn align_text(target: &str, input: &str) -> (segments: Vec<Segment>)
    ensures
        runs_of(segments@) == aligned(tokens(target@), tokens(input@)),
{
    let targets = split_tokens(&chars_of(target));
    align(&targets, &chars_of(input))
}

/// The characters in the first `k` cells of two tokens set against each other
/// are the first `k` characters of each token, as far as it reaches.
proof fn lemma_cells_chars(target: Seq<char>, input: Seq<char>, k: int)
    requires
        0 <= k <= longest(target.len(), input.len()),
    ensures
        target_chars(cells(target, input).take(k)) == target.take(
            if k <= target.len() {
                k
            } else {
                target.len() as int
            },
        ),
        input_chars(cells(target, input).take(k)) == input.take(
            if k <= input.len() {
                k
            } else {
                input.len() as int
            },
        ),
    decreases k,
{
    let all = cells(target, input);
    if k == 0 {
        assert(target.take(0) =~= Seq::empty());
        assert(input.take(0) =~= Seq::empty());
    } else {
        lemma_cells_chars(target, input, k - 1);
        assert(all.take(k).drop_last() =~= all.take(k - 1));
        assert(all.take(k).last() == cell_at(target, input, k - 1));
        if k <= target.len() {
            assert(target.take(k) =~= target.take(k - 1) + seq![target[k - 1]]);
        } else {
            assert(target.take(target.len() as int) + Seq::<char>::empty() =~= target.take(
                target.len() as int,
            ));
        }
        if k <= input.len() {
            assert(input.take(k) =~= input.take(k - 1) + seq![input[k - 1]]);
        } else {
            assert(input.take(input.len() as int) + Seq::<char>::empty() =~= input.take(
                input.len() as int,
            ));
        }
    }
}

/// Round trip of a token: the target sides of the segments that
/// [`align_token`] yields spell the target token, and their input sides spell
/// the input token.
pub proof fn lemma_token_round_trip(target: Seq<char>, input: Seq<char>)
    ensures
        target_side(coalesce(cells(target, input))) == target,
        input_side(coalesce(cells(target, input))) == input,
{
    let all = cells(target, input);
    lemma_gather_sides(Seq::empty(), all);
    lemma_cells_chars(target, input, all.len() as int);
    assert(all.take(all.len() as int) =~= all);
    assert(target.take(target.len() as int) =~= target);
    assert(input.take(input.len() as int) =~= input);
    assert(Seq::<char>::empty() + target =~= target);
    assert(Seq::<char>::empty() + input =~= input);
}

/// A token typed exactly as the target has it is one correct run.
pub proof fn lemma_exact_match(token: Seq<char>)
    requires
        token.len() > 0,
    ensures
        coalesce(cells(token, token)) == seq![Run::Correct(token)],
    decreases token.len(),
{
    let all = cells(token, token);
    let shorter = token.drop_last();
    assert(all.drop_last() =~= cells(shorter, shorter));
    assert(all.last() == Cell::Correct(token.last()));
    if shorter.len() == 0 {
        assert(coalesce(cells(shorter, shorter)) =~= Seq::empty());
        assert(seq![token.last()] =~= token);
    } else {
        lemma_exact_match(shorter);
        assert(shorter.push(token.last()) =~= token);
        assert(coalesce(all) =~= seq![Run::Correct(token)]);
    }
}

/// A target token against no input is one run of characters not typed.
pub proof fn lemma_no_input(token: Seq<char>)
    requires
        token.len() > 0,
    ensures
        coalesce(cells(token, Seq::empty())) == seq![Run::NoInput(token)],
    decreases token.len(),
{
    let all = cells(token, Seq::empty());
    let shorter = token.drop_last();
    assert(all.drop_last() =~= cells(shorter, Seq::empty()));
    assert(all.last() == Cell::NoInput(token.last()));
    if shorter.len() == 0 {
        assert(coalesce(cells(shorter, Seq::empty())) =~= Seq::empty());
        assert(seq![token.last()] =~= token);
    } else {
        lemma_no_input(shorter);
        assert(shorter.push(token.last()) =~= token);
        assert(coalesce(all) =~= seq![Run::NoInput(token)]);
    }
}

/// An input token against no target is one run of excess characters.
pub proof fn lemma_all_excess(token: Seq<char>)
    requires
        token.len() > 0,
    ensures
        coalesce(cells(Seq::empty(), token)) == seq![Run::Excess(token)],
    decreases token.len(),
{
    let all = cells(Seq::empty(), token);
    let shorter = token.drop_last();
    assert(all.drop_last() =~= cells(Seq::empty(), shorter));
    assert(all.last() == Cell::Excess(token.last()));
    if shorter.len() == 0 {
        assert(coalesce(cells(Seq::empty(), shorter)) =~= Seq::empty());
        assert(seq![token.last()] =~= token);
    } else {
        lemma_all_excess(shorter);
        assert(shorter.push(token.last()) =~= token);
        assert(coalesce(all) =~= seq![Run::Excess(token)]);
    }
}

/// The characters of the cells of `count` positions, closed by a separator,
/// are the tokens of those positions written out.
proof fn lemma_stream_chars(target: Seq<Seq<char>>, input: Seq<Seq<char>>, count: int)
    requires
        count >= 1,
    ensures
        target_chars(stream(target, input, count)).push(SEPARATOR) == terminated(target, count),
        input_chars(stream(target, input, count)).push(SEPARATOR) == terminated(input, count),
    decreases count,
{
    let t = token_at(target, count - 1);
    let i = token_at(input, count - 1);
    let last = cells(t, i);
    let before = stream(target, input, count - 1);
    let gap = if count > 1 {
        seq![separator_cell()]
    } else {
        Seq::empty()
    };
    lemma_token_round_trip(t, i);
    lemma_gather_sides(Seq::empty(), last);
    assert(target_chars(last) =~= t);
    assert(input_chars(last) =~= i);
    lemma_chars_concat(before + gap, last);
    lemma_chars_concat(before, gap);
    if count > 1 {
        lemma_stream_chars(target, input, count - 1);
        assert(gap.drop_last() =~= Seq::empty());
        assert(gap.last() == separator_cell());
        assert(target_chars(gap.drop_last()) =~= Seq::empty());
        assert(input_chars(gap.drop_last()) =~= Seq::empty());
        assert(target_chars(gap) =~= seq![SEPARATOR]);
        assert(input_chars(gap) =~= seq![SEPARATOR]);
        assert(target_chars(before) + seq![SEPARATOR] =~= target_chars(before).push(SEPARATOR));
        assert(input_chars(before) + seq![SEPARATOR] =~= input_chars(before).push(SEPARATOR));
        assert(target_chars(stream(target, input, count)).push(SEPARATOR) =~= terminated(
            target,
            count,
        ));
        assert(input_chars(stream(target, input, count)).push(SEPARATOR) =~= terminated(
            input,
            count,
        ));
    } else {
        assert(before =~= Seq::empty());
        assert(before + gap + last =~= last);
        assert(terminated(target, 0) =~= Seq::empty());
        assert(terminated(input, 0) =~= Seq::empty());
        assert(terminated(target, count) =~= t.push(SEPARATOR));
        assert(terminated(input, count) =~= i.push(SEPARATOR));
    }
}

/// Round trip of an alignment: the target sides of the segments that
/// [`align`] yields spell the target tokens, each followed by a separator,
/// and their input sides spell the input tokens in the same way. The shorter
/// of the two counts as filled up with empty tokens.
pub proof fn lemma_round_trip(target: Seq<Seq<char>>, input: Seq<Seq<char>>)
    ensures
        target_side(aligned(target, input)) == terminated(
            target,
            longest(target.len(), input.len()) as int,
        ),
        input_side(aligned(target, input)) == terminated(
            input,
            longest(target.len(), input.len()) as int,
        ),
{
    let count = longest(target.len(), input.len()) as int;
    if count > 0 {
        let all = stream(target, input, count);
        let closing = Run::Correct(seq![SEPARATOR]);
        lemma_stream_chars(target, input, count);
        lemma_gather_sides(Seq::empty(), all);
        assert(aligned(target, input).drop_last() =~= coalesce(all));
        assert(Seq::<char>::empty() + target_chars(all) =~= target_chars(all));
        assert(Seq::<char>::empty() + input_chars(all) =~= input_chars(all));
        assert(target_chars(all) + closing.target_part() =~= target_chars(all).push(SEPARATOR));
        assert(input_chars(all) + closing.input_part() =~= input_chars(all).push(SEPARATOR));
    }
}

/// A target token for which nothing was typed comes out as one run of
/// characters not typed, then the closing separator.
pub proof fn lemma_align_no_input(token: Seq<char>)
    requires
        token.len() > 0,
    ensures
        tokens(Seq::empty()) == Seq::<Seq<char>>::empty(),
        aligned(seq![token], Seq::empty()) == seq![
            Run::NoInput(token),
            Run::Correct(seq![SEPARATOR]),
        ],
{
    let target = seq![token];
    let input = Seq::<Seq<char>>::empty();
    assert(pieces(Seq::empty()).drop_last() =~= Seq::<Seq<char>>::empty());
    lemma_no_input(token);
    assert(stream(target, input, 0) =~= Seq::empty());
    assert(stream(target, input, 1) =~= cells(token, Seq::empty()));
    assert(aligned(target, input) =~= seq![Run::NoInput(token), Run::Correct(seq![SEPARATOR])]);
}

/// An input token for which the target has nothing comes out as one run of
/// excess characters, then the closing separator.
pub proof fn lemma_align_excess(token: Seq<char>)
    requires
        token.len() > 0,
    ensures
        aligned(Seq::empty(), seq![token]) == seq![
            Run::Excess(token),
            Run::Correct(seq![SEPARATOR]),
        ],
{
    let target = Seq::<Seq<char>>::empty();
    let input = seq![token];
    lemma_all_excess(token);
    assert(stream(target, input, 0) =~= Seq::empty());
    assert(stream(target, input, 1) =~= cells(Seq::empty(), token));
    assert(aligned(target, input) =~= seq![Run::Excess(token), Run::Correct(seq![SEPARATOR])]);
}

/// A token typed exactly as the target has it comes out as one correct run,
/// then the closing separator.
pub proof fn lemma_align_exact(token: Seq<char>)
    requires
        token.len() > 0,
    ensures
        aligned(seq![token], seq![token]) == seq![
            Run::Correct(token),
            Run::Correct(seq![SEPARATOR]),
        ],
{
    let both = seq![token];
    lemma_exact_match(token);
    assert(stream(both, both, 0) =~= Seq::empty());
    assert(stream(both, both, 1) =~= cells(token, token));
    assert(aligned(both, both) =~= seq![Run::Correct(token), Run::Correct(seq![SEPARATOR])]);
}

/// Tokens set against themselves yield correct cells only.
proof fn lemma_stream_same(tokens: Seq<Seq<char>>, count: int)
    ensures
        forall|k: int|
            0 <= k < stream(tokens, tokens, count).len() ==> (#[trigger] stream(
                tokens,
                tokens,
                count,
            )[k]).kind() == Kind::Correct,
    decreases count,
{
    if count > 0 {
        lemma_stream_same(tokens, count - 1);
    }
}

/// Text typed exactly as the target has it comes out as one correct run,
/// separators and all, then the closing separator.
pub proof fn lemma_align_same(tokens: Seq<Seq<char>>)
    requires
        stream(tokens, tokens, tokens.len() as int).len() > 0,
    ensures
        aligned(tokens, tokens) == seq![
            Run::Correct(terminated(tokens, tokens.len() as int).drop_last()),
            Run::Correct(seq![SEPARATOR]),
        ],
{
    let count = tokens.len() as int;
    let all = stream(tokens, tokens, count);
    lemma_stream_same(tokens, count);
    lemma_correct_run(all);
    lemma_stream_chars(tokens, tokens, count);
    assert(target_chars(all).push(SEPARATOR).drop_last() =~= target_chars(all));
}

} // verus!

//! Cutting text into tokens at its separators, and writing tokens out again.

use crate::zip::padded;
use vstd::prelude::*;

verus! {

/// The character that separates tokens.
pub const SEPARATOR: char = ' ';

/// The texts of a sequence of tokens.
pub open spec fn texts(tokens: Seq<Vec<char>>) -> Seq<Seq<char>> {
    Seq::new(tokens.len(), |k: int| tokens[k]@)
}

/// `text` cut at every separator. There is one piece more than there are
/// separators, and a piece may be empty.
pub open spec fn pieces(text: Seq<char>) -> Seq<Seq<char>>
    decreases text.len(),
{
    if text.len() == 0 {
        seq![Seq::empty()]
    } else {
        let before = pieces(text.drop_last());
        if text.last() == SEPARATOR {
            before.push(Seq::empty())
        } else {
            before.drop_last().push(before.last().push(text.last()))
        }
    }
}

/// The tokens of `text`: its pieces, without the last one where that is empty.
/// A separator thus ends a token, and text that ends in a separator has no
/// token after it.
pub open spec fn tokens(text: Seq<char>) -> Seq<Seq<char>> {
    let all = pieces(text);
    if all.last().len() == 0 {
        all.drop_last()
    } else {
        all
    }
}

/// Cuts `text` into its tokens.
pub fn split_tokens(text: &Vec<char>) -> (found: Vec<Vec<char>>)
    ensures
        texts(found@) == tokens(text@),
{
    let mut found: Vec<Vec<char>> = Vec::new();
    let mut open: Vec<char> = Vec::new();
    let mut k: usize = 0;
    assert(text@.take(0) =~= Seq::empty());
    assert(texts(found@).push(open@) =~= pieces(text@.take(0)));
    while k < text.len()
        invariant
            k <= text.len(),
            texts(found@).push(open@) == pieces(text@.take(k as int)),
        decreases text.len() - k,
    {
        let c = text[k];
        let ghost so_far = texts(found@).push(open@);
        assert(text@.take(k + 1).drop_last() =~= text@.take(k as int));
        assert(text@.take(k + 1).last() == c);
        assert(so_far.drop_last() =~= texts(found@));
        if c == SEPARATOR {
            found.push(open);
            open = Vec::new();
            assert(texts(found@).push(open@) =~= so_far.push(Seq::empty()));
        } else {
            open.push(c);
            assert(texts(found@).push(open@) =~= so_far.drop_last().push(so_far.last().push(c)));
        }
        k += 1;
    }
    assert(text@.take(k as int) =~= text@);
    assert(texts(found@).push(open@).drop_last() =~= texts(found@));
    if open.len() > 0 {
        found.push(open);
        assert(texts(found@) =~= pieces(text@));
    }
    found
}

/// The token at position `p`, or an empty token where the tokens have run out.
pub open spec fn token_at(tokens: Seq<Seq<char>>, p: int) -> Seq<char> {
    match padded(tokens, p) {
        Some(token) => token,
        None => Seq::empty(),
    }
}

/// The first `count` token positions written out, each token followed by a
/// separator; a position past the last token counts as an empty token.
pub open spec fn terminated(tokens: Seq<Seq<char>>, count: int) -> Seq<char>
    decreases count,
{
    if count <= 0 {
        Seq::empty()
    } else {
        terminated(tokens, count - 1) + token_at(tokens, count - 1).push(SEPARATOR)
    }
}

/// Writing out the first `count` tokens reads no token after them.
proof fn lemma_terminated_prefix(a: Seq<Seq<char>>, b: Seq<Seq<char>>, count: int)
    requires
        0 <= count <= a.len(),
        count <= b.len(),
        forall|k: int| 0 <= k < count ==> a[k] == b[k],
    ensures
        terminated(a, count) == terminated(b, count),
    decreases count,
{
    if count > 0 {
        lemma_terminated_prefix(a, b, count - 1);
    }
}

/// The pieces of a text, each followed by a separator, spell the text and one
/// separator more.
proof fn lemma_pieces_rejoin(text: Seq<char>)
    ensures
        pieces(text).len() >= 1,
        terminated(pieces(text), pieces(text).len() as int) == text.push(SEPARATOR),
        forall|k: int|
            0 <= k < pieces(text).len() ==> !(#[trigger] pieces(text)[k]).contains(SEPARATOR),
    decreases text.len(),
{
    let all = pieces(text);
    if text.len() == 0 {
        assert(terminated(all, 0) =~= Seq::empty());
        assert(terminated(all, 1) =~= text.push(SEPARATOR));
    } else {
        let shorter = text.drop_last();
        let before = pieces(shorter);
        let count = before.len() as int;
        lemma_pieces_rejoin(shorter);
        assert(shorter.push(text.last()) =~= text);
        if text.last() == SEPARATOR {
            lemma_terminated_prefix(all, before, count);
            assert(terminated(all, count + 1) =~= text.push(SEPARATOR));
        } else {
            let grown = before.last().push(text.last());
            lemma_terminated_prefix(all, before, count - 1);
            let head = terminated(before, count - 1);
            assert(terminated(before, count) == head + before.last().push(SEPARATOR));
            assert(head + before.last() =~= (head + before.last().push(SEPARATOR)).drop_last());
            assert(head + before.last() =~= shorter.push(SEPARATOR).drop_last());
            assert(shorter.push(SEPARATOR).drop_last() =~= shorter);
            assert(terminated(all, count) =~= head + grown.push(SEPARATOR));
            assert(head + grown.push(SEPARATOR) =~= (head + before.last()).push(text.last()).push(
                SEPARATOR,
            ));
            assert forall|k: int| 0 <= k < all.len() implies !(#[trigger] all[k]).contains(
                SEPARATOR,
            ) by {
                if k < count - 1 {
                    assert(all[k] == before[k]);
                } else {
                    assert(all[k] == grown);
                    assert(!before[count - 1].contains(SEPARATOR));
                }
            }
        }
    }
}

/// The tokens of a text, each followed by a separator, spell the text; a
/// text that does not end in a separator gains one. No token holds a
/// separator.
pub proof fn lemma_tokens_rejoin(text: Seq<char>)
    ensures
        terminated(tokens(text), tokens(text).len() as int) == if text.len() == 0 || text.last()
            == SEPARATOR {
            text
        } else {
            text.push(SEPARATOR)
        },
        forall|k: int|
            0 <= k < tokens(text).len() ==> !(#[trigger] tokens(text)[k]).contains(SEPARATOR),
{
    let all = pieces(text);
    let count = all.len() as int;
    lemma_pieces_rejoin(text);
    if all.last().len() == 0 {
        lemma_terminated_prefix(all.drop_last(), all, count - 1);
        let head = terminated(all, count - 1);
        assert(all.last() =~= Seq::empty());
        assert(terminated(all, count) =~= head.push(SEPARATOR));
        assert(head =~= head.push(SEPARATOR).drop_last());
        assert(text.push(SEPARATOR).drop_last() =~= text);
        if text.len() > 0 && text.last() != SEPARATOR {
            assert(all.last() == pieces(text.drop_last()).last().push(text.last()));
        }
    } else {
        if text.len() > 0 && text.last() == SEPARATOR {
            assert(all.last() =~= Seq::<char>::empty());
        }
    }
}

/// Text that ends in characters other than the separator has the pieces of
/// what stands before them, the last piece longer by those characters.
pub proof fn lemma_pieces_append(text: Seq<char>, tail: Seq<char>)
    requires
        !tail.contains(SEPARATOR),
    ensures
        pieces(text).len() >= 1,
        pieces(text + tail) == pieces(text).drop_last().push(pieces(text).last() + tail),
    decreases tail.len(),
{
    lemma_pieces_rejoin(text);
    let all = pieces(text);
    if tail.len() == 0 {
        assert(text + tail =~= text);
        assert(all.last() + tail =~= all.last());
        assert(all.drop_last().push(all.last()) =~= all);
    } else {
        let shorter = tail.drop_last();
        assert forall|k: int| 0 <= k < shorter.len() implies shorter[k] != SEPARATOR by {
            assert(tail.contains(shorter[k]));
        }
        assert(tail.contains(tail.last()));
        lemma_pieces_append(text, shorter);
        assert((text + tail).drop_last() =~= text + shorter);
        assert((all.last() + shorter).push(tail.last()) =~= all.last() + tail);
        let before = pieces(text + shorter);
        assert(before.drop_last() =~= all.drop_last());
        assert(pieces(text + tail) =~= all.drop_last().push(all.last() + tail));
    }
}

/// Tokens without a separator in them, each written out with a separator
/// behind it, are cut into themselves again, with an empty piece at the end.
pub proof fn lemma_pieces_of_terminated(tokens: Seq<Seq<char>>, count: int)
    requires
        0 <= count <= tokens.len(),
        forall|k: int| 0 <= k < count ==> !(#[trigger] tokens[k]).contains(SEPARATOR),
    ensures
        pieces(terminated(tokens, count)) == tokens.take(count).push(Seq::empty()),
    decreases count,
{
    if count == 0 {
        assert(tokens.take(0).push(Seq::<char>::empty()) =~= seq![Seq::<char>::empty()]);
    } else {
        let head = terminated(tokens, count - 1);
        let token = tokens[count - 1];
        lemma_pieces_of_terminated(tokens, count - 1);
        lemma_pieces_append(head, token);
        let filled = pieces(head + token);
        assert(pieces(head).drop_last() =~= tokens.take(count - 1));
        assert(Seq::<char>::empty() + token =~= token);
        assert(filled =~= tokens.take(count));
        let whole = terminated(tokens, count);
        assert(whole =~= (head + token).push(SEPARATOR));
        assert(whole.drop_last() =~= head + token);
    }
}

} // verus!

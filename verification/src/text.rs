//! Text as a sequence of characters.

use vstd::prelude::*;

verus! {

/// The characters of `text`, in order.
pub fn chars_of(text: &str) -> (chars: Vec<char>)
    ensures
        chars@ == text@,
{
    let mut chars: Vec<char> = Vec::new();
    for c in it: text.chars()
        invariant
            chars@ == it.seq().take(it.index() as int),
    {
        chars.push(c);
    }
    chars
}

/// Puts the characters of `more` behind those of `text`.
pub fn append_chars(text: &mut Vec<char>, more: &Vec<char>)
    ensures
        final(text)@ == old(text)@ + more@,
{
    let ghost before = text@;
    let mut k: usize = 0;
    assert(text@ =~= before + more@.take(0));
    while k < more.len()
        invariant
            k <= more.len(),
            text@ == before + more@.take(k as int),
        decreases more.len() - k,
    {
        text.push(more[k]);
        assert(text@ =~= before + more@.take(k + 1));
        k += 1;
    }
    assert(more@.take(k as int) =~= more@);
}

/// A copy of `text`.
pub fn copy_chars(text: &Vec<char>) -> (copy: Vec<char>)
    ensures
        copy@ == text@,
{
    let mut copy: Vec<char> = Vec::new();
    append_chars(&mut copy, text);
    assert(copy@ =~= text@);
    copy
}

/// The text that holds `c` alone.
pub fn one_char(c: char) -> (text: Vec<char>)
    ensures
        text@ == seq![c],
{
    let mut text: Vec<char> = Vec::new();
    text.push(c);
    assert(text@ =~= seq![c]);
    text
}

} // verus!

//! Walking two sequences of different lengths side by side.

use vstd::prelude::*;

verus! {

/// The item at `index` of `items` followed by an endless run of absences.
pub open spec fn padded<T>(items: Seq<T>, index: int) -> Option<T> {
    if 0 <= index < items.len() {
        Some(items[index])
    } else {
        None
    }
}

/// The value behind an optional reference.
pub open spec fn owned<T>(item: Option<&T>) -> Option<T> {
    match item {
        Some(x) => Some(*x),
        None => None,
    }
}

/// The greater of two lengths.
pub open spec fn longest(a: nat, b: nat) -> nat {
    if a >= b {
        a
    } else {
        b
    }
}

/// Reads `items` as a stream that never ends: every item wrapped in `Some`,
/// and `None` at every index from `items.len()` on.
pub fn extend<'a, T>(items: &'a Vec<T>, index: usize) -> (item: Option<&'a T>)
    ensures
        owned(item) == padded(items@, index as int),
{
    if index < items.len() {
        Some(&items[index])
    } else {
        None
    }
}

/// Pairs two sequences position by position up to the end of the longer one.
/// Where one of them has run out its side of the pair is `None`.
pub fn full_zip<'a, 'b, A, B>(a: &'a Vec<A>, b: &'b Vec<B>) -> (pairs: Vec<
    (Option<&'a A>, Option<&'b B>),
>)
    ensures
        pairs.len() == longest(a@.len(), b@.len()),
        forall|k: int|
            0 <= k < pairs.len() ==> owned(#[trigger] pairs[k].0) == padded(a@, k) && owned(
                pairs[k].1,
            ) == padded(b@, k),
{
    let n: usize = if a.len() >= b.len() {
        a.len()
    } else {
        b.len()
    };
    let mut pairs: Vec<(Option<&'a A>, Option<&'b B>)> = Vec::new();
    let mut k: usize = 0;
    while k < n
        invariant
            k <= n,
            n == longest(a@.len(), b@.len()),
            pairs.len() == k,
            forall|j: int|
                0 <= j < k ==> owned(#[trigger] pairs[j].0) == padded(a@, j) && owned(pairs[j].1)
                    == padded(b@, j),
        decreases n - k,
    {
        pairs.push((extend(a, k), extend(b, k)));
        k += 1;
    }
    pairs
}

} // verus!

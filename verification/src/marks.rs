//! Marks on the items of a collection, and the removal of what is marked.

use vstd::prelude::*;
use crate::model::kept;

verus! {

/// `n` marks, none of them set.
pub fn no_marks(n: usize) -> (marks: Vec<bool>)
    ensures
        marks@ == Seq::new(n as nat, |i: int| false),
{
    let mut marks: Vec<bool> = Vec::new();
    let mut k: usize = 0;
    while k < n
        invariant
            k <= n,
            marks@ == Seq::new(k as nat, |i: int| false),
        decreases n - k,
    {
        marks.push(false);
        k += 1;
        assert(marks@ =~= Seq::new(k as nat, |i: int| false));
    }
    marks
}

/// Every item that `kept` keeps is an item of the sequence, so what holds of
/// all items holds of all that are kept.
pub proof fn lemma_kept_all<T>(
    items: Seq<T>,
    removed: Seq<bool>,
    from: int,
    holds: spec_fn(T) -> bool,
)
    requires
        0 <= from,
        forall|i: int| from <= i < items.len() ==> holds(#[trigger] items[i]),
    ensures
        forall|k: int|
            0 <= k < kept(items, removed, from).len() ==> holds(
                #[trigger] kept(items, removed, from)[k],
            ),
    decreases items.len() - from,
{
    if from < items.len() {
        lemma_kept_all(items, removed, from + 1, holds);
        let rest = kept(items, removed, from + 1);
        let all = kept(items, removed, from);
        if !removed[from] {
            assert forall|k: int| 0 <= k < all.len() implies holds(#[trigger] all[k]) by {
                if k == 0 {
                    assert(all[0] == items[from]);
                } else {
                    assert(all[k] == rest[k - 1]);
                }
            }
        }
    }
}

/// Takes the marked items out of `items`, the last one first, so that no
/// removal moves an item that is still to be removed.
pub fn remove_marked<T>(items: &mut Vec<T>, marks: &Vec<bool>)
    requires
        marks.len() == old(items).len(),
    ensures
        final(items)@ == kept(old(items)@, marks@, 0),
{
    let ghost all = items@;
    let mut k: usize = items.len();
    assert(all.take(k as int) =~= all);
    while k > 0
        invariant
            k <= all.len(),
            marks.len() == all.len(),
            items@ == all.take(k as int) + kept(all, marks@, k as int),
        decreases k,
    {
        k -= 1;
        let ghost rest = kept(all, marks@, k + 1);
        if marks[k] {
            items.remove(k);
            assert(items@ =~= all.take(k as int) + rest);
        } else {
            assert(all.take(k + 1) + rest =~= all.take(k as int) + (seq![all[k as int]] + rest));
        }
    }
    assert(all.take(0) + kept(all, marks@, 0) =~= kept(all, marks@, 0));
}

} // verus!

//! Editing an instrument's list of oscillators.

use vstd::prelude::*;

verus! {

/// `s` after `Vec::swap_remove` at `i`: the last item takes the place of
/// item `i`, and the list is one shorter.
pub open spec fn swap_removed<T>(s: Seq<T>, i: int) -> Seq<T> {
    s.update(i, s.last()).drop_last()
}

/// `s` after a `swap_remove` at each index of `marks`, in order.
pub open spec fn removals<T>(s: Seq<T>, marks: Seq<usize>) -> Seq<T>
    decreases marks.len(),
{
    if marks.len() == 0 {
        s
    } else {
        swap_removed(removals(s, marks.drop_last()), marks.last() as int)
    }
}

/// Each removal in `marks` finds its index in the list of length `len`,
/// which has lost one item per earlier removal.
pub open spec fn removals_fit(len: nat, marks: Seq<usize>) -> bool {
    forall|k: int| 0 <= k < marks.len() ==> #[trigger] marks[k] + k < len
}

/// Removal law: one removal at `i` takes out exactly the item at `i`, keeps
/// every other item, and moves only the last item, into place `i`.
pub proof fn lemma_swap_removed_takes_one<T>(s: Seq<T>, i: int)
    requires
        0 <= i < s.len(),
    ensures
        swap_removed(s, i).len() == s.len() - 1,
        swap_removed(s, i).to_multiset() == s.to_multiset().remove(s[i]),
        forall|j: int| 0 <= j < s.len() - 1 && j != i ==> #[trigger] swap_removed(s, i)[j] == s[j],
        i < s.len() - 1 ==> swap_removed(s, i)[i] == s.last(),
{
    broadcast use vstd::seq_lib::group_to_multiset_ensures, vstd::multiset::group_multiset_properties;

    let n = s.len();
    let t = s.update(i, s.last());
    vstd::seq_lib::to_multiset_update(s, i, s.last());
    assert(t.drop_last() =~= t.remove(n - 1));
    assert(t[n - 1] == s.last());
    assert(s.to_multiset().insert(s.last()).remove(s[i]).remove(s.last()) =~= s.to_multiset().remove(
        s[i],
    ));
}

/// Removal law: each removal takes out one item, and only items that were
/// there: the oscillators left are fewer by the number of removals and are
/// all among the old ones.
pub proof fn lemma_removals_take_one_each<T>(s: Seq<T>, marks: Seq<usize>)
    requires
        removals_fit(s.len(), marks),
    ensures
        removals(s, marks).len() == s.len() - marks.len(),
        removals(s, marks).to_multiset().subset_of(s.to_multiset()),
    decreases marks.len(),
{
    broadcast use vstd::multiset::group_multiset_properties;

    if marks.len() == 0 {
        assert(s.to_multiset().subset_of(s.to_multiset()));
    } else {
        let init = marks.drop_last();
        assert forall|k: int| 0 <= k < init.len() implies #[trigger] init[k] + k < s.len() by {
            assert(init[k] == marks[k]);
        }
        lemma_removals_take_one_each(s, init);
        let r = removals(s, init);
        let k = marks.len() - 1;
        assert(marks[k] + k < s.len());
        lemma_swap_removed_takes_one(r, marks.last() as int);
        assert(r.to_multiset().remove(r[marks.last() as int]).subset_of(r.to_multiset()));
    }
}

/// Removal law: removing a first list of marks and then a second is
/// removing the two lists one after the other, in that order.
pub proof fn lemma_removals_in_turn<T>(s: Seq<T>, first: Seq<usize>, then: Seq<usize>)
    ensures
        removals(s, first + then) == removals(removals(s, first), then),
    decreases then.len(),
{
    if then.len() == 0 {
        assert(first + then =~= first);
    } else {
        assert((first + then).drop_last() =~= first + then.drop_last());
        assert((first + then).last() == then.last());
        lemma_removals_in_turn(s, first, then.drop_last());
    }
}

/// Whether every removal in `marks` finds its index in a list of `len`
/// items; where one does not, `remove_oscillators` would fail.
pub fn removals_in_range(len: usize, marks: &Vec<usize>) -> (b: bool)
    ensures
        b == removals_fit(len as nat, marks@),
{
    for k in 0..marks.len()
        invariant
            forall|j: int| 0 <= j < k ==> #[trigger] marks@[j] + j < len,
    {
        if marks[k] >= len || len - marks[k] <= k {
            return false;
        }
    }
    true
}

/// Removes the oscillators at the indices `marks`, one after the other, each
/// by `Vec::swap_remove`: the last oscillator takes the place of the one
/// removed.
pub fn remove_oscillators<T>(oscs: &mut Vec<T>, marks: &Vec<usize>)
    requires
        removals_fit(old(oscs).len() as nat, marks@),
    ensures
        final(oscs)@ == removals(old(oscs)@, marks@),
        final(oscs).len() == old(oscs).len() - marks.len(),
{
    let ghost orig = oscs@;
    for k in 0..marks.len()
        invariant
            removals_fit(orig.len(), marks@),
            oscs.len() == orig.len() - k,
            oscs@ == removals(orig, marks@.take(k as int)),
    {
        let i = marks[k];
        assert(marks@[k as int] + k < orig.len());
        assert(marks@.take(k + 1).drop_last() =~= marks@.take(k as int));
        oscs.swap_remove(i);
    }
    assert(marks@.take(marks.len() as int) =~= marks@);
}

} // verus!

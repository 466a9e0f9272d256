//! The key map: which note each bound key plays.

use vstd::prelude::*;
use std::collections::HashMap;

verus! {

broadcast use vstd::std_specs::hash::group_hash_axioms;

/// The key map that a list of bindings `(key, note)` makes when they are
/// inserted one after the other.
pub open spec fn keymap_of(bindings: Seq<(i32, usize)>) -> Map<i32, usize>
    decreases bindings.len(),
{
    if bindings.len() == 0 {
        Map::empty()
    } else {
        keymap_of(bindings.drop_last()).insert(bindings.last().0, bindings.last().1)
    }
}

/// The key map made of `bindings`, each inserted in turn, so that a later
/// binding of a key replaces an earlier one.
pub fn build_keymap(bindings: &Vec<(i32, usize)>) -> (m: HashMap<i32, usize>)
    ensures
        m@ == keymap_of(bindings@),
{
    let mut m: HashMap<i32, usize> = HashMap::new();
    for i in 0..bindings.len()
        invariant
            m@ == keymap_of(bindings@.take(i as int)),
    {
        assert(bindings@.take(i + 1).drop_last() =~= bindings@.take(i as int));
        let (k, note) = bindings[i];
        m.insert(k, note);
    }
    assert(bindings@.take(bindings.len() as int) =~= bindings@);
    m
}

/// Binding law: a key is bound exactly when some binding names it.
pub proof fn lemma_bound_keys(bindings: Seq<(i32, usize)>, key: i32)
    ensures
        keymap_of(bindings).contains_key(key) <==> exists|i: int|
            0 <= i < bindings.len() && (#[trigger] bindings[i]).0 == key,
    decreases bindings.len(),
{
    if bindings.len() > 0 {
        let init = bindings.drop_last();
        lemma_bound_keys(init, key);
        if keymap_of(init).contains_key(key) {
            let i = choose|i: int| 0 <= i < init.len() && (#[trigger] init[i]).0 == key;
            assert(bindings[i] == init[i]);
        }
        if exists|i: int| 0 <= i < bindings.len() && (#[trigger] bindings[i]).0 == key {
            let i = choose|i: int| 0 <= i < bindings.len() && (#[trigger] bindings[i]).0 == key;
            if i < init.len() {
                assert(init[i] == bindings[i]);
            }
        }
    }
}

/// Binding law: a bound key plays the note of the last binding that names it.
pub proof fn lemma_last_binding_wins(bindings: Seq<(i32, usize)>, i: int)
    requires
        0 <= i < bindings.len(),
        forall|j: int| i < j < bindings.len() ==> (#[trigger] bindings[j]).0 != bindings[i].0,
    ensures
        keymap_of(bindings).contains_key(bindings[i].0),
        keymap_of(bindings)[bindings[i].0] == bindings[i].1,
    decreases bindings.len(),
{
    if i < bindings.len() - 1 {
        let init = bindings.drop_last();
        assert(bindings[bindings.len() - 1].0 != bindings[i].0);
        assert forall|j: int| i < j < init.len() implies (#[trigger] init[j]).0 != init[i].0 by {
            assert(init[j] == bindings[j]);
        }
        lemma_last_binding_wins(init, i);
    }
}

/// No two bindings of `bs` name the same key.
pub open spec fn keys_distinct(bs: Seq<(i32, usize)>) -> bool {
    forall|i: int, j: int| 0 <= i < bs.len() && 0 <= j < bs.len() && i != j ==> #[trigger] bs[i].0
        != #[trigger] bs[j].0
}

/// Order law: where no two bindings name the same key, the order of the
/// bindings does not matter; two such lists with the same bindings make the
/// same key map.
pub proof fn lemma_order_free(bs1: Seq<(i32, usize)>, bs2: Seq<(i32, usize)>)
    requires
        keys_distinct(bs1),
        keys_distinct(bs2),
        forall|b: (i32, usize)| bs1.contains(b) <==> bs2.contains(b),
    ensures
        keymap_of(bs1) == keymap_of(bs2),
{
    assert forall|k: i32| #[trigger] keymap_of(bs1).contains_key(k) <==> keymap_of(bs2).contains_key(k)
        by {
        lemma_bound_keys(bs1, k);
        lemma_bound_keys(bs2, k);
        if exists|i: int| 0 <= i < bs1.len() && (#[trigger] bs1[i]).0 == k {
            let i = choose|i: int| 0 <= i < bs1.len() && (#[trigger] bs1[i]).0 == k;
            assert(bs1.contains(bs1[i]));
            let j = choose|j: int| 0 <= j < bs2.len() && bs2[j] == bs1[i];
            assert(bs2[j].0 == k);
        }
        if exists|j: int| 0 <= j < bs2.len() && (#[trigger] bs2[j]).0 == k {
            let j = choose|j: int| 0 <= j < bs2.len() && (#[trigger] bs2[j]).0 == k;
            assert(bs2.contains(bs2[j]));
            let i = choose|i: int| 0 <= i < bs1.len() && bs1[i] == bs2[j];
            assert(bs1[i].0 == k);
        }
    }
    assert forall|k: i32| #[trigger] keymap_of(bs1).contains_key(k) implies keymap_of(bs1)[k]
        == keymap_of(bs2)[k] by {
        lemma_bound_keys(bs1, k);
        let i = choose|i: int| 0 <= i < bs1.len() && (#[trigger] bs1[i]).0 == k;
        assert(bs1.contains(bs1[i]));
        let j = choose|j: int| 0 <= j < bs2.len() && bs2[j] == bs1[i];
        lemma_last_binding_wins(bs1, i);
        lemma_last_binding_wins(bs2, j);
    }
    assert(keymap_of(bs1) =~= keymap_of(bs2));
}

/// An empty key map.
pub fn empty_keymap() -> (m: HashMap<i32, usize>)
    ensures
        m@ == Map::<i32, usize>::empty(),
{
    HashMap::new()
}

} // verus!

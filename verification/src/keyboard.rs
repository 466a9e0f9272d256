//! The keyboard: from the keys held in one frame and in the next, which
//! notes start and which are released.

use vstd::prelude::*;
use std::collections::HashMap;

verus! {

broadcast use vstd::std_specs::hash::group_hash_axioms;

/// The keys of `ks` that are not in `excl`, each once, in the order in which
/// they first occur in `ks`.
pub open spec fn fresh(ks: Seq<i32>, excl: Set<i32>) -> Seq<i32>
    decreases ks.len(),
{
    if ks.len() == 0 {
        Seq::empty()
    } else {
        let r = fresh(ks.drop_last(), excl);
        let k = ks.last();
        if excl.contains(k) || ks.drop_last().contains(k) {
            r
        } else {
            r.push(k)
        }
    }
}

/// The key codes of `found`, those that are `Some`, in order.
pub open spec fn somes(found: Seq<Option<i32>>) -> Seq<i32>
    decreases found.len(),
{
    if found.len() == 0 {
        Seq::empty()
    } else {
        match found.last() {
            Some(k) => somes(found.drop_last()).push(k),
            None => somes(found.drop_last()),
        }
    }
}

/// The notes that the keys `ks` play under the key map `m`, in order;
/// unbound keys play none.
pub open spec fn notes(ks: Seq<i32>, m: Map<i32, usize>) -> Seq<usize>
    decreases ks.len(),
{
    if ks.len() == 0 {
        Seq::empty()
    } else {
        let r = notes(ks.drop_last(), m);
        if m.contains_key(ks.last()) {
            r.push(m[ks.last()])
        } else {
            r
        }
    }
}

/// The notes that a frame starts and releases.
pub struct NoteEvents {
    /// Notes of the keys pressed since the last frame, to be started first.
    pub started: Vec<usize>,
    /// Notes of the keys let go since the last frame, to be released after.
    pub released: Vec<usize>,
}

/// The keys held in the last frame.
pub struct KeyboardState {
    pressed: Vec<i32>,
}

impl View for KeyboardState {
    type V = Seq<i32>;

    closed spec fn view(&self) -> Seq<i32> {
        self.pressed@
    }
}

/// Whether `k` occurs among the first `upto` items of `v`.
fn contains_before(v: &Vec<i32>, k: i32, upto: usize) -> (b: bool)
    requires
        upto <= v.len(),
    ensures
        b == v@.take(upto as int).contains(k),
{
    for i in 0..upto
        invariant
            upto <= v.len(),
            !v@.take(i as int).contains(k),
    {
        if v[i] == k {
            assert(v@.take(upto as int)[i as int] == k);
            return true;
        }
        assert(v@.take(i + 1) =~= v@.take(i as int).push(v[i as int]));
    }
    false
}

/// The keys of `ks` that are not in `excl`, each once, in order.
pub fn fresh_keys(ks: &Vec<i32>, excl: &Vec<i32>) -> (r: Vec<i32>)
    ensures
        r@ == fresh(ks@, excl@.to_set()),
{
    let mut r: Vec<i32> = Vec::new();
    for i in 0..ks.len()
        invariant
            r@ == fresh(ks@.take(i as int), excl@.to_set()),
    {
        let k = ks[i];
        assert(ks@.take(i + 1).drop_last() =~= ks@.take(i as int));
        assert(ks@.take(i + 1).last() == k);
        let excluded = contains_before(excl, k, excl.len());
        assert(excl@.take(excl.len() as int) =~= excl@);
        let seen = contains_before(ks, k, i);
        if !excluded && !seen {
            r.push(k);
        }
    }
    assert(ks@.take(ks.len() as int) =~= ks@);
    r
}

/// The notes that the keys `ks` play under `keymap`, in order.
pub fn notes_of(ks: &Vec<i32>, keymap: &HashMap<i32, usize>) -> (r: Vec<usize>)
    ensures
        r@ == notes(ks@, keymap@),
{
    let mut r: Vec<usize> = Vec::new();
    for i in 0..ks.len()
        invariant
            r@ == notes(ks@.take(i as int), keymap@),
    {
        let k = ks[i];
        assert(ks@.take(i + 1).drop_last() =~= ks@.take(i as int));
        assert(ks@.take(i + 1).last() == k);
        match keymap.get(&k) {
            Some(n) => {
                r.push(*n);
            },
            None => {},
        }
    }
    assert(ks@.take(ks.len() as int) =~= ks@);
    r
}

/// The keys held in a frame: each held scan code looked up as a key code by
/// `lookup`, those that have none left out, in the order of `scancodes`.
pub fn held_keys<F: Fn(i32) -> Option<i32>>(scancodes: &Vec<i32>, lookup: F) -> (keys: Vec<i32>)
    requires
        forall|sc: i32| #[trigger] call_requires(lookup, (sc,)),
    ensures
        exists|found: Seq<Option<i32>>|
            #![trigger somes(found)]
            {
                &&& found.len() == scancodes.len()
                &&& forall|i: int|
                    0 <= i < found.len() ==> call_ensures(lookup, (scancodes@[i],), #[trigger] found[i])
                &&& keys@ == somes(found)
            },
{
    let mut keys: Vec<i32> = Vec::new();
    let ghost mut found: Seq<Option<i32>> = Seq::empty();
    for i in 0..scancodes.len()
        invariant
            forall|sc: i32| #[trigger] call_requires(lookup, (sc,)),
            found.len() == i,
            forall|j: int| 0 <= j < i ==> call_ensures(lookup, (scancodes@[j],), #[trigger] found[j]),
            keys@ == somes(found),
    {
        let c = lookup(scancodes[i]);
        let ghost before = found;
        proof {
            found = found.push(c);
            assert(found.drop_last() =~= before);
            assert forall|j: int| 0 <= j < i + 1 implies call_ensures(
                lookup,
                (scancodes@[j],),
                #[trigger] found[j],
            ) by {
                if j < i {
                    assert(found[j] == before[j]);
                }
            }
        }
        match c {
            Some(k) => keys.push(k),
            None => {},
        }
    }
    assert(somes(found) == somes(found));
    keys
}

impl KeyboardState {
    /// No key is remembered twice.
    #[verifier::type_invariant]
    spec fn no_key_twice(self) -> bool {
        self.pressed@.no_duplicates()
    }

    /// No key held.
    pub fn new() -> (s: Self)
        ensures
            s@ == Seq::<i32>::empty(),
            s@.no_duplicates(),
    {
        KeyboardState { pressed: Vec::new() }
    }

    /// The keys held in the last frame, each once.
    pub fn pressed(&self) -> (r: Vec<i32>)
        ensures
            r@ == self@,
            r@.no_duplicates(),
    {
        proof {
            use_type_invariant(self);
        }
        self.pressed.clone()
    }

    /// Takes the keys held in this frame (`keys`, in any order, repeats
    /// allowed): the notes of the keys newly pressed start, those of the keys
    /// let go are released, and the keys held are remembered for the next
    /// frame.
    pub fn update(&mut self, keys: &Vec<i32>, keymap: &HashMap<i32, usize>) -> (ev: NoteEvents)
        ensures
            final(self)@ == fresh(keys@, Set::empty()),
            final(self)@.no_duplicates(),
            ev.started@ == notes(fresh(keys@, old(self)@.to_set()), keymap@),
            ev.released@ == notes(fresh(old(self)@, keys@.to_set()), keymap@),
    {
        let pressed_now = fresh_keys(keys, &self.pressed);
        let let_go = fresh_keys(&self.pressed, keys);
        let none: Vec<i32> = Vec::new();
        let held = fresh_keys(keys, &none);
        assert(none@.to_set() =~= Set::<i32>::empty());
        let started = notes_of(&pressed_now, keymap);
        let released = notes_of(&let_go, keymap);
        proof {
            lemma_fresh_members(keys@, Set::empty());
        }
        self.pressed = held;
        NoteEvents { started, released }
    }
}

/// The keys that `fresh` keeps are those of `ks` outside `excl`, and it keeps
/// each once.
pub proof fn lemma_fresh_members(ks: Seq<i32>, excl: Set<i32>)
    ensures
        fresh(ks, excl).no_duplicates(),
        forall|k: i32| #[trigger]
            fresh(ks, excl).contains(k) <==> ks.contains(k) && !excl.contains(k),
    decreases ks.len(),
{
    if ks.len() > 0 {
        let init = ks.drop_last();
        lemma_fresh_members(init, excl);
        assert forall|k: i32| ks.contains(k) <==> init.contains(k) || k == ks.last() by {
            if ks.contains(k) {
                let i = choose|i: int| 0 <= i < ks.len() && ks[i] == k;
                if i < init.len() {
                    assert(init[i] == k);
                }
            }
            if init.contains(k) {
                let i = choose|i: int| 0 <= i < init.len() && init[i] == k;
                assert(ks[i] == k);
            }
            if k == ks.last() {
                assert(ks[ks.len() - 1] == k);
            }
        }
        let r = fresh(init, excl);
        let k0 = ks.last();
        if !(excl.contains(k0) || init.contains(k0)) {
            let s = r.push(k0);
            assert(fresh(ks, excl) == s);
            assert forall|k: i32| #[trigger] s.contains(k) <==> r.contains(k) || k == k0 by {
                if s.contains(k) {
                    let i = choose|i: int| 0 <= i < s.len() && s[i] == k;
                    if i < r.len() {
                        assert(r[i] == k);
                    }
                }
                if r.contains(k) {
                    let i = choose|i: int| 0 <= i < r.len() && r[i] == k;
                    assert(s[i] == k);
                }
                if k == k0 {
                    assert(s[s.len() - 1] == k);
                }
            }
            assert(!r.contains(k0));
            assert forall|i: int, j: int| 0 <= i < s.len() && 0 <= j < s.len() && i != j implies s[i]
                != s[j] by {
                if i < r.len() && j < r.len() {
                    assert(s[i] == r[i] && s[j] == r[j]);
                } else if i < r.len() {
                    assert(s[i] == r[i]);
                    assert(r.contains(s[i]));
                } else if j < r.len() {
                    assert(s[j] == r[j]);
                    assert(r.contains(s[j]));
                }
            }
        } else {
            assert(fresh(ks, excl) == r);
        }
    }
}

/// A sequence without repeats is its own `fresh` part over no exclusions.
pub proof fn lemma_fresh_of_distinct(s: Seq<i32>)
    requires
        s.no_duplicates(),
    ensures
        fresh(s, Set::empty()) == s,
    decreases s.len(),
{
    if s.len() > 0 {
        let init = s.drop_last();
        assert(init.no_duplicates());
        lemma_fresh_of_distinct(init);
        if init.contains(s.last()) {
            let i = choose|i: int| 0 <= i < init.len() && init[i] == s.last();
            assert(s[i] == s[s.len() - 1]);
        }
        assert(init.push(s.last()) =~= s);
    }
}

/// Keyboard law: the keys remembered after a frame are exactly the keys held
/// in it, each once.
pub proof fn lemma_remembers_held_keys(keys: Seq<i32>)
    ensures
        fresh(keys, Set::empty()).no_duplicates(),
        fresh(keys, Set::empty()).to_set() == keys.to_set(),
{
    lemma_fresh_members(keys, Set::empty());
    assert(fresh(keys, Set::empty()).to_set() =~= keys.to_set());
}

/// Keyboard law: a key that is held on from one frame to the next starts and
/// releases nothing; holding the same keys again makes no note event.
pub proof fn lemma_held_keys_are_quiet(keys: Seq<i32>, m: Map<i32, usize>)
    ensures
        notes(fresh(keys, fresh(keys, Set::empty()).to_set()), m) == Seq::<usize>::empty(),
        notes(fresh(fresh(keys, Set::empty()), keys.to_set()), m) == Seq::<usize>::empty(),
{
    let held = fresh(keys, Set::empty());
    lemma_remembers_held_keys(keys);
    let a = fresh(keys, held.to_set());
    let b = fresh(held, keys.to_set());
    lemma_fresh_members(keys, held.to_set());
    lemma_fresh_members(held, keys.to_set());
    if a.len() > 0 {
        assert(a.contains(a[0]));
    }
    if b.len() > 0 {
        assert(b.contains(b[0]));
    }
}

/// Keyboard law: the note events name exactly the keys whose state changed.
/// A key starts a note when it is held now and was not before, and
/// releases one when it was held before and is not now.
pub proof fn lemma_events_follow_changes(prev: Seq<i32>, keys: Seq<i32>, k: i32)
    ensures
        fresh(keys, prev.to_set()).contains(k) <==> keys.contains(k) && !prev.contains(k),
        fresh(prev, keys.to_set()).contains(k) <==> prev.contains(k) && !keys.contains(k),
        fresh(keys, prev.to_set()).no_duplicates(),
        fresh(prev, keys.to_set()).no_duplicates(),
{
    lemma_fresh_members(keys, prev.to_set());
    lemma_fresh_members(prev, keys.to_set());
}

/// Keyboard law: from no key held, pressing some keys and then letting them
/// all go releases exactly the notes that were started, in the same order.
pub proof fn lemma_release_undoes_press(keys: Seq<i32>, m: Map<i32, usize>)
    ensures
        notes(fresh(fresh(keys, Set::empty()), Seq::<i32>::empty().to_set()), m) == notes(
            fresh(keys, Seq::<i32>::empty().to_set()),
            m,
        ),
{
    assert(Seq::<i32>::empty().to_set() =~= Set::<i32>::empty());
    lemma_fresh_members(keys, Set::empty());
    lemma_fresh_of_distinct(fresh(keys, Set::empty()));
}

/// Held-key law: the keys of a frame are the key codes found, every one of
/// them, in the order of the scan codes, however many there are.
pub proof fn lemma_somes_keeps_every_code(found: Seq<Option<i32>>)
    ensures
        somes(found) == found.filter(|o: Option<i32>| o is Some).map_values(|o: Option<i32>| o->0),
    decreases found.len(),
{
    let p = |o: Option<i32>| o is Some;
    let g = |o: Option<i32>| o->0;
    if found.len() == 0 {
        reveal(Seq::filter);
        assert(found.filter(p).map_values(g) =~= Seq::<i32>::empty());
    } else {
        let init = found.drop_last();
        lemma_somes_keeps_every_code(init);
        init.lemma_filter_push(found.last(), p);
        assert(init.push(found.last()) =~= found);
        if found.last() is Some {
            assert(init.filter(p).push(found.last()).map_values(g) =~= init.filter(p).map_values(
                g,
            ).push(found.last()->0));
        }
    }
}

/// Note law: the notes of some keys are the notes that the key map gives the
/// bound keys among them, every one, in order.
pub proof fn lemma_notes_of_every_bound_key(ks: Seq<i32>, m: Map<i32, usize>)
    ensures
        notes(ks, m) == ks.filter(|k: i32| m.contains_key(k)).map_values(|k: i32| m[k]),
    decreases ks.len(),
{
    let p = |k: i32| m.contains_key(k);
    let g = |k: i32| m[k];
    if ks.len() == 0 {
        reveal(Seq::filter);
        assert(ks.filter(p).map_values(g) =~= Seq::<usize>::empty());
    } else {
        let init = ks.drop_last();
        lemma_notes_of_every_bound_key(init, m);
        init.lemma_filter_push(ks.last(), p);
        assert(init.push(ks.last()) =~= ks);
        if m.contains_key(ks.last()) {
            assert(init.filter(p).push(ks.last()).map_values(g) =~= init.filter(p).map_values(
                g,
            ).push(m[ks.last()]));
        }
    }
}

} // verus!

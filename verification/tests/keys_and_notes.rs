use keysynth::keyboard::{fresh_keys, notes_of, KeyboardState};
use keysynth::keymap::build_keymap;
use std::collections::HashMap;

const Q: i32 = 113;
const S: i32 = 115;
const D: i32 = 100;

fn keymap() -> HashMap<i32, usize> {
    build_keymap(&vec![(Q, 0), (S, 1)])
}

#[test]
fn later_binding_wins() {
    let m = build_keymap(&vec![(1, 0), (2, 1), (1, 5)]);
    assert_eq!(m.len(), 2);
    assert_eq!(m.get(&1), Some(&5));
    assert_eq!(m.get(&2), Some(&1));
    assert_eq!(m.get(&3), None);
    assert!(build_keymap(&Vec::new()).is_empty());
}

#[test]
fn fresh_keys_skip_excluded_and_repeats() {
    assert_eq!(fresh_keys(&vec![3, 1, 3, 2, 1], &vec![2]), vec![3, 1]);
    assert_eq!(fresh_keys(&vec![], &vec![2]), Vec::<i32>::new());
}

#[test]
fn notes_of_skip_unbound_keys() {
    assert_eq!(notes_of(&vec![S, D, Q], &keymap()), vec![1, 0]);
}

#[test]
fn pressing_starts_and_letting_go_releases() {
    let m = keymap();
    let mut kb = KeyboardState::new();
    assert_eq!(kb.pressed(), Vec::<i32>::new());

    let ev = kb.update(&vec![Q, S], &m);
    assert_eq!(ev.started, vec![0, 1]);
    assert_eq!(ev.released, Vec::<usize>::new());
    assert_eq!(kb.pressed(), vec![Q, S]);

    let ev = kb.update(&vec![S, D], &m);
    assert_eq!(ev.started, Vec::<usize>::new());
    assert_eq!(ev.released, vec![0]);
    assert_eq!(kb.pressed(), vec![S, D]);

    let ev = kb.update(&vec![], &m);
    assert_eq!(ev.started, Vec::<usize>::new());
    assert_eq!(ev.released, vec![1]);
    assert_eq!(kb.pressed(), Vec::<i32>::new());
}

#[test]
fn held_keys_make_no_events() {
    let m = keymap();
    let mut kb = KeyboardState::new();
    kb.update(&vec![S, Q, S], &m);
    assert_eq!(kb.pressed(), vec![S, Q]);
    let ev = kb.update(&vec![Q, S], &m);
    assert!(ev.started.is_empty());
    assert!(ev.released.is_empty());
}

#[test]
fn a_repeated_key_starts_its_note_once() {
    let m = keymap();
    let mut kb = KeyboardState::new();
    let ev = kb.update(&vec![Q, Q, Q], &m);
    assert_eq!(ev.started, vec![0]);
    assert_eq!(kb.pressed(), vec![Q]);
}

#[test]
fn release_undoes_press() {
    let m = keymap();
    let mut kb = KeyboardState::new();
    let pressed = kb.update(&vec![D, S, Q, S], &m);
    let released = kb.update(&vec![], &m);
    assert_eq!(pressed.started, vec![1, 0]);
    assert_eq!(released.released, pressed.started);
}

use keysynth::keybind::{keybind_key_names, keymap_of_lines, KeybindError};
use keysynth::keymap::empty_keymap;

fn lines(v: &[&str]) -> Vec<String> {
    v.iter().map(|s| s.to_string()).collect()
}

#[test]
fn key_names_of_a_binding_file() {
    let f = lines(&["# keys", "q 0", "  s 1 ", "", "#x 3", "d"]);
    assert_eq!(keybind_key_names(&f), lines(&["q", "s", "", "d"]));
}

#[test]
fn keymap_of_a_binding_file() {
    let f = lines(&["# keys", "q 0", "s 1", "# again", "q 7"]);
    let m = keymap_of_lines(&f, &vec![Some(Q), Some(S), Some(Q)]).unwrap();
    assert_eq!(m.len(), 2);
    assert_eq!(m.get(&Q), Some(&7));
    assert_eq!(m.get(&S), Some(&1));
    assert!(keymap_of_lines(&lines(&["# only a comment"]), &vec![]).unwrap().is_empty());
}

#[test]
fn keymap_errors_name_the_first_bad_line() {
    let f = lines(&["q 0", "# c", "s", "d x"]);
    assert_eq!(keymap_of_lines(&f, &vec![Some(Q), Some(S), Some(D)]).err(), Some(KeybindError::MissingNote(1)));
    let f = lines(&["q 0", "zz 1", "d x"]);
    assert_eq!(keymap_of_lines(&f, &vec![Some(Q), None, Some(D)]).err(), Some(KeybindError::UnknownKey(1)));
    assert_eq!(keymap_of_lines(&f, &vec![Some(Q), Some(S), Some(D)]).err(), Some(KeybindError::BadNote(2)));
    assert_eq!(keymap_of_lines(&f, &vec![Some(Q)]).err(), Some(KeybindError::UnknownKey(1)));
    let f = lines(&["q x"]);
    assert_eq!(keymap_of_lines(&f, &vec![None]).err(), Some(KeybindError::UnknownKey(0)));
}

#[test]
fn binding_order_does_not_matter_for_distinct_keys() {
    let a = build_keymap(&vec![(Q, 0), (S, 1), (D, 2)]);
    let b = build_keymap(&vec![(D, 2), (Q, 0), (S, 1)]);
    assert_eq!(a, b);
}

#[test]
fn empty_keymap_is_empty() {
    assert!(empty_keymap().is_empty());
}

#[test]
fn remembered_keys_have_no_repeats() {
    let mut kb = KeyboardState::new();
    kb.update(&vec![D, D, Q, D, Q], &keymap());
    assert_eq!(kb.pressed(), vec![D, Q]);
}

use keysynth::keybind::keymap_with_lookup;
use keysynth::keyboard::held_keys;

fn lookup(name: &str) -> Option<i32> {
    match name {
        "Q" => Some(Q),
        "S" => Some(S),
        "D" => Some(D),
        _ => None,
    }
}

#[test]
fn keymap_with_lookup_looks_up_each_key_name() {
    let f = lines(&["# keys", "Q 0", "S 1", "Q 4"]);
    let m = keymap_with_lookup(&f, lookup).unwrap();
    assert_eq!(m.len(), 2);
    assert_eq!(m.get(&Q), Some(&4));
    assert_eq!(m.get(&S), Some(&1));
    assert_eq!(keymap_with_lookup(&lines(&["Q 0", "Nope 1"]), lookup).err(), Some(KeybindError::UnknownKey(1)));
    assert_eq!(keymap_with_lookup(&lines(&["Q  0"]), lookup).err(), Some(KeybindError::BadNote(0)));
    assert_eq!(keymap_with_lookup(&lines(&["Q"]), lookup).err(), Some(KeybindError::MissingNote(0)));
}

#[test]
fn keymap_of_permuted_file_is_the_same() {
    let a = keymap_with_lookup(&lines(&["Q 0", "# x", "S 1", "D 2"]), lookup).unwrap();
    let b = keymap_with_lookup(&lines(&["D 2", "Q 0", "S 1"]), lookup).unwrap();
    assert_eq!(a, b);
}

#[test]
fn held_keys_skip_unknown_scancodes() {
    let keys = held_keys(&vec![20, 0, 22, 99], |sc: i32| match sc {
        20 => Some(Q),
        22 => Some(S),
        _ => None,
    });
    assert_eq!(keys, vec![Q, S]);
}

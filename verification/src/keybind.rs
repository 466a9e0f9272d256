//! Key-binding files: each line that is not a comment names a key and the
//! note that it plays.

use vstd::prelude::*;
use std::collections::HashMap;
use crate::keymap::{build_keymap, keymap_of, keys_distinct, lemma_bound_keys, lemma_last_binding_wins, lemma_order_free};
use crate::number::{note_index, parsed_i32};
use crate::resource::{ressource_lines, uncommented};
use crate::text::{fields, lemma_split_spaces_nonempty, line_fields, views};

verus! {

/// Why a key-binding file gives no key map. Each names the offending line by
/// its place among the lines that are not comments, counted from 0.
#[derive(Clone, Copy, Debug, PartialEq, Eq, Structural)]
pub enum KeybindError {
    /// The line has fewer than two fields.
    MissingNote(usize),
    /// The line's key name is no known key.
    UnknownKey(usize),
    /// The line's note is no decimal `i32`.
    BadNote(usize),
}

/// The key code found for the key name of line `i`; `None` where there is
/// none.
pub open spec fn code_at(codes: Seq<Option<i32>>, i: int) -> Option<i32> {
    if 0 <= i < codes.len() {
        codes[i]
    } else {
        None
    }
}

/// The binding that line `i` (not a comment) makes, its key name having the
/// key code `code`: a missing note is found first, then an unknown key, then
/// a note that does not parse.
pub open spec fn line_binding(line: Seq<char>, code: Option<i32>, i: int) -> Result<
    (i32, usize),
    KeybindError,
> {
    let fs = fields(line);
    if fs.len() < 2 {
        Err(KeybindError::MissingNote(i as usize))
    } else {
        match code {
            None => Err(KeybindError::UnknownKey(i as usize)),
            Some(k) => match parsed_i32(fs[1]) {
                None => Err(KeybindError::BadNote(i as usize)),
                Some(n) => Ok((k, n as usize)),
            },
        }
    }
}

/// The bindings of the lines `used` (no comments among them), or the error of
/// the first line that makes none.
pub open spec fn bindings_of(used: Seq<Seq<char>>, codes: Seq<Option<i32>>) -> Result<
    Seq<(i32, usize)>,
    KeybindError,
>
    decreases used.len(),
{
    if used.len() == 0 {
        Ok(Seq::empty())
    } else {
        match bindings_of(used.drop_last(), codes) {
            Err(e) => Err(e),
            Ok(bs) => match line_binding(used.last(), code_at(codes, used.len() - 1), used.len() - 1) {
                Err(e) => Err(e),
                Ok(b) => Ok(bs.push(b)),
            },
        }
    }
}

/// The key map of a key-binding file with lines `lines`, its key names
/// having the key codes `codes` (one for each line that is not a comment,
/// in order).
pub open spec fn keymap_of_file(lines: Seq<Seq<char>>, codes: Seq<Option<i32>>) -> Result<
    Map<i32, usize>,
    KeybindError,
> {
    match bindings_of(uncommented(lines), codes) {
        Ok(bs) => Ok(keymap_of(bs)),
        Err(e) => Err(e),
    }
}

/// The key names of a key-binding file: the first field of each line that is
/// not a comment, in order. These are the names to look up as key codes.
pub fn keybind_key_names(lines: &Vec<String>) -> (names: Vec<String>)
    ensures
        views(names@) == uncommented(views(lines@)).map_values(|l: Seq<char>| fields(l)[0]),
{
    let used = ressource_lines(lines);
    let mut names: Vec<String> = Vec::new();
    for i in 0..used.len()
        invariant
            views(used@) == uncommented(views(lines@)),
            views(names@) == views(used@).take(i as int).map_values(|l: Seq<char>| fields(l)[0]),
    {
        let fs = line_fields(used[i].as_str());
        proof {
            lemma_split_spaces_nonempty(crate::text::trim(used@[i as int]@));
        }
        assert(fs@[0]@ == views(fs@)[0]);
        let ghost before = views(names@);
        names.push(fs[0].clone());
        assert(views(names@) =~= before.push(fields(used@[i as int]@)[0]));
        assert(views(used@).take(i + 1) =~= views(used@).take(i as int).push(used@[i as int]@));
        assert(views(names@) =~= views(used@).take(i + 1).map_values(
            |l: Seq<char>| fields(l)[0],
        ));
    }
    assert(views(used@).take(used.len() as int) =~= views(used@));
    names
}

/// The key map of a key-binding file with lines `lines`, where `codes` holds
/// the key code looked up for each key name of `keybind_key_names(lines)`
/// (`None` where the name is no key): each binding inserted in turn, a later
/// binding of a key replacing an earlier one; or the error of the first line
/// that binds nothing.
pub fn keymap_of_lines(lines: &Vec<String>, codes: &Vec<Option<i32>>) -> (r: Result<
    HashMap<i32, usize>,
    KeybindError,
>)
    ensures
        match keymap_of_file(views(lines@), codes@) {
            Ok(m) => r matches Ok(km) && km@ == m,
            Err(e) => r == Err::<HashMap<i32, usize>, KeybindError>(e),
        },
{
    let used = ressource_lines(lines);
    let ghost u = views(used@);
    let mut bindings: Vec<(i32, usize)> = Vec::new();
    assert(u.take(0) =~= Seq::<Seq<char>>::empty());
    for i in 0..used.len()
        invariant
            u == views(used@),
            u == uncommented(views(lines@)),
            bindings_of(u.take(i as int), codes@) == Ok::<Seq<(i32, usize)>, KeybindError>(
                bindings@,
            ),
    {
        assert(u.take(i + 1).drop_last() =~= u.take(i as int));
        assert(u.take(i + 1).last() == used@[i as int]@);
        let fs = line_fields(used[i].as_str());
        if fs.len() < 2 {
            proof {
                lemma_first_error_stays(u, codes@, i + 1);
            }
            return Err(KeybindError::MissingNote(i));
        }
        let code = if i < codes.len() {
            codes[i]
        } else {
            None
        };
        match code {
            None => {
                proof {
                    lemma_first_error_stays(u, codes@, i + 1);
                }
                return Err(KeybindError::UnknownKey(i));
            },
            Some(k) => {
                assert(fs@[1]@ == views(fs@)[1]);
                match note_index(fs[1].as_str()) {
                    None => {
                        proof {
                            lemma_first_error_stays(u, codes@, i + 1);
                        }
                        return Err(KeybindError::BadNote(i));
                    },
                    Some(n) => {
                        bindings.push((k, n));
                    },
                }
            },
        }
    }
    assert(u.take(used.len() as int) =~= u);
    Ok(build_keymap(&bindings))
}

/// Once a prefix of the lines fails, the whole of them fails with the same
/// error.
proof fn lemma_first_error_stays(used: Seq<Seq<char>>, codes: Seq<Option<i32>>, k: int)
    requires
        0 <= k <= used.len(),
        bindings_of(used.take(k), codes) is Err,
    ensures
        bindings_of(used, codes) == bindings_of(used.take(k), codes),
    decreases used.len() - k,
{
    if k < used.len() {
        assert(used.take(k + 1).drop_last() =~= used.take(k));
        lemma_first_error_stays(used, codes, k + 1);
    } else {
        assert(used.take(k) =~= used);
    }
}

/// `code` is a result that `lookup` may give for a text with view `name`.
pub open spec fn looked_up<F: Fn(&str) -> Option<i32>>(lookup: F, name: Seq<char>, code: Option<i32>) -> bool {
    exists|s: &str| s@ == name && #[trigger] call_ensures(lookup, (s,), code)
}

/// The key map of a key-binding file with lines `lines`, each key name looked
/// up as a key code by `lookup` (`None` where the name is no key).
pub fn keymap_with_lookup<F: Fn(&str) -> Option<i32>>(lines: &Vec<String>, lookup: F) -> (r: Result<
    HashMap<i32, usize>,
    KeybindError,
>)
    requires
        forall|s: &str| #[trigger] call_requires(lookup, (s,)),
    ensures
        exists|codes: Seq<Option<i32>>|
            #![trigger keymap_of_file(views(lines@), codes)]
            {
                &&& codes.len() == uncommented(views(lines@)).len()
                &&& forall|i: int|
                    0 <= i < codes.len() ==> looked_up(
                        lookup,
                        fields(uncommented(views(lines@))[i])[0],
                        #[trigger] codes[i],
                    )
                &&& match keymap_of_file(views(lines@), codes) {
                    Ok(m) => r matches Ok(km) && km@ == m,
                    Err(e) => r == Err::<HashMap<i32, usize>, KeybindError>(e),
                }
            },
{
    let names = keybind_key_names(lines);
    let ghost u = uncommented(views(lines@));
    assert(views(names@).len() == names.len());
    let mut codes: Vec<Option<i32>> = Vec::new();
    for i in 0..names.len()
        invariant
            views(names@) == u.map_values(|l: Seq<char>| fields(l)[0]),
            names.len() == u.len(),
            forall|s: &str| #[trigger] call_requires(lookup, (s,)),
            codes.len() == i,
            forall|j: int| 0 <= j < i ==> looked_up(lookup, fields(u[j])[0], #[trigger] codes@[j]),
    {
        let name: &str = names[i].as_str();
        let c = lookup(name);
        assert(name@ == views(names@)[i as int]);
        assert(call_ensures(lookup, (name,), c));
        assert(name@ == fields(u[i as int])[0]);
        assert(looked_up(lookup, fields(u[i as int])[0], c));
        let ghost before = codes@;
        codes.push(c);
        assert forall|j: int| 0 <= j < i + 1 implies looked_up(
            lookup,
            fields(u[j])[0],
            #[trigger] codes@[j],
        ) by {
            if j < i {
                assert(codes@[j] == before[j]);
            }
        }
    }
    let r = keymap_of_lines(lines, &codes);
    assert(codes@.len() == u.len());
    assert(keymap_of_file(views(lines@), codes@) == keymap_of_file(views(lines@), codes@));
    r
}

/// The binding that a line makes, its key name having the key code `code`;
/// `None` where it makes none.
pub open spec fn line_value(line: Seq<char>, code: Option<i32>) -> Option<(i32, usize)> {
    let fs = fields(line);
    if fs.len() < 2 {
        None
    } else {
        match code {
            None => None,
            Some(k) => match parsed_i32(fs[1]) {
                None => None,
                Some(n) => Some((k, n as usize)),
            },
        }
    }
}

/// The lines of a key-binding file that are not comments, each with the key
/// code found for its key name.
pub open spec fn entries(lines: Seq<Seq<char>>, codes: Seq<Option<i32>>) -> Seq<
    (Seq<char>, Option<i32>),
> {
    let u = uncommented(lines);
    Seq::new(u.len(), |i: int| (u[i], code_at(codes, i)))
}

/// `p` puts `0..n` in another order.
pub open spec fn is_permutation(p: Seq<int>, n: nat) -> bool {
    &&& p.len() == n
    &&& forall|i: int| 0 <= i < n ==> 0 <= #[trigger] p[i] < n
    &&& forall|i: int, j: int| 0 <= i < n && 0 <= j < n && i != j ==> #[trigger] p[i] != #[trigger] p[j]
    &&& forall|k: int| 0 <= k < n ==> #[trigger] takes_value(p, k)
}

/// Some place of `p` holds `k`.
pub open spec fn takes_value(p: Seq<int>, k: int) -> bool {
    exists|i: int| 0 <= i < p.len() && p[i] == k
}

/// The lines bind without error exactly when each makes a binding, and then
/// the bindings are those of the lines, in order.
proof fn lemma_bindings_ok(used: Seq<Seq<char>>, codes: Seq<Option<i32>>)
    ensures
        (bindings_of(used, codes) is Ok) <==> forall|i: int|
            0 <= i < used.len() ==> (#[trigger] line_value(used[i], code_at(codes, i))) is Some,
        bindings_of(used, codes) matches Ok(bs) ==> bs.len() == used.len() && forall|i: int|
            0 <= i < used.len() ==> #[trigger] bs[i] == line_value(used[i], code_at(codes, i))->0,
    decreases used.len(),
{
    if used.len() > 0 {
        let init = used.drop_last();
        let n = used.len() - 1;
        lemma_bindings_ok(init, codes);
        assert forall|i: int| 0 <= i < init.len() implies init[i] == used[i] by {}
        if !(line_value(used[n], code_at(codes, n)) is Some) {
            assert(!(forall|i: int|
                0 <= i < used.len() ==> (#[trigger] line_value(used[i], code_at(codes, i))) is Some));
        }
        if bindings_of(init, codes) is Err {
            let i = choose|i: int|
                0 <= i < init.len() && !((#[trigger] line_value(init[i], code_at(codes, i))) is Some);
            assert(!(line_value(used[i], code_at(codes, i)) is Some));
        }
    }
}

/// File order law: where no two of its lines bind the same key, the lines of
/// a key-binding file (with the key codes of their names) can be put in any
/// order without changing the key map.
pub proof fn lemma_file_order_free(
    lines1: Seq<Seq<char>>,
    codes1: Seq<Option<i32>>,
    lines2: Seq<Seq<char>>,
    codes2: Seq<Option<i32>>,
    p: Seq<int>,
)
    requires
        bindings_of(uncommented(lines1), codes1) matches Ok(bs) && keys_distinct(bs),
        entries(lines2, codes2).len() == entries(lines1, codes1).len(),
        is_permutation(p, entries(lines1, codes1).len()),
        forall|i: int|
            0 <= i < p.len() ==> #[trigger] entries(lines2, codes2)[i] == entries(lines1, codes1)[p[i]],
    ensures
        keymap_of_file(lines2, codes2) == keymap_of_file(lines1, codes1),
{
    let u1 = uncommented(lines1);
    let u2 = uncommented(lines2);
    let e1 = entries(lines1, codes1);
    let e2 = entries(lines2, codes2);
    let n = e1.len();
    lemma_bindings_ok(u1, codes1);
    lemma_bindings_ok(u2, codes2);
    let bs1 = bindings_of(u1, codes1)->Ok_0;
    assert forall|i: int| 0 <= i < u2.len() implies (#[trigger] line_value(
        u2[i],
        code_at(codes2, i),
    )) is Some by {
        let k = p[i];
        assert(e2[i] == e1[k]);
        assert(line_value(u1[k], code_at(codes1, k)) is Some);
    }
    let bs2 = bindings_of(u2, codes2)->Ok_0;
    assert forall|i: int| 0 <= i < n implies #[trigger] bs2[i] == bs1[p[i]] by {
        assert(e2[i] == e1[p[i]]);
    }
    assert forall|i: int, j: int| 0 <= i < bs2.len() && 0 <= j < bs2.len() && i != j implies #[trigger] bs2[i].0
        != #[trigger] bs2[j].0 by {
        assert(bs2[i] == bs1[p[i]]);
        assert(bs2[j] == bs1[p[j]]);
        assert(p[i] != p[j]);
    }
    assert forall|b: (i32, usize)| bs1.contains(b) <==> bs2.contains(b) by {
        if bs1.contains(b) {
            let k = choose|k: int| 0 <= k < bs1.len() && bs1[k] == b;
            assert(takes_value(p, k));
            let i = choose|i: int| 0 <= i < p.len() && p[i] == k;
            assert(bs2[i] == b);
        }
        if bs2.contains(b) {
            let i = choose|i: int| 0 <= i < bs2.len() && bs2[i] == b;
            assert(bs1[p[i]] == b);
        }
    }
    lemma_order_free(bs1, bs2);
}

/// Line law: a line with a key code `k` for its key name and a note that
/// reads as the `i32` `n` binds `k` to `n as usize`, whatever fields follow
/// the note.
pub proof fn lemma_line_binds_its_first_two_fields(line: Seq<char>, k: i32, i: int)
    requires
        fields(line).len() >= 2,
        parsed_i32(fields(line)[1]) is Some,
    ensures
        line_binding(line, Some(k), i) == Ok::<(i32, usize), KeybindError>(
            (k, parsed_i32(fields(line)[1])->0 as usize),
        ),
        line_value(line, Some(k)) == Some((k, parsed_i32(fields(line)[1])->0 as usize)),
{
}

/// Line law: what a line binds depends only on its first two fields and on
/// the key code of its name.
pub proof fn lemma_binding_ignores_later_fields(
    a: Seq<char>,
    b: Seq<char>,
    code: Option<i32>,
    i: int,
)
    requires
        fields(a).len() >= 2,
        fields(b).len() >= 2,
        fields(a)[0] == fields(b)[0],
        fields(a)[1] == fields(b)[1],
    ensures
        line_binding(a, code, i) == line_binding(b, code, i),
        line_value(a, code) == line_value(b, code),
{
}

/// A line of the file that binds nothing: too few fields, no key code, or a
/// note that does not read as an `i32`.
pub open spec fn binds_nothing(line: Seq<char>, code: Option<i32>) -> bool {
    fields(line).len() < 2 || code is None || parsed_i32(fields(line)[1]) is None
}

/// Key-binding file law: a file gives a key map exactly when each of its
/// lines that is not a comment binds; then a key is bound exactly when some
/// line names it, and it plays the note of the last line that names it.
pub proof fn lemma_file_keymap(lines: Seq<Seq<char>>, codes: Seq<Option<i32>>)
    ensures
        (keymap_of_file(lines, codes) is Ok) <==> forall|i: int|
            0 <= i < uncommented(lines).len() ==> !binds_nothing(
                #[trigger] uncommented(lines)[i],
                code_at(codes, i),
            ),
        keymap_of_file(lines, codes) matches Ok(m) ==> forall|k: i32|
            #[trigger] m.contains_key(k) <==> exists|i: int|
                0 <= i < uncommented(lines).len() && #[trigger] code_at(codes, i) == Some(k),
        keymap_of_file(lines, codes) matches Ok(m) ==> forall|i: int|
            0 <= i < uncommented(lines).len() && (forall|j: int|
                i < j < uncommented(lines).len() ==> #[trigger] code_at(codes, j) != code_at(codes, i))
                ==> m[code_at(codes, i)->0] == parsed_i32(
                fields(#[trigger] uncommented(lines)[i])[1],
            )->0 as usize,
{
    let u = uncommented(lines);
    lemma_bindings_ok(u, codes);
    assert forall|i: int| 0 <= i < u.len() implies (line_value(u[i], code_at(codes, i)) is Some)
        == !binds_nothing(u[i], code_at(codes, i)) by {}
    if keymap_of_file(lines, codes) is Ok {
        let bs = bindings_of(u, codes)->Ok_0;
        let m = keymap_of(bs);
        assert forall|i: int| 0 <= i < u.len() implies #[trigger] bs[i] == (
            code_at(codes, i)->0,
            parsed_i32(fields(u[i])[1])->0 as usize,
        ) && code_at(codes, i) is Some by {
            assert(line_value(u[i], code_at(codes, i)) is Some);
        }
        assert forall|k: i32| #[trigger] m.contains_key(k) <==> exists|i: int|
            0 <= i < u.len() && #[trigger] code_at(codes, i) == Some(k) by {
            lemma_bound_keys(bs, k);
            if m.contains_key(k) {
                let i = choose|i: int| 0 <= i < bs.len() && (#[trigger] bs[i]).0 == k;
                assert(code_at(codes, i) == Some(k));
            }
            if exists|i: int| 0 <= i < u.len() && #[trigger] code_at(codes, i) == Some(k) {
                let i = choose|i: int| 0 <= i < u.len() && #[trigger] code_at(codes, i) == Some(k);
                assert(bs[i].0 == k);
            }
        }
        assert forall|i: int|
            0 <= i < u.len() && (forall|j: int|
                i < j < u.len() ==> #[trigger] code_at(codes, j) != code_at(codes, i)) implies m[code_at(
            codes,
            i,
        )->0] == parsed_i32(fields(#[trigger] u[i])[1])->0 as usize by {
            assert forall|j: int| i < j < bs.len() implies (#[trigger] bs[j]).0 != bs[i].0 by {
                assert(code_at(codes, j) != code_at(codes, i));
                assert(bs[j] == (code_at(codes, j)->0, parsed_i32(fields(u[j])[1])->0 as usize));
            }
            lemma_last_binding_wins(bs, i);
        }
    }
}

} // verus!

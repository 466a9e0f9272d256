//! The resource files: comment lines, the numbers of a model file, and the
//! two fields of a key-binding line.

use vstd::prelude::*;
use crate::text::{fields, is_comment, is_comment_line, line_fields, split_spaces, trim, views};

verus! {

/// The lines of a resource file that are handed on: all but the comments,
/// in their order.
pub open spec fn uncommented(lines: Seq<Seq<char>>) -> Seq<Seq<char>>
    decreases lines.len(),
{
    if lines.len() == 0 {
        Seq::empty()
    } else {
        let r = uncommented(lines.drop_last());
        if is_comment(lines.last()) {
            r
        } else {
            r.push(lines.last())
        }
    }
}

/// The pieces of `ps` that are not empty, in order.
pub open spec fn non_empty(ps: Seq<Seq<char>>) -> Seq<Seq<char>>
    decreases ps.len(),
{
    if ps.len() == 0 {
        Seq::empty()
    } else {
        let r = non_empty(ps.drop_last());
        if ps.last().len() == 0 {
            r
        } else {
            r.push(ps.last())
        }
    }
}

/// The number texts of one line of a model file: none for a comment, else
/// the non-empty fields of the line.
pub open spec fn obj_line(line: Seq<char>) -> Seq<Seq<char>> {
    if is_comment(line) {
        Seq::empty()
    } else {
        non_empty(fields(line))
    }
}

/// The number texts of a whole model file, line after line.
pub open spec fn obj_text(lines: Seq<Seq<char>>) -> Seq<Seq<char>>
    decreases lines.len(),
{
    if lines.len() == 0 {
        Seq::empty()
    } else {
        obj_text(lines.drop_last()) + obj_line(lines.last())
    }
}

/// The lines of a resource file that reach its reader: those that are not
/// comments, in their order.
pub fn ressource_lines(lines: &Vec<String>) -> (kept: Vec<String>)
    ensures
        views(kept@) == uncommented(views(lines@)),
{
    let mut kept: Vec<String> = Vec::new();
    for i in 0..lines.len()
        invariant
            views(kept@) == uncommented(views(lines@).take(i as int)),
    {
        let ghost before = views(kept@);
        assert(views(lines@).take(i + 1).drop_last() =~= views(lines@).take(i as int));
        if !is_comment_line(lines[i].as_str()) {
            kept.push(lines[i].clone());
            assert(views(kept@) =~= before.push(lines@[i as int]@));
        }
    }
    assert(views(lines@).take(lines.len() as int) =~= views(lines@));
    kept
}

/// The number texts of one line of a model file.
pub fn obj_line_values(line: &str) -> (vals: Vec<String>)
    ensures
        views(vals@) == obj_line(line@),
{
    let mut vals: Vec<String> = Vec::new();
    if is_comment_line(line) {
        return vals;
    }
    let fs = line_fields(line);
    for i in 0..fs.len()
        invariant
            views(fs@) == fields(line@),
            views(vals@) == non_empty(views(fs@).take(i as int)),
    {
        let ghost before = views(vals@);
        assert(views(fs@).take(i + 1).drop_last() =~= views(fs@).take(i as int));
        if fs[i].as_str().unicode_len() > 0 {
            vals.push(fs[i].clone());
            assert(views(vals@) =~= before.push(fs@[i as int]@));
        }
    }
    assert(views(fs@).take(fs.len() as int) =~= views(fs@));
    vals
}

/// The number texts of a whole model file, in the order of its lines.
pub fn obj_values(lines: &Vec<String>) -> (vals: Vec<String>)
    ensures
        views(vals@) == obj_text(views(lines@)),
{
    let mut vals: Vec<String> = Vec::new();
    for i in 0..lines.len()
        invariant
            views(vals@) == obj_text(views(lines@).take(i as int)),
    {
        let ghost before = views(vals@);
        assert(views(lines@).take(i + 1).drop_last() =~= views(lines@).take(i as int));
        let mut line_vals = obj_line_values(lines[i].as_str());
        vals.append(&mut line_vals);
        assert(views(vals@) =~= before + obj_line(lines@[i as int]@));
    }
    assert(views(lines@).take(lines.len() as int) =~= views(lines@));
    vals
}

/// The key name and the note text of a key-binding line: its first two
/// fields, or `None` when it has fewer than two.
pub fn keybind_fields(line: &str) -> (r: Option<(String, String)>)
    ensures
        r is None <==> fields(line@).len() < 2,
        r matches Some((key, note)) ==> key@ == fields(line@)[0] && note@ == fields(line@)[1],
{
    let fs = line_fields(line);
    if fs.len() < 2 {
        None
    } else {
        assert(fs@[0]@ == views(fs@)[0] && fs@[1]@ == views(fs@)[1]);
        Some((fs[0].clone(), fs[1].clone()))
    }
}

/// Removing comments from two runs of lines one after the other is removing
/// them from each run.
pub proof fn lemma_uncommented_append(a: Seq<Seq<char>>, b: Seq<Seq<char>>)
    ensures
        uncommented(a + b) == uncommented(a) + uncommented(b),
    decreases b.len(),
{
    if b.len() == 0 {
        assert(a + b =~= a);
        assert(uncommented(a) + uncommented(b) =~= uncommented(a));
    } else {
        assert((a + b).drop_last() =~= a + b.drop_last());
        assert((a + b).last() == b.last());
        lemma_uncommented_append(a, b.drop_last());
        if !is_comment(b.last()) {
            assert(uncommented(a) + uncommented(b) =~= (uncommented(a) + uncommented(
                b.drop_last(),
            )).push(b.last()));
        }
    }
}

/// The number texts of two runs of lines one after the other are those of
/// the first run, then those of the second.
pub proof fn lemma_obj_text_append(a: Seq<Seq<char>>, b: Seq<Seq<char>>)
    ensures
        obj_text(a + b) == obj_text(a) + obj_text(b),
    decreases b.len(),
{
    if b.len() == 0 {
        assert(a + b =~= a);
        assert(obj_text(a) + obj_text(b) =~= obj_text(a));
    } else {
        assert((a + b).drop_last() =~= a + b.drop_last());
        assert((a + b).last() == b.last());
        lemma_obj_text_append(a, b.drop_last());
        assert(obj_text(a) + obj_text(b) =~= (obj_text(a) + obj_text(b.drop_last())) + obj_line(
            b.last(),
        ));
    }
}

/// A run of lines none of which yields a number text yields none.
proof fn lemma_obj_text_silent(ls: Seq<Seq<char>>)
    requires
        forall|i: int| 0 <= i < ls.len() ==> #[trigger] obj_line(ls[i]).len() == 0,
    ensures
        obj_text(ls) == Seq::<Seq<char>>::empty(),
    decreases ls.len(),
{
    if ls.len() > 0 {
        assert forall|i: int| 0 <= i < ls.drop_last().len() implies #[trigger] obj_line(
            ls.drop_last()[i],
        ).len() == 0 by {
            assert(ls.drop_last()[i] == ls[i]);
        }
        lemma_obj_text_silent(ls.drop_last());
        assert(obj_line(ls[ls.len() - 1]).len() == 0);
        assert(obj_text(ls) =~= Seq::<Seq<char>>::empty());
    }
}

/// Comment-line law: comment lines inserted anywhere in a resource file change
/// neither the lines handed on nor the number texts of a model file.
pub proof fn lemma_comment_lines_ignored(
    before: Seq<Seq<char>>,
    comments: Seq<Seq<char>>,
    after: Seq<Seq<char>>,
)
    requires
        forall|i: int| 0 <= i < comments.len() ==> is_comment(#[trigger] comments[i]),
    ensures
        uncommented(before + comments + after) == uncommented(before + after),
        obj_text(before + comments + after) == obj_text(before + after),
{
    lemma_uncommented_append(before + comments, after);
    lemma_uncommented_append(before, comments);
    lemma_uncommented_append(before, after);
    lemma_uncommented_none(comments);
    assert(uncommented(before) + Seq::<Seq<char>>::empty() =~= uncommented(before));
    lemma_obj_text_append(before + comments, after);
    lemma_obj_text_append(before, comments);
    lemma_obj_text_append(before, after);
    lemma_obj_text_silent(comments);
    assert(obj_text(before) + Seq::<Seq<char>>::empty() =~= obj_text(before));
}

/// A run of comment lines hands nothing on.
proof fn lemma_uncommented_none(comments: Seq<Seq<char>>)
    requires
        forall|i: int| 0 <= i < comments.len() ==> is_comment(#[trigger] comments[i]),
    ensures
        uncommented(comments) == Seq::<Seq<char>>::empty(),
    decreases comments.len(),
{
    if comments.len() > 0 {
        assert forall|i: int| 0 <= i < comments.drop_last().len() implies is_comment(
            #[trigger] comments.drop_last()[i],
        ) by {
            assert(comments.drop_last()[i] == comments[i]);
        }
        lemma_uncommented_none(comments.drop_last());
        assert(is_comment(comments[comments.len() - 1]));
    }
}

/// Blank-line law: lines that are empty or white space only, inserted
/// anywhere in a model file, add no number texts.
pub proof fn lemma_blank_lines_add_nothing(
    before: Seq<Seq<char>>,
    blanks: Seq<Seq<char>>,
    after: Seq<Seq<char>>,
)
    requires
        forall|i: int| 0 <= i < blanks.len() ==> #[trigger] trim(blanks[i]).len() == 0,
    ensures
        obj_text(before + blanks + after) == obj_text(before + after),
{
    assert forall|i: int| 0 <= i < blanks.len() implies #[trigger] obj_line(blanks[i]).len()
        == 0 by {
        let t = trim(blanks[i]);
        assert(t.len() == 0);
        assert(split_spaces(t) == seq![Seq::<char>::empty()]);
        let e = seq![Seq::<char>::empty()];
        assert(e.drop_last() =~= Seq::<Seq<char>>::empty());
        assert(non_empty(e) == non_empty(e.drop_last()));
    }
    lemma_obj_text_append(before + blanks, after);
    lemma_obj_text_append(before, blanks);
    lemma_obj_text_append(before, after);
    lemma_obj_text_silent(blanks);
    assert(obj_text(before) + Seq::<Seq<char>>::empty() =~= obj_text(before));
}

/// Resource-file law: the lines handed on are exactly the lines that are not
/// comments, every one of them, in their order.
pub proof fn lemma_uncommented_keeps_every_other_line(lines: Seq<Seq<char>>)
    ensures
        uncommented(lines) == lines.filter(|l: Seq<char>| !is_comment(l)),
    decreases lines.len(),
{
    if lines.len() == 0 {
        reveal(Seq::filter);
    } else {
        lemma_uncommented_keeps_every_other_line(lines.drop_last());
        lines.drop_last().lemma_filter_push(lines.last(), |l: Seq<char>| !is_comment(l));
        assert(lines.drop_last().push(lines.last()) =~= lines);
    }
}

/// Model-file law: the number texts of a line that is not a comment are its
/// non-empty fields, every one of them, in order, however many there are.
pub proof fn lemma_obj_line_keeps_every_field(line: Seq<char>)
    ensures
        !is_comment(line) ==> obj_line(line) == fields(line).filter(|p: Seq<char>| p.len() > 0),
        is_comment(line) ==> obj_line(line) == Seq::<Seq<char>>::empty(),
{
    lemma_non_empty_is_filter(fields(line));
}

/// `non_empty` keeps exactly the pieces that are not empty.
proof fn lemma_non_empty_is_filter(ps: Seq<Seq<char>>)
    ensures
        non_empty(ps) == ps.filter(|p: Seq<char>| p.len() > 0),
    decreases ps.len(),
{
    if ps.len() == 0 {
        reveal(Seq::filter);
    } else {
        lemma_non_empty_is_filter(ps.drop_last());
        ps.drop_last().lemma_filter_push(ps.last(), |p: Seq<char>| p.len() > 0);
        assert(ps.drop_last().push(ps.last()) =~= ps);
    }
}

/// Model-file law: the number texts of a file are the non-empty fields of its
/// lines that are not comments, all of them, line after line.
pub proof fn lemma_obj_text_keeps_every_value(lines: Seq<Seq<char>>)
    ensures
        obj_text(lines) == lines.map_values(
            |l: Seq<char>|
                if is_comment(l) {
                    Seq::<Seq<char>>::empty()
                } else {
                    fields(l).filter(|p: Seq<char>| p.len() > 0)
                },
        ).flatten(),
    decreases lines.len(),
{
    let f = |l: Seq<char>|
        if is_comment(l) {
            Seq::<Seq<char>>::empty()
        } else {
            fields(l).filter(|p: Seq<char>| p.len() > 0)
        };
    if lines.len() == 0 {
        assert(lines.map_values(f) =~= Seq::<Seq<Seq<char>>>::empty());
    } else {
        let init = lines.drop_last();
        lemma_obj_text_keeps_every_value(init);
        lemma_obj_line_keeps_every_field(lines.last());
        assert(lines.map_values(f) =~= init.map_values(f).push(f(lines.last())));
        init.map_values(f).lemma_flatten_push(f(lines.last()));
    }
}

} // verus!

//! Lines and fields of the plain-text resource files.

use vstd::prelude::*;

verus! {

broadcast use vstd::string::group_string_axioms;

/// A line is a comment when its first character is `#`.
pub open spec fn is_comment(line: Seq<char>) -> bool {
    line.len() > 0 && line[0] == '#'
}

/// The characters of `s`, in order.
pub fn chars_of(s: &str) -> (v: Vec<char>)
    ensures
        v@ == s@,
{
    let mut v: Vec<char> = Vec::new();
    for c in it: s.chars()
        invariant
            v@ == it.seq().take(it.index()),
    {
        v.push(c);
    }
    v
}

/// Whether `line` is a comment line of a resource file.
pub fn is_comment_line(line: &str) -> (b: bool)
    ensures
        b == is_comment(line@),
{
    let n = line.unicode_len();
    n > 0 && line.get_char(0) == '#'
}

/// The characters with Unicode's `White_Space` property, which is what
/// `char::is_whitespace` and so `str::trim` test.
pub open spec fn is_white(c: char) -> bool {
    let n = c as u32;
    ||| 0x9 <= n <= 0xd
    ||| n == 0x20
    ||| n == 0x85
    ||| n == 0xa0
    ||| n == 0x1680
    ||| 0x2000 <= n <= 0x200a
    ||| n == 0x2028
    ||| n == 0x2029
    ||| n == 0x202f
    ||| n == 0x205f
    ||| n == 0x3000
}

/// `s` without its leading white space.
pub open spec fn trim_start(s: Seq<char>) -> Seq<char>
    decreases s.len(),
{
    if s.len() > 0 && is_white(s[0]) {
        trim_start(s.drop_first())
    } else {
        s
    }
}

/// `s` without its trailing white space.
pub open spec fn trim_end(s: Seq<char>) -> Seq<char>
    decreases s.len(),
{
    if s.len() > 0 && is_white(s.last()) {
        trim_end(s.drop_last())
    } else {
        s
    }
}

/// `s` without white space at either end, as `str::trim` gives it.
pub open spec fn trim(s: Seq<char>) -> Seq<char> {
    trim_end(trim_start(s))
}

/// The pieces of `s` between its space characters, as `str::split(" ")`
/// yields them: one more piece than there are spaces, empty pieces included.
pub open spec fn split_spaces(s: Seq<char>) -> Seq<Seq<char>>
    decreases s.len(),
{
    if s.len() == 0 {
        seq![Seq::<char>::empty()]
    } else {
        let r = split_spaces(s.drop_last());
        if s.last() == ' ' {
            r.push(Seq::<char>::empty())
        } else {
            r.update(r.len() - 1, r.last().push(s.last()))
        }
    }
}

/// The fields of a line: its trimmed text split at each space.
pub open spec fn fields(line: Seq<char>) -> Seq<Seq<char>> {
    split_spaces(trim(line))
}

/// The views of a sequence of strings.
pub open spec fn views(ss: Seq<String>) -> Seq<Seq<char>> {
    ss.map_values(|x: String| x@)
}

/// Splitting never yields an empty list of pieces.
pub proof fn lemma_split_spaces_nonempty(s: Seq<char>)
    ensures
        split_spaces(s).len() >= 1,
    decreases s.len(),
{
    if s.len() > 0 {
        lemma_split_spaces_nonempty(s.drop_last());
    }
}

/// The pieces `ps` joined again, with a space between each two.
pub open spec fn join_spaces(ps: Seq<Seq<char>>) -> Seq<char>
    decreases ps.len(),
{
    if ps.len() == 0 {
        Seq::empty()
    } else if ps.len() == 1 {
        ps[0]
    } else {
        join_spaces(ps.drop_last()) + seq![' '] + ps.last()
    }
}

/// Split law: the pieces of `s` hold no space, and joining them with single
/// spaces gives `s` back; so they are exactly the runs of `s` between its
/// spaces.
pub proof fn lemma_split_spaces_rejoins(s: Seq<char>)
    ensures
        split_spaces(s).len() >= 1,
        join_spaces(split_spaces(s)) == s,
        forall|i: int| 0 <= i < split_spaces(s).len() ==> !(#[trigger] split_spaces(s)[i]).contains(' '),
    decreases s.len(),
{
    if s.len() == 0 {
        assert(split_spaces(s)[0] =~= Seq::<char>::empty());
        assert(s =~= Seq::<char>::empty());
    } else {
        let init = s.drop_last();
        let c = s.last();
        lemma_split_spaces_rejoins(init);
        let r = split_spaces(init);
        let n = r.len();
        if c == ' ' {
            let t = r.push(Seq::<char>::empty());
            assert(t.drop_last() =~= r);
            assert(join_spaces(t) =~= init + seq![' '] + Seq::<char>::empty());
            assert(init + seq![' '] + Seq::<char>::empty() =~= s);
            assert forall|i: int| 0 <= i < t.len() implies !(#[trigger] t[i]).contains(' ') by {
                if i < n {
                    assert(t[i] == r[i]);
                } else {
                    assert(t[i] =~= Seq::<char>::empty());
                }
            }
        } else {
            let t = r.update(n - 1, r.last().push(c));
            if n == 1 {
                assert(join_spaces(t) == t[0]);
                assert(r[0] == init);
                assert(t[0] =~= s);
            } else {
                assert(t.drop_last() =~= r.drop_last());
                assert(join_spaces(r) == join_spaces(r.drop_last()) + seq![' '] + r.last());
                assert(join_spaces(t) == join_spaces(r.drop_last()) + seq![' '] + r.last().push(c));
                assert(join_spaces(r.drop_last()) + seq![' '] + r.last().push(c) =~= (join_spaces(
                    r.drop_last(),
                ) + seq![' '] + r.last()).push(c));
                assert(init.push(c) =~= s);
            }
            assert forall|i: int| 0 <= i < t.len() implies !(#[trigger] t[i]).contains(' ') by {
                if i < n - 1 {
                    assert(t[i] == r[i]);
                } else {
                    let p = r[n - 1];
                    assert(!p.contains(' '));
                    if t[i].contains(' ') {
                        let j = choose|j: int| 0 <= j < t[i].len() && t[i][j] == ' ';
                        if j < p.len() {
                            assert(p[j] == ' ');
                        }
                    }
                }
            }
        }
    }
}

/// `trim_start` drops a run of white space from the front of `s`, and no more.
proof fn lemma_trim_start_shape(s: Seq<char>)
    ensures
        trim_start(s).len() <= s.len(),
        trim_start(s) == s.subrange(s.len() - trim_start(s).len(), s.len() as int),
        forall|i: int| 0 <= i < s.len() - trim_start(s).len() ==> is_white(#[trigger] s[i]),
        trim_start(s).len() > 0 ==> !is_white(trim_start(s)[0]),
    decreases s.len(),
{
    if s.len() > 0 && is_white(s[0]) {
        let d = s.drop_first();
        lemma_trim_start_shape(d);
        assert forall|i: int| 0 <= i < s.len() - trim_start(s).len() implies is_white(
            #[trigger] s[i],
        ) by {
            if i > 0 {
                assert(s[i] == d[i - 1]);
            }
        }
        assert(d.subrange(d.len() - trim_start(d).len(), d.len() as int) =~= s.subrange(
            s.len() - trim_start(s).len(),
            s.len() as int,
        ));
    } else {
        assert(s.subrange(0, s.len() as int) =~= s);
    }
}

/// `trim_end` drops a run of white space from the back of `s`, and no more.
proof fn lemma_trim_end_shape(s: Seq<char>)
    ensures
        trim_end(s).len() <= s.len(),
        trim_end(s) == s.subrange(0, trim_end(s).len() as int),
        forall|i: int| trim_end(s).len() <= i < s.len() ==> is_white(#[trigger] s[i]),
        trim_end(s).len() > 0 ==> !is_white(trim_end(s).last()),
    decreases s.len(),
{
    if s.len() > 0 && is_white(s.last()) {
        let d = s.drop_last();
        lemma_trim_end_shape(d);
        assert forall|i: int| trim_end(s).len() <= i < s.len() implies is_white(#[trigger] s[i]) by {
            if i < s.len() - 1 {
                assert(s[i] == d[i]);
            }
        }
        assert(d.subrange(0, trim_end(d).len() as int) =~= s.subrange(
            0,
            trim_end(s).len() as int,
        ));
    } else {
        assert(s.subrange(0, s.len() as int) =~= s);
    }
}

/// Trim law: trimming keeps a stretch `s[a..b]` of `s` and drops only white
/// space before and after it; the stretch, if not empty, neither starts nor
/// ends with white space.
pub proof fn lemma_trim_strips_white(s: Seq<char>)
    ensures
        exists|a: int, b: int|
            {
                &&& 0 <= a <= b <= s.len()
                &&& #[trigger] s.subrange(a, b) == trim(s)
                &&& forall|i: int| 0 <= i < a ==> is_white(#[trigger] s[i])
                &&& forall|i: int| b <= i < s.len() ==> is_white(#[trigger] s[i])
                &&& a < b ==> !is_white(s[a]) && !is_white(s[b - 1])
            },
{
    let t = trim_start(s);
    lemma_trim_start_shape(s);
    lemma_trim_end_shape(t);
    let e = trim_end(t);
    let a = s.len() - t.len();
    let b = a + e.len();
    assert(s.subrange(a, b) =~= e);
    assert forall|i: int| b <= i < s.len() implies is_white(#[trigger] s[i]) by {
        assert(s[i] == t[i - a]);
    }
    if a < b {
        assert(s[a] == t[0]);
        assert(e[0] == t[0]);
        assert(s[b - 1] == e.last());
    }
}

/// Whether `c` is a white-space character.
pub fn is_white_char(c: char) -> (b: bool)
    ensures
        b == is_white(c),
{
    let n = c as u32;
    (0x9 <= n && n <= 0xd) || n == 0x20 || n == 0x85 || n == 0xa0 || n == 0x1680 || (0x2000 <= n
        && n <= 0x200a) || n == 0x2028 || n == 0x2029 || n == 0x202f || n == 0x205f || n == 0x3000
}

/// The bounds `(lo, hi)` of the trimmed part of `v`.
pub fn trim_bounds(v: &Vec<char>) -> (r: (usize, usize))
    ensures
        r.0 <= r.1 <= v.len(),
        v@.subrange(r.0 as int, r.1 as int) == trim(v@),
{
    let n = v.len();
    let mut lo: usize = 0;
    assert(v@.subrange(0, n as int) =~= v@);
    while lo < n && is_white_char(v[lo])
        invariant
            lo <= n == v.len(),
            trim_start(v@) == trim_start(v@.subrange(lo as int, n as int)),
        decreases n - lo,
    {
        assert(v@.subrange(lo as int, n as int).drop_first() =~= v@.subrange(lo + 1, n as int));
        lo = lo + 1;
    }
    assert(trim_start(v@) == v@.subrange(lo as int, n as int));
    let mut hi: usize = n;
    while hi > lo && is_white_char(v[hi - 1])
        invariant
            lo <= hi <= n == v.len(),
            trim(v@) == trim_end(v@.subrange(lo as int, hi as int)),
        decreases hi - lo,
    {
        assert(v@.subrange(lo as int, hi as int).drop_last() =~= v@.subrange(
            lo as int,
            hi - 1,
        ));
        hi = hi - 1;
    }
    (lo, hi)
}

/// The fields of `line`, as `line.trim().split(" ")` gives them.
pub fn line_fields(line: &str) -> (fs: Vec<String>)
    ensures
        views(fs@) == fields(line@),
{
    let v = chars_of(line);
    let (lo, hi) = trim_bounds(&v);
    let mut out: Vec<String> = Vec::new();
    let mut st: usize = lo;
    let mut i: usize = lo;
    assert(line@.subrange(lo as int, lo as int) =~= Seq::<char>::empty());
    assert(views(out@) + seq![line@.subrange(st as int, i as int)] =~= split_spaces(
        line@.subrange(lo as int, i as int),
    ));
    while i < hi
        invariant
            v@ == line@,
            lo <= st <= i <= hi <= v.len(),
            views(out@) + seq![line@.subrange(st as int, i as int)] == split_spaces(
                line@.subrange(lo as int, i as int),
            ),
        decreases hi - i,
    {
        let ghost prev = line@.subrange(lo as int, i as int);
        let ghost before = views(out@);
        assert(line@.subrange(lo as int, i + 1).drop_last() =~= prev);
        assert(line@.subrange(lo as int, i + 1).last() == v[i as int]);
        if v[i] == ' ' {
            let piece = line.substring_char(st, i).to_owned();
            out.push(piece);
            assert(views(out@) =~= before.push(line@.subrange(st as int, i as int)));
            st = i + 1;
            assert(line@.subrange(st as int, i + 1) =~= Seq::<char>::empty());
            assert(views(out@) + seq![line@.subrange(st as int, i + 1)] =~= split_spaces(prev).push(
                Seq::<char>::empty(),
            ));
        } else {
            assert(line@.subrange(st as int, i + 1) =~= line@.subrange(st as int, i as int).push(
                v[i as int],
            ));
            let ghost r = split_spaces(prev);
            assert(views(out@) + seq![line@.subrange(st as int, i + 1)] =~= r.update(
                r.len() - 1,
                r.last().push(v[i as int]),
            ));
        }
        i = i + 1;
    }
    let last = line.substring_char(st, hi).to_owned();
    out.push(last);
    assert(views(out@) =~= views(out@.drop_last()) + seq![line@.subrange(st as int, hi as int)]);
    out
}

} // verus!

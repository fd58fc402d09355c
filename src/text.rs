//! Text as a sequence of characters, and its division into lines at `'\n'`.
use vstd::prelude::*;

verus! {

/// The lines of `t`: the pieces between `'\n'` characters. There is always at
/// least one line, and a trailing `'\n'` ends in an empty last line.
pub open spec fn split_lines(t: Seq<char>) -> Seq<Seq<char>>
    decreases t.len(),
{
    if t.len() == 0 {
        seq![Seq::<char>::empty()]
    } else {
        let s = split_lines(t.drop_last());
        if t.last() == '\n' {
            s.push(Seq::<char>::empty())
        } else {
            s.update(s.len() - 1, s.last().push(t.last()))
        }
    }
}

/// The lines of `ls` joined with `'\n'` between each two.
pub open spec fn join_lines(ls: Seq<Seq<char>>) -> Seq<char>
    decreases ls.len(),
{
    if ls.len() == 0 {
        Seq::<char>::empty()
    } else if ls.len() == 1 {
        ls[0]
    } else {
        join_lines(ls.drop_last()) + seq!['\n'] + ls.last()
    }
}

/// A line holds no line break.
pub open spec fn is_line(l: Seq<char>) -> bool {
    forall|k: int| 0 <= k < l.len() ==> l[k] != '\n'
}

/// The character sequences held by a vector of lines.
pub open spec fn line_views(v: Seq<Vec<char>>) -> Seq<Seq<char>> {
    Seq::new(v.len(), |i: int| v[i]@)
}

/// A well-formed sequence of lines: at least one, none with a line break.
pub open spec fn lines_wf(ls: Seq<Seq<char>>) -> bool {
    &&& ls.len() >= 1
    &&& forall|i: int| 0 <= i < ls.len() ==> is_line(#[trigger] ls[i])
}

pub proof fn lemma_split_lines_wf(t: Seq<char>)
    ensures
        lines_wf(split_lines(t)),
    decreases t.len(),
{
    if t.len() > 0 {
        lemma_split_lines_wf(t.drop_last());
        let s = split_lines(t.drop_last());
        if t.last() != '\n' {
            let l = s.last().push(t.last());
            assert(is_line(s[s.len() - 1]));
            assert forall|i: int| 0 <= i < split_lines(t).len() implies is_line(
                #[trigger] split_lines(t)[i],
            ) by {
                if i < s.len() - 1 {
                    assert(split_lines(t)[i] == s[i]);
                }
            }
        } else {
            assert forall|i: int| 0 <= i < split_lines(t).len() implies is_line(
                #[trigger] split_lines(t)[i],
            ) by {
                if i < s.len() {
                    assert(split_lines(t)[i] == s[i]);
                }
            }
        }
    }
}

/// Joining the lines of a text gives the text back.
pub proof fn lemma_join_split(t: Seq<char>)
    ensures
        join_lines(split_lines(t)) == t,
    decreases t.len(),
{
    if t.len() > 0 {
        let u = t.drop_last();
        lemma_join_split(u);
        lemma_split_lines_wf(u);
        let s = split_lines(u);
        if t.last() == '\n' {
            assert(split_lines(t).drop_last() == s);
            assert(t == u + seq!['\n'] + Seq::<char>::empty());
        } else {
            let s2 = s.update(s.len() - 1, s.last().push(t.last()));
            if s.len() == 1 {
                assert(u == s[0]);
                assert(t == u.push(t.last()));
            } else {
                assert(s2.drop_last() == s.drop_last());
                assert(join_lines(s) == join_lines(s.drop_last()) + seq!['\n'] + s.last());
                assert(t =~= u.push(t.last()));
                assert(t =~= join_lines(s.drop_last()) + seq!['\n'] + s.last().push(t.last()));
            }
        }
    }
}

proof fn lemma_split_append_line(u: Seq<char>, x: Seq<char>)
    requires
        is_line(x),
    ensures
        split_lines(u + x) == split_lines(u).update(
            split_lines(u).len() - 1,
            split_lines(u).last() + x,
        ),
    decreases x.len(),
{
    lemma_split_lines_wf(u);
    if x.len() == 0 {
        assert(u + x =~= u);
        assert(split_lines(u).last() + x =~= split_lines(u).last());
        assert(split_lines(u).update(split_lines(u).len() - 1, split_lines(u).last())
            =~= split_lines(u));
    } else {
        let xs = x.drop_last();
        assert(is_line(xs)) by {
            assert forall|k: int| 0 <= k < xs.len() implies xs[k] != '\n' by {
                assert(xs[k] == x[k]);
            }
        }
        lemma_split_append_line(u, xs);
        assert((u + x).drop_last() == u + xs);
        assert(x.last() != '\n') by {
            assert(x[x.len() - 1] == x.last());
        }
        let a = split_lines(u).last();
        let l = (split_lines(u).len() - 1) as int;
        assert((a + xs).push(x.last()) =~= a + x);
        let s1 = split_lines(u + xs);
        assert(s1.last() == a + xs);
        assert(split_lines(u + x) == s1.update(l, s1.last().push(x.last())));
        assert(s1.update(l, (a + xs).push(x.last())) =~= split_lines(u).update(l, a + x));
    }
}

/// Splitting the join of well-formed lines gives the lines back.
pub proof fn lemma_split_join(ls: Seq<Seq<char>>)
    requires
        lines_wf(ls),
    ensures
        split_lines(join_lines(ls)) == ls,
    decreases ls.len(),
{
    let x = ls.last();
    assert(is_line(ls[ls.len() - 1]));
    if ls.len() == 1 {
        lemma_split_append_line(Seq::<char>::empty(), x);
        assert(Seq::<char>::empty() + x == x);
        assert(Seq::<char>::empty() + x == ls[0]);
        assert(split_lines(join_lines(ls)) == ls);
    } else {
        let init = ls.drop_last();
        assert forall|i: int| 0 <= i < init.len() implies is_line(#[trigger] init[i]) by {
            assert(init[i] == ls[i]);
        }
        lemma_split_join(init);
        let u = join_lines(init) + seq!['\n'];
        assert(u.drop_last() == join_lines(init));
        lemma_split_append_line(u, x);
        assert(Seq::<char>::empty() + x == x);
        assert(join_lines(ls) == u + x);
        assert(split_lines(u) == init.push(Seq::<char>::empty()));
        assert(split_lines(u).update(split_lines(u).len() - 1, Seq::<char>::empty() + x) == ls);
    }
}

/// Divides `t` into its lines.
pub fn split_text(t: &Vec<char>) -> (r: Vec<Vec<char>>)
    ensures
        line_views(r@) == split_lines(t@),
{
    let mut lines: Vec<Vec<char>> = Vec::new();
    lines.push(Vec::new());
    assert(line_views(lines@) =~= split_lines(t@.take(0)));
    let mut i: usize = 0;
    while i < t.len()
        invariant
            i <= t@.len(),
            line_views(lines@) == split_lines(t@.take(i as int)),
        decreases t@.len() - i,
    {
        let c = t[i];
        proof {
            lemma_split_lines_wf(t@.take(i as int));
            assert(t@.take(i as int + 1).drop_last() =~= t@.take(i as int));
        }
        if c == '\n' {
            lines.push(Vec::new());
            assert(line_views(lines@) =~= split_lines(t@.take(i as int + 1)));
        } else {
            let ghost before = lines@;
            let mut last = lines.pop().unwrap();
            last.push(c);
            lines.push(last);
            assert(line_views(lines@) =~= split_lines(t@.take(i as int + 1)));
        }
        i = i + 1;
    }
    assert(t@.take(t@.len() as int) =~= t@);
    lines
}

/// Appends the characters of `src` to `out`.
pub fn push_all(out: &mut Vec<char>, src: &Vec<char>)
    ensures
        final(out)@ == old(out)@ + src@,
{
    let mut i: usize = 0;
    while i < src.len()
        invariant
            i <= src@.len(),
            out@ == old(out)@ + src@.take(i as int),
        decreases src@.len() - i,
    {
        out.push(src[i]);
        i = i + 1;
        assert(out@ =~= old(out)@ + src@.take(i as int));
    }
    assert(src@.take(src@.len() as int) =~= src@);
}

/// The text made of `ls`, with `'\n'` between each two lines.
pub fn join_text(ls: &Vec<Vec<char>>) -> (r: Vec<char>)
    ensures
        r@ == join_lines(line_views(ls@)),
{
    let mut out: Vec<char> = Vec::new();
    if ls.len() == 0 {
        return out;
    }
    push_all(&mut out, &ls[0]);
    assert(line_views(ls@).take(1) =~= seq![ls@[0]@]);
    let mut i: usize = 1;
    while i < ls.len()
        invariant
            1 <= i <= ls@.len(),
            out@ == join_lines(line_views(ls@).take(i as int)),
        decreases ls@.len() - i,
    {
        out.push('\n');
        push_all(&mut out, &ls[i]);
        assert(line_views(ls@).take(i as int + 1).drop_last() =~= line_views(ls@).take(i as int));
        i = i + 1;
    }
    assert(line_views(ls@).take(ls@.len() as int) =~= line_views(ls@));
    out
}

} // verus!

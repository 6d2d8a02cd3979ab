//! The ignore list: newline-delimited canonical selector texts, with `#`
//! comment lines.
use vstd::prelude::*;

use crate::text::{chars_of, string_of};

verus! {

/// Whether `c` has Unicode's White_Space property (the set that
/// `char::is_whitespace` tests).
pub open spec fn is_space(c: char) -> bool {
    ('\u{9}' <= c && c <= '\u{d}') || c == ' ' || c == '\u{85}' || c == '\u{a0}' || c == '\u{1680}'
        || ('\u{2000}' <= c && c <= '\u{200a}') || c == '\u{2028}' || c == '\u{2029}' || c
        == '\u{202f}' || c == '\u{205f}' || c == '\u{3000}'
}

fn char_is_space(c: char) -> (r: bool)
    ensures
        r == is_space(c),
{
    ('\u{9}' <= c && c <= '\u{d}') || c == ' ' || c == '\u{85}' || c == '\u{a0}' || c == '\u{1680}'
        || ('\u{2000}' <= c && c <= '\u{200a}') || c == '\u{2028}' || c == '\u{2029}' || c
        == '\u{202f}' || c == '\u{205f}' || c == '\u{3000}'
}

/// The pieces of `t` between newline characters (one more than there are newlines).
pub open spec fn segments(t: Seq<char>) -> Seq<Seq<char>>
    decreases t.len(),
{
    if t.len() == 0 {
        seq![Seq::empty()]
    } else {
        let rest = segments(t.drop_last());
        if t.last() == '\n' {
            rest.push(Seq::empty())
        } else {
            rest.update(rest.len() - 1, rest.last().push(t.last()))
        }
    }
}

pub open spec fn strip_cr(l: Seq<char>) -> Seq<char> {
    if l.len() > 0 && l.last() == '\r' {
        l.drop_last()
    } else {
        l
    }
}

/// The lines of a text, as `str::lines` gives them: split at `\n`, one
/// `\r` before each `\n` removed, and a final empty piece dropped.
pub open spec fn lines_of(t: Seq<char>) -> Seq<Seq<char>> {
    let segs = segments(t);
    let ended = segs.drop_last().map_values(|l: Seq<char>| strip_cr(l));
    if segs.last().len() == 0 {
        ended
    } else {
        ended.push(segs.last())
    }
}

/// Whether the first non-whitespace character of the line is `#`.
pub open spec fn is_comment(l: Seq<char>) -> bool
    decreases l.len(),
{
    if l.len() == 0 {
        false
    } else if l[0] == '#' {
        true
    } else if is_space(l[0]) {
        is_comment(l.drop_first())
    } else {
        false
    }
}

/// The entries of an ignore list: its lines, comment lines left out.
pub open spec fn ignore_entries(t: Seq<char>) -> Seq<Seq<char>> {
    lines_of(t).filter(|l: Seq<char>| !is_comment(l))
}

proof fn lemma_segments_nonempty(t: Seq<char>)
    ensures
        segments(t).len() > 0,
    decreases t.len(),
{
    if t.len() > 0 {
        lemma_segments_nonempty(t.drop_last());
    }
}

fn line_is_comment(l: &Vec<char>) -> (r: bool)
    ensures
        r == is_comment(l@),
{
    let mut i: usize = 0;
    assert(l@.subrange(0, l@.len() as int) =~= l@);
    while i < l.len()
        invariant
            i <= l.len(),
            is_comment(l@) == is_comment(l@.subrange(i as int, l@.len() as int)),
        decreases l.len() - i,
    {
        let ghost rest = l@.subrange(i as int, l@.len() as int);
        assert(rest[0] == l@[i as int]);
        if l[i] == '#' {
            return true;
        }
        if !char_is_space(l[i]) {
            return false;
        }
        assert(rest.drop_first() =~= l@.subrange(i + 1 as int, l@.len() as int));
        i = i + 1;
    }
    assert(l@.subrange(i as int, l@.len() as int).len() == 0);
    false
}

fn strip_cr_exec(l: Vec<char>) -> (r: Vec<char>)
    ensures
        r@ == strip_cr(l@),
{
    let mut l = l;
    if l.len() > 0 && l[l.len() - 1] == '\r' {
        l.pop();
    }
    l
}

/// Splits `t` at newlines.
fn split_segments(t: &Vec<char>) -> (r: Vec<Vec<char>>)
    ensures
        r@.len() == segments(t@).len(),
        forall|i: int| 0 <= i < r@.len() ==> (#[trigger] r@[i])@ == segments(t@)[i],
{
    let mut done: Vec<Vec<char>> = Vec::new();
    let mut cur: Vec<char> = Vec::new();
    let mut i: usize = 0;
    assert(t@.subrange(0, 0) =~= Seq::<char>::empty());
    while i < t.len()
        invariant
            i <= t.len(),
            done@.len() + 1 == segments(t@.subrange(0, i as int)).len(),
            forall|j: int| 0 <= j < done@.len() ==> (#[trigger] done@[j])@ == segments(
                t@.subrange(0, i as int),
            )[j],
            cur@ == segments(t@.subrange(0, i as int)).last(),
        decreases t.len() - i,
    {
        proof {
            lemma_segments_nonempty(t@.subrange(0, i as int));
        }
        let c = t[i];
        let ghost pre = t@.subrange(0, i as int);
        i = i + 1;
        assert(t@.subrange(0, i as int).drop_last() =~= pre);
        assert(t@.subrange(0, i as int).last() == c);
        if c == '\n' {
            let finished = cur;
            done.push(finished);
            cur = Vec::new();
            assert(cur@ =~= Seq::<char>::empty());
        } else {
            cur.push(c);
        }
    }
    proof {
        assert(t@.subrange(0, i as int) =~= t@);
        lemma_segments_nonempty(t@);
    }
    let ghost before = done@;
    done.push(cur);
    assert forall|i: int| 0 <= i < done@.len() implies (#[trigger] done@[i])@ == segments(t@)[i] by {
        if i < before.len() {
            assert(done@[i] == before[i]);
        }
    }
    done
}

/// Reads an ignore list: every line that is not a comment (a line whose
/// first non-whitespace character is `#`), in order.
pub fn parse_ignore_list(contents: &str) -> (r: Vec<String>)
    ensures
        r@.map_values(|s: String| s@) == ignore_entries(contents@),
{
    let cs = chars_of(contents);
    let segs = split_segments(&cs);
    let ghost all = segments(contents@);
    proof {
        lemma_segments_nonempty(contents@);
    }
    let mut n = segs.len();
    if segs[n - 1].len() == 0 {
        n = n - 1;
    }
    let ghost lines = lines_of(contents@);
    assert(lines.len() == n);
    assert forall|j: int| 0 <= j < n implies #[trigger] lines[j] == (if j < all.len() - 1 {
        strip_cr(all[j])
    } else {
        all[j]
    }) by {}
    let mut out: Vec<String> = Vec::new();
    let mut i: usize = 0;
    while i < n
        invariant
            n <= segs@.len(),
            segs@.len() == all.len(),
            forall|j: int| 0 <= j < segs@.len() ==> (#[trigger] segs@[j])@ == all[j],
            lines.len() == n,
            forall|j: int|
                0 <= j < n ==> #[trigger] lines[j] == (if j < all.len() - 1 {
                    strip_cr(all[j])
                } else {
                    all[j]
                }),
            i <= n,
            out@.map_values(|s: String| s@) == lines.subrange(0, i as int).filter(
                |l: Seq<char>| !is_comment(l),
            ),
        decreases n - i,
    {
        let mut line: Vec<char> = Vec::new();
        let mut j: usize = 0;
        while j < segs[i].len()
            invariant
                i < n,
                n <= segs@.len(),
                j <= segs@[i as int].len(),
                line@ == segs@[i as int]@.subrange(0, j as int),
            decreases segs@[i as int].len() - j,
        {
            line.push(segs[i][j]);
            j = j + 1;
            assert(line@ =~= segs@[i as int]@.subrange(0, j as int));
        }
        assert(line@ =~= segs@[i as int]@);
        let line = if i + 1 < segs.len() {
            strip_cr_exec(line)
        } else {
            line
        };
        let ghost prev = out@;
        let comment = line_is_comment(&line);
        if !comment {
            out.push(string_of(&line));
            assert(out@.map_values(|s: String| s@) =~= prev.map_values(|s: String| s@).push(line@));
        }
        i = i + 1;
        proof {
            let sub = lines.subrange(0, i as int);
            assert(sub.drop_last() =~= lines.subrange(0, i - 1 as int));
            assert(sub.last() == line@);
            sub.drop_last().lemma_filter_push(line@, |l: Seq<char>| !is_comment(l));
            assert(sub =~= sub.drop_last().push(line@));
        }
    }
    assert(lines.subrange(0, n as int) =~= lines);
    out
}

} // verus!

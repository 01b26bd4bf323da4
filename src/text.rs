//! Line splitting and re-indentation of text.

use vstd::prelude::*;

verus! {

/// `n` space characters.
pub open spec fn spaces(n: nat) -> Seq<char> {
    Seq::new(n, |i: int| ' ')
}

/// A line with one carriage return removed from its end, if it has one.
pub open spec fn strip_cr(line: Seq<char>) -> Seq<char> {
    if line.len() > 0 && line.last() == '\r' {
        line.drop_last()
    } else {
        line
    }
}

/// The text after the last line feed of `s` (all of `s` if it has none).
pub open spec fn open_line(s: Seq<char>) -> Seq<char>
    decreases s.len(),
{
    if s.len() == 0 {
        Seq::empty()
    } else if s.last() == '\n' {
        Seq::empty()
    } else {
        open_line(s.drop_last()).push(s.last())
    }
}

/// The lines of `s` that a line feed ends, in order, each without its line
/// feed and without a carriage return just before it.
pub open spec fn closed_lines(s: Seq<char>) -> Seq<Seq<char>>
    decreases s.len(),
{
    if s.len() == 0 {
        Seq::empty()
    } else if s.last() == '\n' {
        closed_lines(s.drop_last()).push(strip_cr(open_line(s.drop_last())))
    } else {
        closed_lines(s.drop_last())
    }
}

/// The lines of `s`: split at each line feed, where a final line feed ends
/// the last line rather than starting an empty one.
pub open spec fn lines_of(s: Seq<char>) -> Seq<Seq<char>> {
    if open_line(s).len() == 0 {
        closed_lines(s)
    } else {
        closed_lines(s).push(open_line(s))
    }
}

/// Each line followed by a line feed, every line after the first preceded by
/// `width` spaces.
pub open spec fn reflow(width: nat, lines: Seq<Seq<char>>) -> Seq<char>
    decreases lines.len(),
{
    if lines.len() == 0 {
        Seq::empty()
    } else {
        let lead = if lines.len() > 1 {
            spaces(width)
        } else {
            Seq::empty()
        };
        reflow(width, lines.drop_last()) + lead + lines.last() + seq!['\n']
    }
}

/// What `indent` returns.
pub open spec fn indent_text(width: nat, s: Seq<char>) -> Seq<char> {
    reflow(width, lines_of(s))
}

/// A string of `n` spaces.
fn spaces_string(n: usize) -> (r: String)
    ensures
        r@ == spaces(n as nat),
{
    let mut r = String::new();
    for i in 0..n
        invariant
            r@ == spaces(i as nat),
    {
        proof {
            reveal_strlit(" ");
        }
        r.append(" ");
        assert(r@ =~= spaces((i + 1) as nat));
    }
    r
}

/// Re-indents `src`: every line after the first is preceded by `level`
/// spaces, and every line, the last included, ends with a line feed.
pub fn indent(level: usize, src: &str) -> (r: String)
    ensures
        r@ == indent_text(level as nat, src@),
{
    let pad = spaces_string(level);
    let n = src.unicode_len();
    let mut out = String::new();
    let mut start: usize = 0;
    let mut k: usize = 0;
    let mut cr = false;
    let mut emitted = false;
    for c in it: src.chars()
        invariant
            n == src@.len(),
            it.seq() == src@,
            k == it.index(),
            start <= k <= n,
            pad@ == spaces(level as nat),
            out@ == reflow(level as nat, closed_lines(src@.subrange(0, k as int))),
            open_line(src@.subrange(0, k as int)) == src@.subrange(start as int, k as int),
            cr == (start < k && src@[k - 1] == '\r'),
            emitted == (closed_lines(src@.subrange(0, k as int)).len() > 0),
    {
        proof {
            reveal_strlit("\n");
        }
        let ghost pre = src@.subrange(0, k as int);
        let ghost next = src@.subrange(0, k + 1);
        assert(next.drop_last() =~= pre);
        assert(next.last() == c);
        if c == '\n' {
            let line = if cr {
                src.substring_char(start, k - 1)
            } else {
                src.substring_char(start, k)
            };
            assert(line@ == strip_cr(open_line(pre)));
            let ghost done = closed_lines(pre);
            assert(closed_lines(next) == done.push(line@));
            assert(done.push(line@).drop_last() =~= done);
            if emitted {
                out.append(pad.as_str());
            }
            out.append(line);
            out.append("\n");
            start = k + 1;
            cr = false;
            emitted = true;
            assert(out@ =~= reflow(level as nat, closed_lines(next)));
        } else {
            cr = c == '\r';
            assert(open_line(next) =~= src@.subrange(start as int, k + 1));
        }
        k = k + 1;
    }
    let ghost all = src@.subrange(0, k as int);
    assert(all =~= src@);
    proof {
        reveal_strlit("\n");
    }
    if start < n {
        let line = src.substring_char(start, n);
        let ghost done = closed_lines(src@);
        assert(lines_of(src@) == done.push(line@));
        assert(done.push(line@).drop_last() =~= done);
        if emitted {
            out.append(pad.as_str());
        }
        out.append(line);
        out.append("\n");
        assert(out@ =~= reflow(level as nat, lines_of(src@)));
    }
    out
}

/// `t` with `n` spaces inserted after every line feed that is not its last
/// character.
pub open spec fn pad_breaks(t: Seq<char>, n: nat) -> Seq<char>
    decreases t.len(),
{
    if t.len() == 0 {
        Seq::empty()
    } else {
        let lead = if t.len() >= 2 && t[t.len() - 2] == '\n' {
            spaces(n)
        } else {
            Seq::empty()
        };
        pad_breaks(t.drop_last(), n) + lead + seq![t.last()]
    }
}

/// `s` holds no line feed.
pub open spec fn unbroken(s: Seq<char>) -> bool {
    forall|i: int| 0 <= i < s.len() ==> s[i] != '\n'
}

proof fn lemma_open_line_unbroken(s: Seq<char>)
    ensures
        unbroken(open_line(s)),
    decreases s.len(),
{
    if s.len() > 0 {
        lemma_open_line_unbroken(s.drop_last());
    }
}

proof fn lemma_lines_unbroken(s: Seq<char>)
    ensures
        forall|i: int| 0 <= i < lines_of(s).len() ==> unbroken(#[trigger] lines_of(s)[i]),
{
    lemma_closed_lines_unbroken(s);
    lemma_open_line_unbroken(s);
}

proof fn lemma_closed_lines_unbroken(s: Seq<char>)
    ensures
        forall|i: int| 0 <= i < closed_lines(s).len() ==> unbroken(#[trigger] closed_lines(s)[i]),
    decreases s.len(),
{
    if s.len() > 0 {
        lemma_closed_lines_unbroken(s.drop_last());
        lemma_open_line_unbroken(s.drop_last());
        let o = open_line(s.drop_last());
        let l = strip_cr(o);
        assert forall|i: int| 0 <= i < l.len() implies l[i] != '\n' by {
            assert(l[i] == o[i]);
        }
        if s.last() == '\n' {
            let prev = closed_lines(s.drop_last());
            assert forall|i: int| 0 <= i < prev.push(l).len() implies unbroken(
                #[trigger] prev.push(l)[i],
            ) by {
                if i < prev.len() {
                    assert(prev.push(l)[i] == prev[i]);
                }
            }
        }
    }
}

/// Appending text whose only line feed, if any, is its last character.
proof fn lemma_pad_append(a: Seq<char>, b: Seq<char>, n: nat)
    requires
        b.len() > 0,
        forall|i: int| 0 <= i < b.len() - 1 ==> b[i] != '\n',
    ensures
        pad_breaks(a + b, n) == pad_breaks(a, n) + (if a.len() > 0 && a.last() == '\n' {
            spaces(n)
        } else {
            Seq::empty()
        }) + b,
    decreases b.len(),
{
    let ab = a + b;
    assert(ab.drop_last() =~= a + b.drop_last());
    if b.len() == 1 {
        assert(a + b.drop_last() =~= a);
        assert(b =~= seq![b.last()]);
    } else {
        lemma_pad_append(a, b.drop_last(), n);
        assert(ab[ab.len() - 2] == b[b.len() - 2]);
        assert(b.drop_last() + seq![b.last()] =~= b);
        let lead = if a.len() > 0 && a.last() == '\n' {
            spaces(n)
        } else {
            Seq::empty()
        };
        assert(pad_breaks(a, n) + lead + b.drop_last() + seq![b.last()] =~= pad_breaks(a, n) + lead
            + b);
    }
}

proof fn lemma_reflow_padded(lines: Seq<Seq<char>>, n: nat)
    requires
        forall|i: int| 0 <= i < lines.len() ==> unbroken(#[trigger] lines[i]),
    ensures
        reflow(n, lines) == pad_breaks(reflow(0, lines), n),
    decreases lines.len(),
{
    if lines.len() > 0 {
        let rest = lines.drop_last();
        let x = lines.last();
        assert(unbroken(lines[lines.len() - 1]));
        lemma_reflow_padded(rest, n);
        let a = reflow(0, rest);
        let b = x + seq!['\n'];
        assert(spaces(0) =~= Seq::<char>::empty());
        assert(reflow(0, lines) =~= a + b);
        lemma_pad_append(a, b, n);
        if rest.len() > 0 {
            assert(a.last() == '\n');
        }
        assert(reflow(n, lines) =~= pad_breaks(a, n) + (if rest.len() > 0 {
            spaces(n)
        } else {
            Seq::empty()
        }) + b);
    }
}

/// Re-indenting to a width inserts exactly that many spaces after every line
/// feed of the unindented result but its last, and none before the first
/// line; the unindented result is every line followed by a line feed.
pub proof fn lemma_indent_pads_breaks(n: nat, s: Seq<char>)
    ensures
        indent_text(n, s) == pad_breaks(indent_text(0, s), n),
        indent_text(0, s) == reflow(0, lines_of(s)),
{
    lemma_lines_unbroken(s);
    lemma_reflow_padded(lines_of(s), n);
}

} // verus!

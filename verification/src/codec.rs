//! The persisted layout of the queue: one topic per line, a single line break
//! between topics and no terminator. Splitting and joining are verified
//! against each other: for a well-formed queue, decoding what was encoded
//! gives back exactly the queue.

use vstd::prelude::*;

verus! {

/// Helper for [`split_lines`]: `done` holds the finished segments, `cur` the
/// segment being read, and `s` the text still to scan.
pub open spec fn split_lines_from(
    s: Seq<char>,
    cur: Seq<char>,
    done: Seq<Seq<char>>,
) -> Seq<Seq<char>>
    decreases s.len(),
{
    if s.len() == 0 {
        done.push(cur)
    } else if s[0] == '\n' {
        split_lines_from(s.drop_first(), Seq::empty(), done.push(cur))
    } else {
        split_lines_from(s.drop_first(), cur.push(s[0]), done)
    }
}

/// The segments of `s` delimited by line breaks: always one segment more than
/// there are breaks, so the empty text yields one empty segment.
pub open spec fn split_lines(s: Seq<char>) -> Seq<Seq<char>> {
    split_lines_from(s, Seq::empty(), Seq::empty())
}

/// The lines of `s`, reading `\n` as a terminator: a final break closes the
/// last line instead of opening an empty one, and empty text has no lines.
pub open spec fn lines_of(s: Seq<char>) -> Seq<Seq<char>> {
    if s.len() == 0 {
        Seq::empty()
    } else if s.last() == '\n' {
        split_lines(s.drop_last())
    } else {
        split_lines(s)
    }
}

/// The lines joined with a single break between each adjacent pair.
pub open spec fn join_lines(ls: Seq<Seq<char>>) -> Seq<char>
    decreases ls.len(),
{
    if ls.len() == 0 {
        Seq::empty()
    } else if ls.len() == 1 {
        ls[0]
    } else {
        join_lines(ls.drop_last()) + seq!['\n'] + ls.last()
    }
}

/// Scanning text that holds no line break leaves one open segment: the
/// current one extended with all of that text.
proof fn lemma_split_no_break(s: Seq<char>, cur: Seq<char>, done: Seq<Seq<char>>)
    requires
        forall|k: int| 0 <= k < s.len() ==> s[k] != '\n',
    ensures
        split_lines_from(s, cur, done) == done.push(cur + s),
    decreases s.len(),
{
    if s.len() == 0 {
        assert(cur + s =~= cur);
    } else {
        assert(forall|k: int| 0 <= k < s.drop_first().len() ==> s.drop_first()[k] != '\n');
        lemma_split_no_break(s.drop_first(), cur.push(s[0]), done);
        assert(cur.push(s[0]) + s.drop_first() =~= cur + s);
    }
}

/// Scanning past a line break first closes every segment that lies before the
/// break, whatever follows it.
proof fn lemma_split_through_break(s1: Seq<char>, s2: Seq<char>, cur: Seq<char>, done: Seq<Seq<char>>)
    ensures
        split_lines_from(s1 + seq!['\n'] + s2, cur, done) == split_lines_from(
            s2,
            Seq::empty(),
            split_lines_from(s1, cur, done),
        ),
    decreases s1.len(),
{
    let w = s1 + seq!['\n'] + s2;
    if s1.len() == 0 {
        assert(w.len() > 0);
        assert(w[0] == '\n');
        assert(w.drop_first() =~= s2);
        assert(split_lines_from(s1, cur, done) == done.push(cur));
    } else {
        assert(w.len() > 0);
        assert(w[0] == s1[0]);
        assert(w.drop_first() =~= s1.drop_first() + seq!['\n'] + s2);
        if s1[0] == '\n' {
            lemma_split_through_break(s1.drop_first(), s2, Seq::empty(), done.push(cur));
        } else {
            lemma_split_through_break(s1.drop_first(), s2, cur.push(s1[0]), done);
        }
    }
}

/// Joined topics are never empty text, and end in the last character of the
/// last topic.
proof fn lemma_join_last(ls: Seq<Seq<char>>)
    requires
        ls.len() > 0,
        forall|i: int| 0 <= i < ls.len() ==> crate::is_topic(#[trigger] ls[i]),
    ensures
        join_lines(ls).len() > 0,
        join_lines(ls).last() == ls.last().last(),
{
    if ls.len() == 1 {
        assert(join_lines(ls) == ls[0]);
        assert(crate::is_topic(ls[0]));
    } else {
        let s = join_lines(ls.drop_last()) + seq!['\n'] + ls.last();
        assert(join_lines(ls) == s);
        assert(crate::is_topic(ls.last()));
        assert(s.last() == ls.last().last());
    }
}

/// Round trip of the layout: text joined from well-formed topics splits back
/// into exactly those topics.
pub proof fn lemma_lines_of_join(ls: Seq<Seq<char>>)
    requires
        forall|i: int| 0 <= i < ls.len() ==> crate::is_topic(#[trigger] ls[i]),
    ensures
        lines_of(join_lines(ls)) == ls,
    decreases ls.len(),
{
    if ls.len() == 0 {
        assert(lines_of(join_lines(ls)) =~= ls);
    } else if ls.len() == 1 {
        let s = join_lines(ls);
        assert(s == ls[0]);
        assert(crate::is_topic(ls[0]));
        assert(s.last() != '\n');
        lemma_split_no_break(s, Seq::empty(), Seq::empty());
        assert(Seq::<char>::empty() + s =~= s);
        assert(Seq::<Seq<char>>::empty().push(s) =~= ls);
    } else {
        let front = ls.drop_last();
        let lst = ls.last();
        assert(forall|i: int| 0 <= i < front.len() ==> crate::is_topic(#[trigger] front[i]));
        assert(crate::is_topic(lst));
        let a = join_lines(front);
        let s = join_lines(ls);
        assert(s == a + seq!['\n'] + lst);
        lemma_lines_of_join(front);
        lemma_join_last(front);
        assert(front.last().last() != '\n') by {
            assert(crate::is_topic(front.last()));
        }
        assert(lines_of(a) == split_lines(a));
        lemma_split_through_break(a, lst, Seq::empty(), Seq::empty());
        lemma_split_no_break(lst, Seq::empty(), front);
        assert(Seq::<char>::empty() + lst =~= lst);
        lemma_join_last(ls);
        assert(s.last() == lst.last());
        assert(lst.last() != '\n');
        assert(lines_of(s) == split_lines(s));
        assert(front.push(lst) =~= ls);
    }
}

/// Split a text into its lines, as [`lines_of`] describes.
pub fn split_into_lines(s: &str) -> (lines: Vec<String>)
    ensures
        lines.deep_view() == lines_of(s@),
{
    let n = s.unicode_len();
    let mut lines: Vec<String> = Vec::new();
    if n == 0 {
        assert(lines.deep_view() =~= lines_of(s@));
        return lines;
    }
    let end = if s.get_char(n - 1) == '\n' {
        n - 1
    } else {
        n
    };
    let ghost t = s@.take(end as int);
    proof {
        if s@.last() == '\n' {
            assert(t =~= s@.drop_last());
        } else {
            assert(t =~= s@);
        }
        assert(lines_of(s@) == split_lines(t));
        assert(t.subrange(0, end as int) =~= t);
        assert(t.subrange(0, 0) =~= Seq::<char>::empty());
        assert(lines.deep_view() =~= Seq::<Seq<char>>::empty());
    }
    let mut start: usize = 0;
    let mut i: usize = 0;
    while i < end
        invariant
            0 <= start <= i <= end <= s@.len(),
            t == s@.take(end as int),
            split_lines_from(t.subrange(i as int, end as int), t.subrange(start as int, i as int), lines.deep_view())
                == split_lines(t),
        decreases end - i,
    {
        let ghost pre = lines.deep_view();
        let ghost rest = t.subrange(i as int, end as int);
        let ghost cur = t.subrange(start as int, i as int);
        proof {
            assert(rest.len() > 0);
            assert(rest[0] == t[i as int]);
            assert(t[i as int] == s@[i as int]);
        }
        if s.get_char(i) == '\n' {
            let line = s.substring_char(start, i).to_owned();
            proof {
                assert(line@ =~= cur);
            }
            lines.push(line);
            proof {
                assert(lines.deep_view() =~= pre.push(cur));
                assert(rest.drop_first() =~= t.subrange(i + 1, end as int));
                assert(split_lines_from(rest, cur, pre)
                    == split_lines_from(t.subrange(i + 1, end as int), Seq::empty(), pre.push(cur)));
                assert(t.subrange(i + 1, i + 1) =~= Seq::<char>::empty());
            }
            start = i + 1;
        } else {
            proof {
                assert(rest.drop_first() =~= t.subrange(i + 1, end as int));
                assert(cur.push(t[i as int]) =~= t.subrange(start as int, i + 1));
                assert(split_lines_from(rest, cur, pre)
                    == split_lines_from(t.subrange(i + 1, end as int), t.subrange(start as int, i + 1), pre));
            }
        }
        i = i + 1;
    }
    let ghost pre = lines.deep_view();
    let last = s.substring_char(start, end).to_owned();
    proof {
        assert(last@ =~= t.subrange(start as int, end as int));
        assert(t.subrange(end as int, end as int).len() == 0);
    }
    lines.push(last);
    proof {
        assert(lines.deep_view() =~= pre.push(t.subrange(start as int, end as int)));
    }
    lines
}

/// Join lines with single breaks, as [`join_lines`] describes.
pub fn join_into_text(lines: &Vec<String>) -> (text: String)
    ensures
        text@ == join_lines(lines.deep_view()),
{
    let mut text = String::new();
    let mut i: usize = 0;
    proof {
        assert(lines.deep_view().take(0) =~= Seq::<Seq<char>>::empty());
    }
    while i < lines.len()
        invariant
            0 <= i <= lines.deep_view().len(),
            lines.deep_view().len() == lines@.len(),
            text@ == join_lines(lines.deep_view().take(i as int)),
        decreases lines@.len() - i,
    {
        let ghost prefix = lines.deep_view().take(i as int);
        let ghost next = lines.deep_view().take(i + 1);
        proof {
            reveal_strlit("\n");
            assert(next.drop_last() =~= prefix);
            assert(next.last() == lines.deep_view()[i as int]);
        }
        if i > 0 {
            text.append("\n");
        }
        text.append(lines[i].as_str());
        proof {
            if i == 0 {
                assert(join_lines(next) == next[0]);
                assert(text@ =~= next[0]);
            } else {
                assert(join_lines(next) == join_lines(prefix) + seq!['\n'] + next.last());
                assert(text@ =~= join_lines(prefix) + seq!['\n'] + next.last());
            }
        }
        i = i + 1;
    }
    proof {
        assert(lines.deep_view().take(lines.deep_view().len() as int) =~= lines.deep_view());
    }
    text
}

} // verus!

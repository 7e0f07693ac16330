//! The first lines of a text.
//!
//! A line ends at a line feed, or at a carriage return followed by one; the
//! last line needs no ending. A carriage return elsewhere belongs to its line.

use crate::chars::to_chars;
use vstd::prelude::*;

verus! {

/// The number of characters before the first line feed of a text, or its
/// length where it has none.
pub open spec fn line_end(text: Seq<char>) -> int
    decreases text.len(),
{
    if text.len() == 0 || text[0] == '\n' {
        0
    } else {
        1 + line_end(text.drop_first())
    }
}

/// A line without the carriage return at its end, if it has one.
pub open spec fn without_return(line: Seq<char>) -> Seq<char> {
    if line.len() > 0 && line.last() == '\r' {
        line.drop_last()
    } else {
        line
    }
}

/// The lines of a text, without their endings.
pub open spec fn lines(text: Seq<char>) -> Seq<Seq<char>>
    decreases text.len(),
{
    let end = line_end(text);
    if text.len() == 0 {
        Seq::empty()
    } else if end < 0 || end >= text.len() {
        seq![text]
    } else {
        seq![without_return(text.take(end))] + lines(text.skip(end + 1))
    }
}

/// Lines put together again, with one line feed between two lines.
pub open spec fn joined(ls: Seq<Seq<char>>) -> Seq<char>
    decreases ls.len(),
{
    if ls.len() == 0 {
        Seq::empty()
    } else if ls.len() == 1 {
        ls[0]
    } else {
        joined(ls.drop_last()) + seq!['\n'] + ls.last()
    }
}

/// The first `max` lines of a text, or all where it has fewer, joined by line
/// feeds.
pub open spec fn leading_lines(text: Seq<char>, max: nat) -> Seq<char> {
    let ls = lines(text);
    joined(
        if ls.len() <= max {
            ls
        } else {
            ls.take(max as int)
        },
    )
}

proof fn lemma_line_end(s: Seq<char>, n: int)
    requires
        0 <= n <= s.len(),
        forall|j: int| 0 <= j < n ==> s[j] != '\n',
        n == s.len() || s[n] == '\n',
    ensures
        line_end(s) == n,
    decreases n,
{
    if n > 0 {
        let t = s.drop_first();
        assert forall|j: int| 0 <= j < n - 1 implies t[j] != '\n' by {
            assert(t[j] == s[j + 1]);
        }
        if n < s.len() {
            assert(t[n - 1] == s[n]);
        }
        lemma_line_end(t, n - 1);
    }
}

/// The first `max_lines` lines of a text, joined by line feeds: what is read of
/// a text file as its content.
pub fn first_lines(content: &str, max_lines: usize) -> (head: String)
    ensures
        head@ == leading_lines(content@, max_lines as nat),
{
    let chars = to_chars(content);
    let mut head = String::new();
    let mut count: usize = 0;
    let mut start: usize = 0;
    let ghost mut done: Seq<Seq<char>> = Seq::empty();
    proof {
        assert(chars@.skip(0) == chars@);
        assert(done + lines(chars@) =~= lines(chars@));
    }
    while start < chars.len() && count < max_lines
        invariant
            start <= chars.len(),
            count <= max_lines,
            done.len() == count,
            lines(chars@) == done + lines(chars@.skip(start as int)),
            head@ == joined(done),
        decreases chars.len() - start,
    {
        let ghost rest = chars@.skip(start as int);
        let mut end: usize = start;
        while end < chars.len() && chars[end] != '\n'
            invariant
                start <= end <= chars.len(),
                forall|j: int| start <= j < end ==> chars@[j] != '\n',
            decreases chars.len() - end,
        {
            end += 1;
        }
        proof {
            lemma_line_end(rest, end - start);
        }
        let terminated = end < chars.len();
        let stop: usize = if terminated && end > start && chars[end - 1] == '\r' {
            end - 1
        } else {
            end
        };
        let ghost line = chars@.subrange(start as int, stop as int);
        proof {
            if terminated {
                assert(rest.take(end - start) =~= chars@.subrange(start as int, end as int));
                assert(without_return(rest.take(end - start)) =~= line);
                assert(rest.skip(end - start + 1) =~= chars@.skip(end + 1));
                assert(lines(rest) == seq![line] + lines(chars@.skip(end + 1)));
            } else {
                assert(rest =~= line);
                assert(lines(rest) == seq![line]);
                assert(lines(chars@.skip(chars@.len() as int)) =~= Seq::<Seq<char>>::empty());
                assert(seq![line] + Seq::<Seq<char>>::empty() =~= seq![line]);
            }
            assert(done.push(line).drop_last() =~= done);
        }
        if count > 0 {
            head.push('\n');
        }
        let ghost before = head@;
        let mut i: usize = start;
        while i < stop
            invariant
                start <= i <= stop <= chars.len(),
                head@ == before + chars@.subrange(start as int, i as int),
            decreases stop - i,
        {
            head.push(chars[i]);
            assert(chars@.subrange(start as int, i as int).push(chars@[i as int]) =~= chars@.subrange(
                start as int,
                i + 1,
            ));
            i += 1;
        }
        proof {
            if count > 0 {
                assert(before =~= joined(done) + seq!['\n']);
            } else {
                assert(before + line =~= line);
            }
            let next: int = if terminated {
                end + 1
            } else {
                chars@.len() as int
            };
            assert(done + (seq![line] + lines(chars@.skip(next))) =~= done.push(line) + lines(
                chars@.skip(next),
            ));
            done = done.push(line);
        }
        count += 1;
        start = if terminated {
            end + 1
        } else {
            chars.len()
        };
    }
    proof {
        let rest = lines(chars@.skip(start as int));
        if start >= chars.len() {
            assert(rest =~= Seq::<Seq<char>>::empty());
            assert(done + rest =~= done);
        } else {
            assert((done + rest).take(max_lines as int) =~= done);
        }
    }
    head
}

} // verus!

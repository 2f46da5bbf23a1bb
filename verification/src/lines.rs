//! Cutting a report into its lines.

use crate::report::texts;
use crate::text::chars_of;
use vstd::prelude::*;
use vstd::string::*;

verus! {

/// The line from `start` that the line feed at `end` closes: a carriage
/// return just before the line feed is no part of it.
pub open spec fn closed_line(s: Seq<char>, start: int, end: int) -> Seq<char> {
    if start < end && s[end - 1] == '\r' {
        s.subrange(start, end - 1)
    } else {
        s.subrange(start, end)
    }
}

/// The lines of `s` from the one that starts at `start`, of which the
/// characters before `i` hold no line feed. What follows the last line feed
/// is a line if it is not empty.
pub open spec fn lines_from(s: Seq<char>, start: int, i: int) -> Seq<Seq<char>>
    decreases s.len() - i,
{
    if i >= s.len() {
        if start < s.len() {
            seq![s.subrange(start, s.len() as int)]
        } else {
            Seq::empty()
        }
    } else if s[i] == '\n' {
        seq![closed_line(s, start, i)] + lines_from(s, i + 1, i + 1)
    } else {
        lines_from(s, start, i + 1)
    }
}

/// The lines of `s`.
pub open spec fn lines_of(s: Seq<char>) -> Seq<Seq<char>> {
    lines_from(s, 0, 0)
}

/// Cuts `text` into its lines, without the line ends.
pub fn split_lines(text: &str) -> (lines: Vec<String>)
    ensures
        texts(lines@) == lines_of(text@),
{
    let cs = chars_of(text);
    let n: usize = cs.len();
    let mut lines: Vec<String> = Vec::new();
    let mut start: usize = 0;
    let mut i: usize = 0;
    assert(texts(lines@) + lines_from(cs@, 0, 0) =~= lines_of(cs@));
    while i < n
        invariant
            cs@ == text@,
            n == cs.len(),
            start <= i <= n,
            texts(lines@) + lines_from(cs@, start as int, i as int) == lines_of(cs@),
        decreases n - i,
    {
        if cs[i] == '\n' {
            let end: usize = if start < i && cs[i - 1] == '\r' {
                i - 1
            } else {
                i
            };
            let ghost before = texts(lines@);
            let line = String::from_str(text.substring_char(start, end));
            assert(line@ == closed_line(cs@, start as int, i as int));
            lines.push(line);
            assert(texts(lines@) =~= before.push(line@));
            assert(texts(lines@) + lines_from(cs@, i + 1, i + 1) =~= before + lines_from(
                cs@,
                start as int,
                i as int,
            ));
            start = i + 1;
        }
        i += 1;
    }
    if start < n {
        let ghost before = texts(lines@);
        let line = String::from_str(text.substring_char(start, n));
        lines.push(line);
        assert(texts(lines@) =~= before.push(line@));
        assert(texts(lines@) =~= before + lines_from(cs@, start as int, n as int));
    } else {
        assert(texts(lines@) + lines_from(cs@, start as int, n as int) =~= texts(lines@));
    }
    lines
}

} // verus!

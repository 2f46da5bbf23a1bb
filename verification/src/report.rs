//! Reading the connected displays from the lines of an inventory report.

use crate::monitor::{monitor_of, Monitor, MonitorView, ParseError};
use crate::pairing::{chunk_at, chunks_of};
use crate::text::{chars_of, contains_chars, first_token, has_infix, lemma_position_finds};
use vstd::prelude::*;
use vstd::string::*;

verus! {

/// What each of the texts holds.
pub open spec fn texts(lines: Seq<String>) -> Seq<Seq<char>> {
    Seq::new(lines.len(), |i: int| lines[i]@)
}

/// What each of the displays stands for.
pub open spec fn views(monitors: Seq<Monitor>) -> Seq<MonitorView> {
    Seq::new(monitors.len(), |i: int| monitors[i]@)
}

/// A header is a line that reports a connected output.
pub open spec fn is_header(line: Seq<char>) -> bool {
    has_infix(line, " connected"@)
}

/// Whether line `i` is a header with a mode line after it: a further line
/// that is no header itself.
pub open spec fn heads_mode(lines: Seq<Seq<char>>, i: int) -> bool {
    &&& 0 <= i
    &&& i + 1 < lines.len()
    &&& is_header(lines[i])
    &&& !is_header(lines[i + 1])
}

/// The displays in `acc` and, behind them, the one that the header at `i`
/// and its mode line describe, if they describe one. An error stays, and one
/// in these two lines ends the reading.
pub open spec fn with_monitor_at(
    acc: Result<Seq<MonitorView>, ParseError>,
    lines: Seq<Seq<char>>,
    i: int,
) -> Result<Seq<MonitorView>, ParseError> {
    match acc {
        Err(e) => Err(e),
        Ok(found) => match monitor_of(lines[i], lines[i + 1]) {
            Err(e) => Err(e),
            Ok(None) => Ok(found),
            Ok(Some(m)) => Ok(found.push(m)),
        },
    }
}

/// The displays that the headers among the first `n` lines give, in the
/// order of the headers, or the first error met.
pub open spec fn monitors_upto(lines: Seq<Seq<char>>, n: int) -> Result<
    Seq<MonitorView>,
    ParseError,
>
    decreases n,
{
    if n <= 0 {
        Ok(Seq::empty())
    } else if heads_mode(lines, n - 1) {
        with_monitor_at(monitors_upto(lines, n - 1), lines, n - 1)
    } else {
        monitors_upto(lines, n - 1)
    }
}

/// The displays that a report of these lines describes.
pub open spec fn report_monitors(lines: Seq<Seq<char>>) -> Result<Seq<MonitorView>, ParseError> {
    monitors_upto(lines, lines.len() as int)
}

/// Whether `r` is `expected`, each display taken by its view.
pub open spec fn monitors_match(
    r: Result<Vec<Monitor>, ParseError>,
    expected: Result<Seq<MonitorView>, ParseError>,
) -> bool {
    match expected {
        Err(e) => r == Err::<Vec<Monitor>, ParseError>(e),
        Ok(found) => r is Ok && views(r->Ok_0@) == found,
    }
}

/// The positions below `n` of the headers that have a mode line.
pub open spec fn heads(lines: Seq<Seq<char>>, n: int) -> Seq<int>
    decreases n,
{
    if n <= 0 {
        Seq::empty()
    } else if heads_mode(lines, n - 1) {
        heads(lines, n - 1).push(n - 1)
    } else {
        heads(lines, n - 1)
    }
}

/// The positions below `n` of the lines that are read: the headers that have
/// a mode line, and those mode lines.
pub open spec fn picked(lines: Seq<Seq<char>>, n: int) -> Seq<int>
    decreases n,
{
    if n <= 0 {
        Seq::empty()
    } else if heads_mode(lines, n - 1) || heads_mode(lines, n - 2) {
        picked(lines, n - 1).push(n - 1)
    } else {
        picked(lines, n - 1)
    }
}

/// Each position followed by the next one.
pub open spec fn with_successors(positions: Seq<int>) -> Seq<int> {
    Seq::new(2 * positions.len(), |j: int| positions[j / 2] + j % 2)
}

/// The displays that the headers at the given positions give.
pub open spec fn monitors_at(lines: Seq<Seq<char>>, positions: Seq<int>) -> Result<
    Seq<MonitorView>,
    ParseError,
>
    decreases positions.len(),
{
    if positions.len() == 0 {
        Ok(Seq::empty())
    } else {
        with_monitor_at(monitors_at(lines, positions.drop_last()), lines, positions.last())
    }
}

/// Every position in `heads` is that of a header with a mode line.
pub proof fn lemma_heads_head_modes(lines: Seq<Seq<char>>, n: int)
    requires
        n <= lines.len(),
    ensures
        forall|k: int|
            0 <= k < heads(lines, n).len() ==> 0 <= #[trigger] heads(lines, n)[k] < n
                && heads_mode(lines, heads(lines, n)[k]),
    decreases n,
{
    if n > 0 {
        lemma_heads_head_modes(lines, n - 1);
        let before = heads(lines, n - 1);
        assert forall|k: int| 0 <= k < heads(lines, n).len() implies 0 <= #[trigger] heads(
            lines,
            n,
        )[k] < n && heads_mode(lines, heads(lines, n)[k]) by {
            if k < before.len() {
                assert(heads(lines, n)[k] == before[k]);
            }
        }
    }
}

/// The lines that are read are the headers with a mode line, each followed
/// by its mode line; a header at the very end of the part looked at is still
/// waiting for the line after it.
pub proof fn lemma_picked_is_paired(lines: Seq<Seq<char>>, n: int)
    requires
        0 <= n <= lines.len(),
    ensures
        picked(lines, n) == if heads_mode(lines, n - 1) {
            with_successors(heads(lines, n - 1)).push(n - 1)
        } else {
            with_successors(heads(lines, n))
        },
    decreases n,
{
    if n == 0 {
        assert(picked(lines, n) =~= with_successors(heads(lines, n)));
    } else {
        lemma_picked_is_paired(lines, n - 1);
        if heads_mode(lines, n - 1) {
            // line n - 1 is a header, so it is no mode line, and the header
            // before it has none
            assert(!heads_mode(lines, n - 2));
            assert(heads(lines, n - 1) == heads(lines, n - 2));
            assert(picked(lines, n) =~= with_successors(heads(lines, n - 1)).push(n - 1));
        } else if heads_mode(lines, n - 2) {
            let before = heads(lines, n - 2);
            assert(heads(lines, n - 1) == before.push(n - 2));
            assert(heads(lines, n) == heads(lines, n - 1));
            assert(with_successors(before.push(n - 2)) =~= with_successors(before).push(n - 2).push(
                n - 1,
            ));
        } else {
            assert(heads(lines, n) == heads(lines, n - 1));
        }
    }
}

/// Reading header by header gives what reading at the positions of the
/// headers gives.
pub proof fn lemma_monitors_at_heads(lines: Seq<Seq<char>>, n: int)
    ensures
        monitors_upto(lines, n) == monitors_at(lines, heads(lines, n)),
    decreases n,
{
    if n > 0 {
        lemma_monitors_at_heads(lines, n - 1);
        if heads_mode(lines, n - 1) {
            assert(heads(lines, n).drop_last() =~= heads(lines, n - 1));
        }
    }
}

/// An error met at the first `k` positions is the result at all of them.
pub proof fn lemma_error_stays(lines: Seq<Seq<char>>, positions: Seq<int>, k: int)
    requires
        0 <= k <= positions.len(),
        monitors_at(lines, positions.take(k)) is Err,
    ensures
        monitors_at(lines, positions) == monitors_at(lines, positions.take(k)),
    decreases positions.len() - k,
{
    if k == positions.len() {
        assert(positions.take(k) =~= positions);
    } else {
        assert(positions.take(k + 1).drop_last() =~= positions.take(k));
        lemma_error_stays(lines, positions, k + 1);
    }
}

/// What is read depends on the lines alone: two results for the same lines
/// agree, in the displays or in the error.
pub proof fn lemma_reading_is_repeatable(
    lines: Seq<Seq<char>>,
    first: Result<Vec<Monitor>, ParseError>,
    second: Result<Vec<Monitor>, ParseError>,
)
    requires
        monitors_match(first, report_monitors(lines)),
        monitors_match(second, report_monitors(lines)),
    ensures
        first is Ok <==> second is Ok,
        first is Ok ==> views(first->Ok_0@) == views(second->Ok_0@),
        first is Err ==> first->Err_0 == second->Err_0,
{
}

/// What the headers among the first `n` lines give depends on no line after
/// line `n`.
pub proof fn lemma_later_lines_are_not_read(a: Seq<Seq<char>>, b: Seq<Seq<char>>, n: int)
    requires
        n < a.len(),
        n < b.len(),
        forall|j: int| 0 <= j <= n ==> a[j] == b[j],
    ensures
        monitors_upto(a, n) == monitors_upto(b, n),
    decreases n,
{
    if n > 0 {
        lemma_later_lines_are_not_read(a, b, n - 1);
        assert(heads_mode(a, n - 1) == heads_mode(b, n - 1));
    }
}

/// A header that is the last line gives no display: the report reads as it
/// does without that line.
pub proof fn lemma_header_at_the_end_is_dropped(lines: Seq<Seq<char>>)
    requires
        lines.len() > 0,
        is_header(lines.last()),
    ensures
        report_monitors(lines) == report_monitors(lines.drop_last()),
{
    let n = lines.len() as int;
    let rest = lines.drop_last();
    assert(!heads_mode(lines, n - 1));
    assert(monitors_upto(lines, n) == monitors_upto(lines, n - 1));
    if n >= 2 {
        assert(monitors_upto(lines, n - 1) == monitors_upto(lines, n - 2));
        assert(monitors_upto(rest, n - 1) == monitors_upto(rest, n - 2));
        assert(!heads_mode(lines, n - 2));
        assert(!heads_mode(rest, n - 2));
        if n >= 3 {
            lemma_later_lines_are_not_read(lines, rest, n - 2);
        } else {
            assert(monitors_upto(lines, 0) == monitors_upto(rest, 0));
        }
        assert(monitors_upto(lines, n - 2) == monitors_upto(rest, n - 2));
    }
}

/// A header gives no display where the first token of the line after it
/// holds no `x`, and where that line holds no token at all.
pub proof fn lemma_header_before_a_word_is_dropped(
    acc: Result<Seq<MonitorView>, ParseError>,
    lines: Seq<Seq<char>>,
    i: int,
)
    requires
        0 <= i,
        i + 1 < lines.len(),
        match first_token(lines[i + 1]) {
            None => true,
            Some(token) => !token.contains('x'),
        },
    ensures
        monitor_of(lines[i], lines[i + 1]) == Ok::<Option<MonitorView>, ParseError>(None),
        with_monitor_at(acc, lines, i) == acc,
{
    match first_token(lines[i + 1]) {
        None => {},
        Some(token) => {
            lemma_position_finds(token, 'x', 0);
        },
    }
}

/// Whether `line` is a header.
pub fn line_is_header(line: &str) -> (b: bool)
    ensures
        b == is_header(line@),
{
    contains_chars(&chars_of(line), &chars_of(" connected"))
}

/// Reads the connected displays from the lines of a report, in the order of
/// their headers. A header whose next line is missing, is a header itself,
/// or holds no resolution gives no display; a resolution with a field that
/// is no extent ends the reading with an error.
pub fn parse_lines(lines: &Vec<String>) -> (r: Result<Vec<Monitor>, ParseError>)
    ensures
        monitors_match(r, report_monitors(texts(lines@))),
{
    let ghost all = texts(lines@);
    let n: usize = lines.len();
    let mut flags: Vec<bool> = Vec::new();
    let mut i: usize = 0;
    while i < n
        invariant
            n == lines.len(),
            all == texts(lines@),
            i <= n,
            flags.len() == i,
            forall|j: int| 0 <= j < i ==> flags@[j] == is_header(#[trigger] all[j]),
        decreases n - i,
    {
        flags.push(line_is_header(lines[i].as_str()));
        i += 1;
    }
    let mut chosen: Vec<usize> = Vec::new();
    i = 0;
    while i < n
        invariant
            n == lines.len(),
            all == texts(lines@),
            all.len() == n,
            i <= n,
            flags.len() == n,
            forall|j: int| 0 <= j < n ==> flags@[j] == is_header(#[trigger] all[j]),
            chosen.len() == picked(all, i as int).len(),
            forall|j: int| 0 <= j < chosen.len() ==> #[trigger] chosen@[j] == picked(all, i as int)[j],
        decreases n - i,
    {
        let heads_here: bool = flags[i] && i + 1 < n && !flags[i + 1];
        let follows: bool = i > 0 && flags[i - 1] && !flags[i];
        assert(heads_here == heads_mode(all, i as int));
        assert(follows == heads_mode(all, i - 1));
        if heads_here || follows {
            chosen.push(i);
        }
        i += 1;
    }
    let chunks = chunks_of(&chosen, 2);
    let ghost positions = heads(all, n as int);
    proof {
        lemma_picked_is_paired(all, n as int);
        lemma_heads_head_modes(all, n as int);
        lemma_monitors_at_heads(all, n as int);
        assert(picked(all, n as int) == with_successors(positions));
        assert(chunks.len() == positions.len());
    }
    let mut found: Vec<Monitor> = Vec::new();
    let mut k: usize = 0;
    assert(positions.take(0) =~= Seq::<int>::empty());
    assert(views(found@) =~= Seq::<MonitorView>::empty());
    while k < chunks.len()
        invariant
            report_monitors(all) == monitors_at(all, positions),
            n == lines.len(),
            all == texts(lines@),
            all.len() == n,
            positions == heads(all, n as int),
            chunks.len() == positions.len(),
            chosen.len() == 2 * positions.len(),
            k <= chunks.len(),
            forall|j: int|
                0 <= j < positions.len() ==> 0 <= #[trigger] positions[j] && positions[j] + 1 < n,
            forall|j: int| 0 <= j < chosen.len() ==> #[trigger] chosen@[j] == positions[j / 2] + j % 2,
            forall|j: int|
                0 <= j < chunks.len() ==> (#[trigger] chunks@[j])@ == chunk_at(chosen@, 2, j),
            monitors_at(all, positions.take(k as int)) == Ok::<Seq<MonitorView>, ParseError>(
                views(found@),
            ),
        decreases chunks.len() - k,
    {
        let chunk = &chunks[k];
        assert(chunk@ == chunk_at(chosen@, 2, k as int));
        assert(chunk@.len() == 2);
        let head: usize = chunk[0];
        let mode: usize = chunk[1];
        assert(head == chosen@[2 * k]);
        assert(mode == chosen@[2 * k + 1]);
        assert(head == positions[k as int]);
        assert(mode == head + 1);
        let ghost before = views(found@);
        let parsed = Monitor::from_line(lines[head].as_str(), lines[mode].as_str());
        proof {
            assert(positions.take(k + 1).drop_last() =~= positions.take(k as int));
            assert(positions.take(k + 1).last() == head);
            assert(all[head as int] == lines@[head as int]@);
            assert(all[mode as int] == lines@[mode as int]@);
        }
        match parsed {
            Err(e) => {
                proof {
                    lemma_error_stays(all, positions, k + 1);
                }
                return Err(e);
            },
            Ok(None) => {},
            Ok(Some(m)) => {
                found.push(m);
                assert(views(found@) =~= before.push(m@));
            },
        }
        k += 1;
    }
    assert(positions.take(k as int) =~= positions);
    Ok(found)
}

} // verus!

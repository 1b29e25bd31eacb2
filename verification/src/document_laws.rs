//! What holds of edits.

use vstd::prelude::*;
use vstd::utf8::is_char_boundary;

use crate::definitions::Range;
use crate::documents::{edited, edited_lines, line_break, lines_from, text_lines, without_return};

verus! {

/// The lines in order, with a line break behind each.
pub open spec fn ended_lines(lines: Seq<Seq<u8>>) -> Seq<u8>
    decreases lines.len(),
{
    if lines.len() == 0 {
        Seq::empty()
    } else {
        ended_lines(lines.drop_last()) + (lines.last() + seq![10u8])
    }
}

/// Whether a range begins and ends inside lines, between characters.
pub open spec fn in_lines(lines: Seq<Seq<u8>>, range: Range) -> bool {
    &&& range.start.line <= range.end.line < lines.len()
    &&& is_char_boundary(lines[range.start.line as int], range.start.character as int)
    &&& is_char_boundary(lines[range.end.line as int], range.end.character as int)
}

/// What stands before the range, with the text behind it.
pub open spec fn up_to_range(lines: Seq<Seq<u8>>, range: Range, text: Seq<u8>) -> Seq<u8> {
    let first = range.start.line as int;
    ended_lines(lines.take(first)) + (lines[first].subrange(0, range.start.character as int) + text)
}

/// What stands behind the range in its last line.
pub open spec fn rest_of_line(lines: Seq<Seq<u8>>, range: Range) -> Seq<u8> {
    let last = lines[range.end.line as int];
    last.subrange(range.end.character as int, last.len() as int) + seq![10u8]
}

proof fn lemma_one_more(lines: Seq<Seq<u8>>, from: int, n: int)
    requires
        0 <= from <= n < lines.len(),
    ensures
        ended_lines(lines.subrange(from, n + 1)) == ended_lines(lines.subrange(from, n)) + (lines[n]
            + seq![10u8]),
{
    assert(lines.subrange(from, n + 1).drop_last() =~= lines.subrange(from, n));
}

proof fn lemma_edited_up_to(lines: Seq<Seq<u8>>, n: nat, range: Range, text: Seq<u8>)
    requires
        in_lines(lines, range),
        n <= lines.len(),
    ensures
        n <= range.start.line ==> edited_lines(lines, n, range, text) == Some(
            ended_lines(lines.take(n as int)),
        ),
        range.start.line < n <= range.end.line ==> edited_lines(lines, n, range, text) == Some(
            up_to_range(lines, range, text),
        ),
        n > range.end.line ==> edited_lines(lines, n, range, text) == Some(
            up_to_range(lines, range, text) + rest_of_line(lines, range) + ended_lines(
                lines.subrange(range.end.line as int + 1, n as int),
            ),
        ),
    decreases n,
{
    let first = range.start.line as int;
    let last = range.end.line as int;
    if n == 0 {
        assert(lines.take(0).len() == 0);
    } else {
        lemma_edited_up_to(lines, (n - 1) as nat, range, text);
        let i = n - 1;
        let line = lines[i];
        let before = edited_lines(lines, i as nat, range, text)->Some_0;
        let now = edited_lines(lines, n, range, text);
        if i < first {
            lemma_one_more(lines, 0, i);
            assert(lines.take(n as int) =~= lines.subrange(0, i + 1));
            assert(lines.take(i) =~= lines.subrange(0, i));
        } else if i > last {
            lemma_one_more(lines, last + 1, i);
            assert(now->Some_0 =~= up_to_range(lines, range, text) + rest_of_line(lines, range)
                + ended_lines(lines.subrange(last + 1, n as int)));
        } else {
            assert(lines.take(i) =~= lines.subrange(0, i));
            let start_text = line.subrange(0, range.start.character as int) + text;
            if i == last {
                assert(lines.subrange(last + 1, n as int).len() == 0);
                let all = up_to_range(lines, range, text) + rest_of_line(lines, range);
                assert(all + Seq::<u8>::empty() =~= all);
                if i == first {
                    assert(now->Some_0 =~= all);
                } else {
                    assert(now->Some_0 =~= all);
                }
            } else if i == first {
                assert(start_text + Seq::<u8>::empty() =~= start_text);
            } else {
                assert(before + (Seq::<u8>::empty() + Seq::<u8>::empty()) =~= before);
            }
        }
    }
}

/// A change replaces its range and nothing else: the lines around it stay, as does what stands
/// around it in its first and its last line.
pub proof fn law_change_replaces_its_range(bytes: Seq<u8>, range: Range, text: Seq<u8>)
    requires
        in_lines(text_lines(bytes), range),
    ensures
        ({
            let lines = text_lines(bytes);
            let first = range.start.line as int;
            let last = range.end.line as int;
            edited(bytes, Some(range), text) == Some(
                ended_lines(lines.take(first)) + (lines[first].subrange(
                    0,
                    range.start.character as int,
                ) + text) + (lines[last].subrange(
                    range.end.character as int,
                    lines[last].len() as int,
                ) + seq![10u8]) + ended_lines(lines.subrange(last + 1, lines.len() as int)),
            )
        }),
{
    let lines = text_lines(bytes);
    lemma_edited_up_to(lines, lines.len(), range, text);
}

/// Whether a line stays one when a line break is put behind it.
pub open spec fn stays_a_line(line: Seq<u8>) -> bool {
    &&& !line.contains(10u8)
    &&& line.len() > 0 ==> line.last() != 13u8
}

proof fn lemma_break_behind(line: Seq<u8>, rest: Seq<u8>, i: nat)
    requires
        !line.contains(10u8),
        i <= line.len(),
    ensures
        line_break(line + seq![10u8] + rest, i) == Some(line.len()),
    decreases line.len() - i,
{
    let all = line + seq![10u8] + rest;
    if i < line.len() {
        assert(all[i as int] == line[i as int]);
        assert(line.contains(line[i as int]));
        lemma_break_behind(line, rest, i + 1);
    } else {
        assert(all[i as int] == 10u8);
    }
}

proof fn lemma_first_line(lines: Seq<Seq<u8>>)
    requires
        lines.len() > 0,
    ensures
        ended_lines(lines) == lines[0] + seq![10u8] + ended_lines(lines.drop_first()),
    decreases lines.len(),
{
    if lines.len() == 1 {
        assert(ended_lines(lines.drop_last()) =~= Seq::<u8>::empty());
        assert(ended_lines(lines.drop_first()) =~= Seq::<u8>::empty());
        assert(ended_lines(lines) =~= lines[0] + seq![10u8] + ended_lines(lines.drop_first()));
    } else {
        lemma_first_line(lines.drop_last());
        assert(lines.drop_last().drop_first() =~= lines.drop_first().drop_last());
        assert(lines.drop_first().last() == lines.last());
        let middle = ended_lines(lines.drop_first().drop_last());
        let end = lines.last() + seq![10u8];
        assert(lines.drop_last()[0] == lines[0]);
        assert(ended_lines(lines.drop_first()) == middle + end);
        assert(lines[0] + seq![10u8] + middle + end =~= lines[0] + seq![10u8] + (middle + end));
        assert(ended_lines(lines) =~= lines[0] + seq![10u8] + ended_lines(lines.drop_first()));
    }
}

proof fn lemma_lines_come_back(lines: Seq<Seq<u8>>, done: Seq<Seq<u8>>)
    requires
        forall|i: int| 0 <= i < lines.len() ==> stays_a_line(#[trigger] lines[i]),
    ensures
        lines_from(ended_lines(lines), done) == done + lines,
    decreases lines.len(),
{
    let bytes = ended_lines(lines);
    if lines.len() == 0 {
        assert(line_break(bytes, 0) is None);
        assert(done + lines =~= done);
    } else {
        let rest = ended_lines(lines.drop_first());
        lemma_first_line(lines);
        assert(stays_a_line(lines[0]));
        lemma_break_behind(lines[0], rest, 0);
        let p = lines[0].len() as int;
        assert(bytes.subrange(0, p) =~= lines[0]);
        assert(bytes.subrange(p + 1, bytes.len() as int) =~= rest);
        assert(without_return(lines[0]) == lines[0]);
        assert forall|i: int| 0 <= i < lines.drop_first().len() implies stays_a_line(
            #[trigger] lines.drop_first()[i],
        ) by {
            assert(stays_a_line(lines[i + 1]));
        }
        lemma_lines_come_back(lines.drop_first(), done.push(lines[0]));
        assert(done.push(lines[0]) + lines.drop_first() =~= done + lines);
    }
}

/// Lines that were written with a line break behind each are read as the same lines, unless one
/// ends in a carriage return.
pub proof fn law_lines_come_back(lines: Seq<Seq<u8>>)
    requires
        forall|i: int| 0 <= i < lines.len() ==> stays_a_line(#[trigger] lines[i]),
    ensures
        text_lines(ended_lines(lines)) == lines,
{
    lemma_lines_come_back(lines, Seq::empty());
    assert(Seq::<Seq<u8>>::empty() + lines =~= lines);
}

} // verus!

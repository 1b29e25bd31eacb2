//! What is told of the compiler's messages, and where.

use vstd::prelude::*;

use crate::diagnostics::{
    diagnostic_of, diagnostics_of, related, top_file, DiagnosticModel, RelatedModel,
};
use crate::namespace::{
    line_column, lines_before, offset_of, range_of, CompilerMessage, Loc, Namespace, Note,
    SourceFile,
};
use crate::queries::exclusive_range;

verus! {

/// The line of an offset is the last one that starts at or before it, and its column counts from
/// there. The first line starts at zero, and `line_starts` names the starts of the others.
pub proof fn law_offsets_lie_in_their_line(line_starts: Seq<usize>, offset: usize)
    ensures
        ({
            let (line, column) = line_column(line_starts, offset);
            let start = if line == 0 {
                0
            } else {
                line_starts[line - 1] as int
            };
            &&& line <= line_starts.len()
            &&& column >= 0
            &&& start + column == offset
            &&& forall|k: int| line <= k < line_starts.len() ==> #[trigger] line_starts[k] > offset
        }),
{
    lemma_last_line(line_starts, offset, line_starts.len());
}

proof fn lemma_last_line(line_starts: Seq<usize>, offset: usize, n: nat)
    requires
        n <= line_starts.len(),
    ensures
        ({
            let line = lines_before(line_starts, offset, n);
            &&& line <= n
            &&& line > 0 ==> line_starts[line - 1] <= offset
            &&& forall|k: int| line <= k < n ==> #[trigger] line_starts[k] > offset
        }),
    decreases n,
{
    if n > 0 && line_starts[n - 1] > offset {
        lemma_last_line(line_starts, offset, (n - 1) as nat);
    }
}

/// A range goes from the line and column of its first offset to those of its second.
pub proof fn law_ranges_go_from_start_to_end(line_starts: Seq<usize>, start: usize, end: usize)
    requires
        line_starts.len() <= u32::MAX,
        start <= u32::MAX,
        end <= u32::MAX,
    ensures
        range_of(line_starts, start, end).start.line == line_column(line_starts, start).0,
        range_of(line_starts, start, end).start.character == line_column(line_starts, start).1,
        range_of(line_starts, start, end).end.line == line_column(line_starts, end).0,
        range_of(line_starts, start, end).end.character == line_column(line_starts, end).1,
{
    law_offsets_lie_in_their_line(line_starts, start);
    law_offsets_lie_in_their_line(line_starts, end);
}

/// A place in a line is as many bytes behind the start of the line as its column says. There is no such
/// place in a line that the file does not have, or behind what can be counted.
pub proof fn law_places_are_counted_from_their_line(
    line_starts: Seq<usize>,
    line: usize,
    column: usize,
)
    ensures
        ({
            let start = if line == 0 {
                0
            } else {
                line_starts[line - 1] as int
            };
            &&& offset_of(line_starts, line, column) is Some <==> line <= line_starts.len() && start
                + column <= usize::MAX
            &&& offset_of(line_starts, line, column) matches Some(offset) ==> offset == start + column
        }),
{
}

/// The range of the bytes from one offset up to another ends at the last byte before that one.
pub proof fn law_ranges_end_at_their_last_byte(line_starts: Seq<usize>, start: usize, stop: usize)
    requires
        start < stop,
        line_starts.len() <= u32::MAX,
        stop <= u32::MAX,
    ensures
        exclusive_range(line_starts, start, stop).start.line == line_column(line_starts, start).0,
        exclusive_range(line_starts, start, stop).start.character == line_column(
            line_starts,
            start,
        ).1,
        exclusive_range(line_starts, start, stop).end.line == line_column(
            line_starts,
            (stop - 1) as usize,
        ).0,
        exclusive_range(line_starts, start, stop).end.character == line_column(
            line_starts,
            (stop - 1) as usize,
        ).1,
{
    law_ranges_go_from_start_to_end(line_starts, start, (stop - 1) as usize);
}

/// Whether the file is the one that was asked for: the first of those that were read.
pub open spec fn is_asked_for(files: Seq<SourceFile>, top: int) -> bool {
    &&& 0 <= top < files.len()
    &&& files[top].cache_no is Some
    &&& forall|j: int| 0 <= j < top ==> (#[trigger] files[j]).cache_no is None
}

proof fn lemma_top(files: Seq<SourceFile>, i: nat, top: int)
    requires
        i <= top,
        is_asked_for(files, top),
    ensures
        top_file(files, i) == Some(top as nat),
    decreases top - i,
{
    if i < top {
        assert(files[i as int].cache_no is None);
        lemma_top(files, i + 1, top);
    }
}

/// Whether a message is one to be told of on the file.
pub open spec fn is_told(top: int, m: CompilerMessage) -> bool {
    m.loc matches Loc::File(file_no, _, _) && file_no == top && !(m.level is Debug)
}

/// Whether a message, and every note on it, has a place in a file of the namespace.
pub open spec fn is_placed(ns: Namespace, top: int, m: CompilerMessage) -> bool {
    &&& m.loc is File
    &&& is_told(top, m) ==> forall|k: int|
        0 <= k < m.notes@.len() ==> ((#[trigger] m.notes@[k]).loc matches Loc::File(file_no, _, _)
            && file_no < ns.files@.len())
}

/// Whether what is told has the words, the place and the weight of the message, and its notes one by
/// one.
pub open spec fn tells_message(
    ns: Namespace,
    top: int,
    m: CompilerMessage,
    d: DiagnosticModel,
) -> bool {
    let starts = ns.files@[top].line_starts@;
    &&& d.message == m.message@
    &&& m.loc matches Loc::File(_, start, end) && d.range == range_of(starts, start, end)
    &&& m.level is Info ==> d.severity is Information
    &&& m.level is Warning ==> d.severity is Warning
    &&& m.level is Error ==> d.severity is Error
    &&& d.related_information is None <==> m.notes@.len() == 0
    &&& m.notes@.len() > 0 ==> {
        let notes = d.related_information->Some_0;
        &&& notes.len() == m.notes@.len()
        &&& forall|k: int|
            0 <= k < notes.len() ==> tells_note(ns, top, m.notes@[k], #[trigger] notes[k])
    }
}

/// Whether what is told has the words and the place of the note.
pub open spec fn tells_note(ns: Namespace, top: int, note: Note, r: RelatedModel) -> bool {
    &&& r.message == note.message@
    &&& note.loc matches Loc::File(file_no, start, end) && file_no < ns.files@.len() && r.path
        == ns.files@[file_no as int].path@ && r.range == range_of(
        ns.files@[top].line_starts@,
        start,
        end,
    )
}

proof fn lemma_related(ns: Namespace, top: int, notes: Seq<Note>, n: nat)
    requires
        n <= notes.len(),
    ensures
        related(ns, ns.files@[top], notes, n) is Some <==> forall|k: int|
            0 <= k < n ==> ((#[trigger] notes[k]).loc matches Loc::File(file_no, _, _) && file_no
                < ns.files@.len()),
        related(ns, ns.files@[top], notes, n) matches Some(told) ==> told.len() == n && forall|k: int|
            0 <= k < n ==> tells_note(ns, top, notes[k], #[trigger] told[k]),
    decreases n,
{
    if n > 0 {
        lemma_related(ns, top, notes, (n - 1) as nat);
        let note = notes[n - 1];
        assert(related(ns, ns.files@[top], notes, n) is Some <==> related(
            ns,
            ns.files@[top],
            notes,
            (n - 1) as nat,
        ) is Some && (note.loc matches Loc::File(file_no, _, _) && file_no < ns.files@.len()));
    }
}

proof fn lemma_told(ns: Namespace, top: int, m: CompilerMessage)
    requires
        is_asked_for(ns.files@, top),
    ensures
        diagnostic_of(ns, m) is Some <==> is_placed(ns, top, m),
        is_placed(ns, top, m) ==> (diagnostic_of(ns, m)->Some_0 is Some <==> is_told(top, m)),
        is_placed(ns, top, m) && is_told(top, m) ==> tells_message(
            ns,
            top,
            m,
            diagnostic_of(ns, m)->Some_0->Some_0,
        ),
{
    lemma_top(ns.files@, 0, top);
    lemma_related(ns, top, m.notes@, m.notes@.len());
}

proof fn lemma_messages(ns: Namespace, top: int, n: nat)
    requires
        is_asked_for(ns.files@, top),
        n <= ns.diagnostics@.len(),
    ensures
        diagnostics_of(ns, n) is Some <==> forall|k: int|
            0 <= k < n ==> is_placed(ns, top, #[trigger] ns.diagnostics@[k]),
        diagnostics_of(ns, n) matches Some(told) ==> {
            let messages = ns.diagnostics@.take(n as int).filter(
                |m: CompilerMessage| is_told(top, m),
            );
            &&& told.len() == messages.len()
            &&& forall|i: int|
                0 <= i < told.len() ==> tells_message(ns, top, messages[i], #[trigger] told[i])
        },
    decreases n,
{
    reveal(Seq::filter);
    if n > 0 {
        lemma_messages(ns, top, (n - 1) as nat);
        let m = ns.diagnostics@[n - 1];
        lemma_told(ns, top, m);
        assert(ns.diagnostics@.take(n as int).drop_last() =~= ns.diagnostics@.take(n - 1));
        assert(ns.diagnostics@.take(n as int).last() == m);
        assert(diagnostics_of(ns, n) is Some <==> diagnostics_of(ns, (n - 1) as nat) is Some
            && is_placed(ns, top, m));
    }
}

/// Every message on the file that was asked for is told of, once and in order, but for those for
/// debugging; messages on the files that it imports are not. Nothing at all is told where a message
/// or a note to be told of has no place in a file.
pub proof fn law_messages_are_told(ns: Namespace, top: int)
    requires
        is_asked_for(ns.files@, top),
    ensures
        diagnostics_of(ns, ns.diagnostics@.len()) is Some <==> forall|k: int|
            0 <= k < ns.diagnostics@.len() ==> is_placed(ns, top, #[trigger] ns.diagnostics@[k]),
        diagnostics_of(ns, ns.diagnostics@.len()) matches Some(told) ==> {
            let messages = ns.diagnostics@.filter(|m: CompilerMessage| is_told(top, m));
            &&& told.len() == messages.len()
            &&& forall|i: int|
                0 <= i < told.len() ==> tells_message(ns, top, messages[i], #[trigger] told[i])
        },
{
    lemma_messages(ns, top, ns.diagnostics@.len());
    assert(ns.diagnostics@.take(ns.diagnostics@.len() as int) =~= ns.diagnostics@);
}

} // verus!

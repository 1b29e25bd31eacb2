//! How the call traces of a run follow from the entries and exits of its functions.

use vstd::prelude::*;

use crate::debug_info::{location_at, FunctionModel, Instruction, InstructionKind, UnitModel};
use crate::trace::{
    after_entries, after_entry, after_exit, after_exits, after_instruction, after_nodes, after_step,
    after_steps, entries, frame_of, frames_at, in_contract, nothing_followed, run_steps,
    stack_bytes, stack_of, unit_at, CallTraceStep, ContractAddress, DebugNode, DebuggerContext,
    Followed, FrameModel, Seen, StepKindModel, StepModel,
};
use crate::trace_laws::increases;

verus! {

/// What a recorded instruction does: it enters a function, leaves one, or stands for a statement or
/// a call, with the variables in scope there.
pub enum Event {
    Enter(FunctionModel),
    Leave(FunctionModel),
    At(Instruction, Seq<usize>),
}

/// What a recorded instruction does, and what it sees.
pub struct Mark {
    pub seen: Seen,
    pub event: Event,
}

/// What an instruction of a contract does: it enters each function that starts there, leaves each
/// function that ends there, and then stands for what the contract has there.
pub open spec fn marks_of(unit: UnitModel, seen: Seen) -> Seq<Mark> {
    entry_marks(unit.functions, seen) + exit_marks(unit.functions, seen) + own_mark(unit, seen)
}

pub open spec fn entry_marks(functions: Seq<FunctionModel>, seen: Seen) -> Seq<Mark> {
    functions.filter(|f: FunctionModel| f.entry_pc == seen.pc).map_values(
        |f: FunctionModel| Mark { seen, event: Event::Enter(f) },
    )
}

pub open spec fn exit_marks(functions: Seq<FunctionModel>, seen: Seen) -> Seq<Mark> {
    functions.filter(|f: FunctionModel| f.exit_pc == seen.pc).map_values(
        |f: FunctionModel| Mark { seen, event: Event::Leave(f) },
    )
}

pub open spec fn own_mark(unit: UnitModel, seen: Seen) -> Seq<Mark> {
    match location_at(unit, seen.pc) {
        Some((instruction, vars)) => seq![Mark { seen, event: Event::At(instruction, vars) }],
        None => Seq::empty(),
    }
}

/// What a recorded instruction does; one of an unknown contract does nothing.
pub open spec fn step_marks(
    contracts: Seq<(ContractAddress, String)>,
    units: Seq<(Seq<char>, UnitModel)>,
    step: CallTraceStep,
) -> Seq<Mark> {
    match unit_at(contracts, units, step.contract) {
        Some(unit) => marks_of(
            unit,
            Seen {
                pc: step.pc,
                path: unit.path,
                memory: step.memory->Some_0@,
                stack: stack_bytes(step.stack->Some_0@),
            },
        ),
        None => Seq::empty(),
    }
}

/// What the instructions of a recorded call do, one after the other.
pub open spec fn node_marks(
    contracts: Seq<(ContractAddress, String)>,
    units: Seq<(Seq<char>, UnitModel)>,
    steps: Seq<CallTraceStep>,
) -> Seq<Mark> {
    steps.map_values(|s: CallTraceStep| step_marks(contracts, units, s)).flatten()
}

/// What all instructions of a run do, one after the other.
pub open spec fn arena_marks(
    contracts: Seq<(ContractAddress, String)>,
    units: Seq<(Seq<char>, UnitModel)>,
    arena: Seq<DebugNode>,
) -> Seq<Mark> {
    arena.map_values(|n: DebugNode| node_marks(contracts, units, n.steps@)).flatten()
}

/// What all instructions of a run do, one after the other.
pub open spec fn run_marks(context: DebuggerContext, units: Seq<(Seq<char>, UnitModel)>) -> Seq<Mark> {
    arena_marks(context.contracts.identified_contracts@, units, context.debug_arena@)
}

/// How many more functions are entered than left from `a` up to `b`.
pub open spec fn depth(marks: Seq<Mark>, a: int, b: int) -> int
    decreases b - a,
{
    if b <= a {
        0
    } else {
        depth(marks, a, b - 1) + match marks[b - 1].event {
            Event::Enter(_) => 1int,
            Event::Leave(_) => -1int,
            Event::At(_, _) => 0int,
        }
    }
}

/// Whether the function that is entered at `x` has not been left before `p`: at no time since have
/// more functions been left than entered.
pub open spec fn open_until(marks: Seq<Mark>, x: int, p: int) -> bool {
    forall|q: int| x < q <= p ==> #[trigger] depth(marks, x + 1, q) >= 0
}

/// Whether the step shows what the mark says.
pub open spec fn shows(mark: Mark, step: StepModel) -> bool {
    &&& step.path == mark.seen.path
    &&& step.memory == mark.seen.memory
    &&& step.stack == mark.seen.stack
    &&& match mark.event {
        Event::Enter(f) => {
            &&& step.location == f.root_block.location
            &&& step.variables_in_scope.len() == 0
            &&& step.kind == StepKindModel::FunctionDefinition(f.name)
        },
        Event::Leave(_) => false,
        Event::At(instruction, vars) => {
            &&& step.location == instruction.location
            &&& step.variables_in_scope == vars
            &&& step.kind is FunctionCall <==> instruction.kind == InstructionKind::FunctionCall
            &&& step.kind is Statement <==> instruction.kind != InstructionKind::FunctionCall
        },
    }
}

/// Whether the steps are what the marks show, one for each entry and each statement or call, in
/// order: the step `s` shows the mark at `places[s]`.
pub open spec fn shown_at(marks: Seq<Mark>, places: Seq<int>, steps: Seq<StepModel>) -> bool {
    &&& places.len() == steps.len()
    &&& forall|s: int|
        0 <= s < places.len() ==> 0 <= #[trigger] places[s] < marks.len() && shows(
            marks[places[s]],
            steps[s],
        )
    &&& forall|s: int, t: int|
        0 <= s < t < places.len() ==> #[trigger] places[s] < #[trigger] places[t]
    &&& forall|p: int|
        0 <= p < marks.len() && !((#[trigger] marks[p]).event is Leave) ==> places.contains(p)
}

/// Whether the step `e` enters a function, other than the first one, that is still to be left at `p`.
pub open spec fn opened(marks: Seq<Mark>, places: Seq<int>, e: nat, p: int) -> bool {
    &&& 0 < e < places.len()
    &&& places[e as int] < p
    &&& marks[places[e as int]].event is Enter
    &&& open_until(marks, places[e as int], p)
}

/// Whether the trace names the calls that are open at `p`, outermost first.
pub open spec fn names_open(marks: Seq<Mark>, places: Seq<int>, p: int, trace: Seq<nat>) -> bool {
    &&& increases(trace)
    &&& forall|e: nat| #[trigger] trace.contains(e) <==> opened(marks, places, e, p)
}

/// Whether every exit is that of the function that was entered last and is still open.
pub open spec fn left_in_turn(marks: Seq<Mark>, places: Seq<int>) -> bool {
    forall|e: nat, q: int|
        0 <= q < marks.len() && (#[trigger] marks[q]).event is Leave && (#[trigger] opened(
            marks,
            places,
            e,
            q,
        )) && depth(marks, places[e as int] + 1, q) == 0 ==> marks[places[e as int]].event->Enter_0.name
            == marks[q].event->Leave_0.name
}

/// Whether the calls are those that are open behind the marks, each as deep as it stands.
spec fn calls_open(marks: Seq<Mark>, places: Seq<int>, calls: Seq<(Seq<char>, nat)>) -> bool {
    &&& forall|j: int|
        0 <= j < calls.len() ==> {
            let e = (#[trigger] calls[j]).1;
            &&& opened(marks, places, e, marks.len() as int)
            &&& marks[places[e as int]].event->Enter_0.name == calls[j].0
            &&& depth(marks, places[e as int] + 1, marks.len() as int) == calls.len() - 1 - j
        }
    &&& names_open(marks, places, marks.len() as int, entries(calls))
}

/// Whether what was followed is what the marks say.
spec fn told(marks: Seq<Mark>, places: Seq<int>, f: Followed) -> bool {
    &&& shown_at(marks, places, f.steps)
    &&& forall|s: int|
        0 <= s < f.steps.len() ==> names_open(
            marks,
            places,
            places[s],
            (#[trigger] f.steps[s]).call_trace,
        )
    &&& left_in_turn(marks, places)
    &&& calls_open(marks, places, f.calls)
}

proof fn lemma_depth_kept(marks: Seq<Mark>, more: Mark, a: int, b: int)
    requires
        0 <= a,
        b <= marks.len(),
    ensures
        depth(marks.push(more), a, b) == depth(marks, a, b),
    decreases b - a,
{
    if b > a {
        lemma_depth_kept(marks, more, a, b - 1);
    }
}

proof fn lemma_open_kept(marks: Seq<Mark>, more: Mark, x: int, p: int)
    requires
        0 <= x,
        p <= marks.len(),
    ensures
        open_until(marks.push(more), x, p) == open_until(marks, x, p),
{
    assert forall|q: int| x < q <= p implies #[trigger] depth(marks.push(more), x + 1, q) == depth(
        marks,
        x + 1,
        q,
    ) by {
        lemma_depth_kept(marks, more, x + 1, q);
    }
    if open_until(marks, x, p) {
        assert forall|q: int| x < q <= p implies #[trigger] depth(marks.push(more), x + 1, q) >= 0 by {
            assert(depth(marks, x + 1, q) >= 0);
        }
    }
    if open_until(marks.push(more), x, p) {
        assert forall|q: int| x < q <= p implies #[trigger] depth(marks, x + 1, q) >= 0 by {
            assert(depth(marks.push(more), x + 1, q) >= 0);
        }
    }
}

/// One more mark keeps open what was open, but where the depth falls below zero.
proof fn lemma_open_on(marks: Seq<Mark>, more: Mark, x: int)
    requires
        0 <= x < marks.len(),
    ensures
        open_until(marks.push(more), x, marks.len() as int + 1) == (open_until(
            marks,
            x,
            marks.len() as int,
        ) && depth(marks.push(more), x + 1, marks.len() as int + 1) >= 0),
        depth(marks.push(more), x + 1, marks.len() as int + 1) == depth(
            marks,
            x + 1,
            marks.len() as int,
        ) + match more.event {
            Event::Enter(_) => 1int,
            Event::Leave(_) => -1int,
            Event::At(_, _) => 0int,
        },
{
    let n = marks.len() as int;
    let longer = marks.push(more);
    lemma_open_kept(marks, more, x, n);
    lemma_depth_kept(marks, more, x + 1, n);
    if open_until(longer, x, n + 1) {
        assert forall|q: int| x < q <= n implies #[trigger] depth(longer, x + 1, q) >= 0 by {}
        assert(depth(longer, x + 1, n + 1) >= 0);
    }
    if open_until(longer, x, n) && depth(longer, x + 1, n + 1) >= 0 {
        assert forall|q: int| x < q <= n + 1 implies #[trigger] depth(longer, x + 1, q) >= 0 by {
            if q <= n {
                assert(depth(longer, x + 1, q) >= 0);
            }
        }
    }
}

/// What was open at a place stays so, whatever comes behind.
proof fn lemma_opened_kept(
    marks: Seq<Mark>,
    places: Seq<int>,
    more: Mark,
    later: Seq<int>,
    p: int,
)
    requires
        p <= marks.len(),
        later == places || later == places.push(marks.len() as int),
        forall|s: int| 0 <= s < places.len() ==> 0 <= #[trigger] places[s] < marks.len(),
    ensures
        forall|e: nat|
            #![trigger opened(marks.push(more), later, e, p)]
            #![trigger opened(marks, places, e, p)]
            opened(marks.push(more), later, e, p) == opened(marks, places, e, p),
{
    assert forall|e: nat|
        #![trigger opened(marks.push(more), later, e, p)]
        #![trigger opened(marks, places, e, p)]
        opened(marks.push(more), later, e, p) == opened(marks, places, e, p) by {
        if 0 < e < places.len() {
            assert(later[e as int] == places[e as int]);
            assert(marks.push(more)[places[e as int]] == marks[places[e as int]]);
            lemma_open_kept(marks, more, places[e as int], p);
        }
    }
}

/// The steps so far are told by the marks with one more behind them.
proof fn lemma_steps_told(
    marks: Seq<Mark>,
    places: Seq<int>,
    f: Followed,
    more: Mark,
    later: Seq<int>,
)
    requires
        told(marks, places, f),
        later == places || later == places.push(marks.len() as int),
    ensures
        forall|s: int|
            0 <= s < f.steps.len() ==> names_open(
                marks.push(more),
                later,
                later[s],
                (#[trigger] f.steps[s]).call_trace,
            ),
        names_open(marks.push(more), later, marks.len() as int, entries(f.calls)),
        forall|e: nat, q: int|
            0 <= q < marks.len() && (#[trigger] marks.push(more)[q]).event is Leave && (
            #[trigger] opened(marks.push(more), later, e, q)) && depth(
                marks.push(more),
                later[e as int] + 1,
                q,
            ) == 0 ==> marks.push(more)[later[e as int]].event->Enter_0.name == marks.push(
                more,
            )[q].event->Leave_0.name,
{
    let longer = marks.push(more);
    assert forall|s: int| 0 <= s < f.steps.len() implies names_open(
        longer,
        later,
        later[s],
        (#[trigger] f.steps[s]).call_trace,
    ) by {
        assert(later[s] == places[s]);
        assert(names_open(marks, places, places[s], f.steps[s].call_trace));
        lemma_opened_kept(marks, places, more, later, places[s]);
    }
    lemma_opened_kept(marks, places, more, later, marks.len() as int);
    assert forall|e: nat, q: int|
        0 <= q < marks.len() && (#[trigger] longer[q]).event is Leave && (#[trigger] opened(
            longer,
            later,
            e,
            q,
        )) && depth(longer, later[e as int] + 1, q) == 0 implies longer[later[e as int]].event->Enter_0.name
        == longer[q].event->Leave_0.name by {
        lemma_opened_kept(marks, places, more, later, q);
        assert(opened(marks, places, e, q));
        assert(later[e as int] == places[e as int]);
        lemma_depth_kept(marks, more, places[e as int] + 1, q);
        assert(marks[q].event is Leave);
    }
}

/// A function is entered.
proof fn lemma_entered(marks: Seq<Mark>, places: Seq<int>, f: Followed, mark: Mark, g: Followed)
    requires
        told(marks, places, f),
        mark.event is Enter,
        g.steps.len() == f.steps.len() + 1,
        g.steps.drop_last() == f.steps,
        shows(mark, g.steps.last()),
        g.steps.last().call_trace == entries(f.calls),
        g.calls == if f.steps.len() == 0 {
            f.calls
        } else {
            f.calls.push((mark.event->Enter_0.name, f.steps.len()))
        },
    ensures
        told(marks.push(mark), places.push(marks.len() as int), g),
{
    let longer = marks.push(mark);
    let later = places.push(marks.len() as int);
    let n = marks.len() as int;
    assert(g.steps =~= f.steps.push(g.steps.last()));
    lemma_shown_on(marks, places, f.steps, mark, g.steps.last());
    lemma_steps_told(marks, places, f, mark, later);
    assert forall|s: int| 0 <= s < g.steps.len() implies names_open(
        longer,
        later,
        later[s],
        (#[trigger] g.steps[s]).call_trace,
    ) by {
        if s < f.steps.len() {
            assert(g.steps[s] == f.steps[s]);
        }
    }
    assert forall|e: nat| opened(longer, later, e, n + 1) <==> opened(marks, places, e, n) || (e
        == places.len() && e > 0) by {
        if 0 < e < places.len() {
            let x = places[e as int];
            assert(later[e as int] == x);
            assert(longer[x] == marks[x]);
            lemma_open_on(marks, mark, x);
            if open_until(marks, x, n) {
                assert(depth(marks, x + 1, n) >= 0);
            }
        } else if e == places.len() && e > 0 {
            assert(open_until(longer, n, n + 1)) by {
                assert forall|q: int| n < q <= n + 1 implies #[trigger] depth(longer, n + 1, q)
                    >= 0 by {}
            }
        }
    }
    let before = entries(f.calls);
    let after = entries(g.calls);
    assert forall|e: nat| #[trigger] after.contains(e) <==> opened(longer, later, e, n + 1) by {
        if f.steps.len() > 0 {
            assert(after =~= before.push(f.steps.len()));
            vstd::seq_lib::lemma_seq_contains_after_push(before, f.steps.len(), e);
        }
        assert(before.contains(e) <==> opened(marks, places, e, n));
    }
    assert(increases(after)) by {
        assert forall|k: int| 0 <= k < after.len() implies #[trigger] after[k] > 0 by {
            if k < before.len() {
                assert(after[k] == before[k]);
            }
        }
        assert forall|j: int, k: int| 0 <= j < k < after.len() implies #[trigger] after[j]
            < #[trigger] after[k] by {
            assert(after[j] == before[j]);
            if k < before.len() {
                assert(after[k] == before[k]);
            } else {
                assert(before.contains(before[j]));
                assert(opened(marks, places, before[j], n));
            }
        }
    }
    assert forall|j: int| 0 <= j < g.calls.len() implies {
        let e = (#[trigger] g.calls[j]).1;
        &&& opened(longer, later, e, longer.len() as int)
        &&& longer[later[e as int]].event->Enter_0.name == g.calls[j].0
        &&& depth(longer, later[e as int] + 1, longer.len() as int) == g.calls.len() - 1 - j
    } by {
        let e = g.calls[j].1;
        if j < f.calls.len() {
            assert(g.calls[j] == f.calls[j]);
            assert(opened(marks, places, f.calls[j].1, n));
            lemma_open_on(marks, mark, places[e as int]);
            assert(f.steps.len() > 0);
        }
        assert(opened(longer, later, e, n + 1));
    }
    assert(left_in_turn(longer, later)) by {
        assert(!(longer[n].event is Leave));
    }
}

proof fn lemma_shown_on(
    marks: Seq<Mark>,
    places: Seq<int>,
    steps: Seq<StepModel>,
    mark: Mark,
    step: StepModel,
)
    requires
        shown_at(marks, places, steps),
        shows(mark, step),
    ensures
        shown_at(marks.push(mark), places.push(marks.len() as int), steps.push(step)),
{
    let longer = marks.push(mark);
    let later = places.push(marks.len() as int);
    assert forall|p: int| 0 <= p < longer.len() && !((#[trigger] longer[p]).event is Leave) implies later.contains(p) by {
        if p < marks.len() {
            assert(!(marks[p].event is Leave));
            let s = choose|s: int| 0 <= s < places.len() && places[s] == p;
            assert(later[s] == p);
        } else {
            assert(later[places.len() as int] == p);
        }
    }
}

/// A statement or call is reached.
proof fn lemma_reached(marks: Seq<Mark>, places: Seq<int>, f: Followed, mark: Mark, g: Followed)
    requires
        told(marks, places, f),
        mark.event is At,
        g.steps.len() == f.steps.len() + 1,
        g.steps.drop_last() == f.steps,
        shows(mark, g.steps.last()),
        g.steps.last().call_trace == entries(f.calls),
        g.calls == f.calls,
    ensures
        told(marks.push(mark), places.push(marks.len() as int), g),
{
    let longer = marks.push(mark);
    let later = places.push(marks.len() as int);
    let n = marks.len() as int;
    assert(g.steps =~= f.steps.push(g.steps.last()));
    lemma_shown_on(marks, places, f.steps, mark, g.steps.last());
    lemma_steps_told(marks, places, f, mark, later);
    assert forall|s: int| 0 <= s < g.steps.len() implies names_open(
        longer,
        later,
        later[s],
        (#[trigger] g.steps[s]).call_trace,
    ) by {
        if s < f.steps.len() {
            assert(g.steps[s] == f.steps[s]);
        }
    }
    let trace = entries(f.calls);
    assert forall|e: nat| #[trigger] trace.contains(e) <==> opened(longer, later, e, n + 1) by {
        if 0 < e < places.len() {
            let x = places[e as int];
            assert(later[e as int] == x);
            assert(longer[x] == marks[x]);
            lemma_open_on(marks, mark, x);
            if open_until(marks, x, n) {
                assert(depth(marks, x + 1, n) >= 0);
            }
        }
        assert(trace.contains(e) <==> opened(marks, places, e, n));
    }
    assert forall|j: int| 0 <= j < g.calls.len() implies {
        let e = (#[trigger] g.calls[j]).1;
        &&& opened(longer, later, e, longer.len() as int)
        &&& longer[later[e as int]].event->Enter_0.name == g.calls[j].0
        &&& depth(longer, later[e as int] + 1, longer.len() as int) == g.calls.len() - 1 - j
    } by {
        let e = g.calls[j].1;
        assert(opened(marks, places, f.calls[j].1, n));
        lemma_open_on(marks, mark, places[e as int]);
        assert(trace[j] == e);
        assert(trace.contains(e));
    }
    assert(left_in_turn(longer, later)) by {
        assert(!(longer[n].event is Leave));
    }
}

/// A function is left.
proof fn lemma_left(marks: Seq<Mark>, places: Seq<int>, f: Followed, mark: Mark, g: Followed)
    requires
        told(marks, places, f),
        mark.event is Leave,
        g.steps == f.steps,
        g.calls == if f.calls.len() == 0 {
            f.calls
        } else {
            f.calls.drop_last()
        },
        f.calls.len() > 0 ==> f.calls.last().0 == mark.event->Leave_0.name,
    ensures
        told(marks.push(mark), places, g),
{
    let longer = marks.push(mark);
    let n = marks.len() as int;
    assert(shown_at(longer, places, g.steps)) by {
        assert forall|s: int| 0 <= s < places.len() implies 0 <= #[trigger] places[s] < longer.len()
            && shows(longer[places[s]], g.steps[s]) by {
            assert(longer[places[s]] == marks[places[s]]);
        }
        assert forall|p: int| 0 <= p < longer.len() && !((#[trigger] longer[p]).event is Leave) implies places.contains(p) by {
            assert(!(marks[p].event is Leave));
        }
    }
    lemma_steps_told(marks, places, f, mark, places);
    let before = entries(f.calls);
    let after = entries(g.calls);
    let k = f.calls.len() as int;
    assert forall|e: nat| opened(marks, places, e, n) implies exists|j: int|
        0 <= j < k && #[trigger] f.calls[j].1 == e by {
        assert(before.contains(e));
        let j = choose|j: int| 0 <= j < before.len() && before[j] == e;
        assert(f.calls[j].1 == e);
    }
    assert forall|e: nat| #[trigger] after.contains(e) <==> opened(longer, places, e, n + 1) by {
        if 0 < e < places.len() {
            let x = places[e as int];
            assert(longer[x] == marks[x]);
            lemma_open_on(marks, mark, x);
            if opened(marks, places, e, n) {
                let j = choose|j: int| 0 <= j < k && #[trigger] f.calls[j].1 == e;
                assert(depth(marks, x + 1, n) == k - 1 - j);
                if j < k - 1 {
                    assert(after[j] == e);
                } else if after.contains(e) {
                    let i = choose|i: int| 0 <= i < after.len() && after[i] == e;
                    assert(before[i] == e && before[k - 1] == e);
                }
            }
        }
        if after.contains(e) {
            let i = choose|i: int| 0 <= i < after.len() && after[i] == e;
            assert(before[i] == e);
            assert(before.contains(e));
            assert(opened(marks, places, e, n));
        }
    }
    assert(increases(after)) by {
        assert forall|i: int| 0 <= i < after.len() implies #[trigger] after[i] > 0 by {
            assert(after[i] == before[i]);
        }
        assert forall|i: int, j: int| 0 <= i < j < after.len() implies #[trigger] after[i]
            < #[trigger] after[j] by {
            assert(after[i] == before[i] && after[j] == before[j]);
        }
    }
    assert forall|j: int| 0 <= j < g.calls.len() implies {
        let e = (#[trigger] g.calls[j]).1;
        &&& opened(longer, places, e, longer.len() as int)
        &&& longer[places[e as int]].event->Enter_0.name == g.calls[j].0
        &&& depth(longer, places[e as int] + 1, longer.len() as int) == g.calls.len() - 1 - j
    } by {
        let e = g.calls[j].1;
        assert(g.calls[j] == f.calls[j]);
        assert(opened(marks, places, f.calls[j].1, n));
        lemma_open_on(marks, mark, places[e as int]);
        assert(after[j] == e);
        assert(after.contains(e));
    }
    assert forall|e: nat, q: int|
        0 <= q < longer.len() && (#[trigger] longer[q]).event is Leave && (#[trigger] opened(
            longer,
            places,
            e,
            q,
        )) && depth(longer, places[e as int] + 1, q) == 0 implies longer[places[e as int]].event->Enter_0.name
        == longer[q].event->Leave_0.name by {
        if q == n {
            lemma_opened_kept(marks, places, mark, places, n);
            assert(opened(marks, places, e, n));
            let j = choose|j: int| 0 <= j < k && #[trigger] f.calls[j].1 == e;
            lemma_depth_kept(marks, mark, places[e as int] + 1, n);
            assert(j == k - 1);
            assert(f.calls.last() == f.calls[k - 1]);
        }
    }
}

proof fn lemma_filter_step(functions: Seq<FunctionModel>, n: nat, p: spec_fn(FunctionModel) -> bool)
    requires
        0 < n <= functions.len(),
    ensures
        functions.take(n as int).filter(p) == if p(functions[n - 1]) {
            functions.take(n - 1).filter(p).push(functions[n - 1])
        } else {
            functions.take(n - 1).filter(p)
        },
{
    reveal(Seq::filter);
    assert(functions.take(n as int).drop_last() =~= functions.take(n - 1));
    assert(functions.take(n as int).last() == functions[n - 1]);
}

proof fn lemma_entries_told(
    functions: Seq<FunctionModel>,
    n: nat,
    seen: Seen,
    marks: Seq<Mark>,
    places: Seq<int>,
    f: Followed,
) -> (later: Seq<int>)
    requires
        n <= functions.len(),
        told(marks, places, f),
        after_entries(functions, n, seen, f) is Ok,
    ensures
        told(
            marks + entry_marks(functions.take(n as int), seen),
            later,
            after_entries(functions, n, seen, f)->Ok_0,
        ),
    decreases n,
{
    let p = |g: FunctionModel| g.entry_pc == seen.pc;
    if n == 0 {
        reveal(Seq::filter);
        assert(marks + entry_marks(functions.take(0), seen) =~= marks);
        places
    } else {
        let before = lemma_entries_told(functions, (n - 1) as nat, seen, marks, places, f);
        let g = after_entries(functions, (n - 1) as nat, seen, f)->Ok_0;
        let h = after_entry(functions[n - 1], seen, g)->Ok_0;
        let so_far = marks + entry_marks(functions.take(n - 1), seen);
        let all = marks + entry_marks(functions.take(n as int), seen);
        lemma_filter_step(functions, n, p);
        if functions[n - 1].entry_pc == seen.pc {
            let mark = Mark { seen, event: Event::Enter(functions[n - 1]) };
            assert(h.steps.drop_last() =~= g.steps);
            lemma_entered(so_far, before, g, mark, h);
            assert(all =~= so_far.push(mark));
            before.push(so_far.len() as int)
        } else {
            before
        }
    }
}

proof fn lemma_exits_told(
    functions: Seq<FunctionModel>,
    n: nat,
    seen: Seen,
    marks: Seq<Mark>,
    places: Seq<int>,
    f: Followed,
)
    requires
        n <= functions.len(),
        told(marks, places, f),
        after_exits(functions, n, seen.pc, f) is Ok,
    ensures
        told(
            marks + exit_marks(functions.take(n as int), seen),
            places,
            after_exits(functions, n, seen.pc, f)->Ok_0,
        ),
    decreases n,
{
    let p = |g: FunctionModel| g.exit_pc == seen.pc;
    if n == 0 {
        reveal(Seq::filter);
        assert(marks + exit_marks(functions.take(0), seen) =~= marks);
    } else {
        lemma_exits_told(functions, (n - 1) as nat, seen, marks, places, f);
        let g = after_exits(functions, (n - 1) as nat, seen.pc, f)->Ok_0;
        let h = after_exit(functions[n - 1], seen.pc, g)->Ok_0;
        let so_far = marks + exit_marks(functions.take(n - 1), seen);
        let all = marks + exit_marks(functions.take(n as int), seen);
        lemma_filter_step(functions, n, p);
        if functions[n - 1].exit_pc == seen.pc {
            let mark = Mark { seen, event: Event::Leave(functions[n - 1]) };
            lemma_left(so_far, places, g, mark, h);
            assert(all =~= so_far.push(mark));
        }
    }
}

proof fn lemma_step_told(
    contracts: Seq<(ContractAddress, String)>,
    units: Seq<(Seq<char>, UnitModel)>,
    step: CallTraceStep,
    marks: Seq<Mark>,
    places: Seq<int>,
    f: Followed,
) -> (later: Seq<int>)
    requires
        told(marks, places, f),
        after_step(contracts, units, step, f) is Ok,
    ensures
        told(
            marks + step_marks(contracts, units, step),
            later,
            after_step(contracts, units, step, f)->Ok_0,
        ),
{
    match unit_at(contracts, units, step.contract) {
        None => {
            assert(marks + step_marks(contracts, units, step) =~= marks);
            places
        },
        Some(unit) => {
            let seen = Seen {
                pc: step.pc,
                path: unit.path,
                memory: step.memory->Some_0@,
                stack: stack_bytes(step.stack->Some_0@),
            };
            let functions = unit.functions;
            let n = functions.len();
            assert(functions.take(n as int) =~= functions);
            assert(in_contract(unit, seen, f) is Ok);
            let g = after_entries(functions, n, seen, f)->Ok_0;
            let h = after_exits(functions, n, seen.pc, g)->Ok_0;
            let entered = lemma_entries_told(functions, n, seen, marks, places, f);
            let m1 = marks + entry_marks(functions, seen);
            lemma_exits_told(functions, n, seen, m1, entered, g);
            let m2 = m1 + exit_marks(functions, seen);
            let last = after_instruction(unit, seen, h)->Ok_0;
            let all = marks + step_marks(contracts, units, step);
            assert(all =~= m2 + own_mark(unit, seen));
            match location_at(unit, seen.pc) {
                Some((instruction, vars)) => {
                    let mark = Mark { seen, event: Event::At(instruction, vars) };
                    assert(last.steps.drop_last() =~= h.steps);
                    lemma_reached(m2, entered, h, mark, last);
                    assert(all =~= m2.push(mark));
                    entered.push(m2.len() as int)
                },
                None => {
                    assert(all =~= m2);
                    entered
                },
            }
        },
    }
}

proof fn lemma_node_told(
    contracts: Seq<(ContractAddress, String)>,
    units: Seq<(Seq<char>, UnitModel)>,
    steps: Seq<CallTraceStep>,
    i: nat,
    marks: Seq<Mark>,
    places: Seq<int>,
    f: Followed,
) -> (later: Seq<int>)
    requires
        i <= steps.len(),
        told(marks, places, f),
        after_steps(contracts, units, steps, i, f) is Ok,
    ensures
        told(
            marks + node_marks(contracts, units, steps.skip(i as int)),
            later,
            after_steps(contracts, units, steps, i, f)->Ok_0,
        ),
    decreases steps.len() - i,
{
    let rest = steps.skip(i as int);
    let lists = rest.map_values(|s: CallTraceStep| step_marks(contracts, units, s));
    let all = marks + node_marks(contracts, units, rest);
    if i == steps.len() {
        assert(all =~= marks);
        places
    } else {
        let step = steps[i as int];
        let next = lemma_step_told(contracts, units, step, marks, places, f);
        let g = after_step(contracts, units, step, f)->Ok_0;
        let so_far = marks + step_marks(contracts, units, step);
        let later = lemma_node_told(contracts, units, steps, i + 1, so_far, next, g);
        assert(lists.drop_first() =~= steps.skip(i as int + 1).map_values(
            |s: CallTraceStep| step_marks(contracts, units, s),
        ));
        assert(lists.first() == step_marks(contracts, units, step));
        assert(all =~= so_far + node_marks(contracts, units, steps.skip(i as int + 1)));
        later
    }
}

proof fn lemma_arena_told(
    contracts: Seq<(ContractAddress, String)>,
    units: Seq<(Seq<char>, UnitModel)>,
    arena: Seq<DebugNode>,
    i: nat,
    marks: Seq<Mark>,
    places: Seq<int>,
    f: Followed,
) -> (later: Seq<int>)
    requires
        i <= arena.len(),
        told(marks, places, f),
        after_nodes(contracts, units, arena, i, f) is Ok,
    ensures
        told(
            marks + arena_marks(contracts, units, arena.skip(i as int)),
            later,
            after_nodes(contracts, units, arena, i, f)->Ok_0,
        ),
    decreases arena.len() - i,
{
    let rest = arena.skip(i as int);
    let lists = rest.map_values(|n: DebugNode| node_marks(contracts, units, n.steps@));
    let all = marks + arena_marks(contracts, units, rest);
    if i == arena.len() {
        assert(all =~= marks);
        places
    } else {
        let steps = arena[i as int].steps@;
        let next = lemma_node_told(contracts, units, steps, 0, marks, places, f);
        assert(steps.skip(0) =~= steps);
        let g = after_steps(contracts, units, steps, 0, f)->Ok_0;
        let so_far = marks + node_marks(contracts, units, steps);
        let later = lemma_arena_told(contracts, units, arena, i + 1, so_far, next, g);
        assert(lists.drop_first() =~= arena.skip(i as int + 1).map_values(
            |n: DebugNode| node_marks(contracts, units, n.steps@),
        ));
        assert(lists.first() == node_marks(contracts, units, steps));
        assert(all =~= so_far + arena_marks(contracts, units, arena.skip(i as int + 1)));
        later
    }
}

/// A followed run has one step for each function that is entered and for each statement or call that
/// is reached, in order, and each step shows just that. The call trace of a step names exactly the
/// entries before it whose function has not been left yet, outermost first and without the first
/// function of all: each entry opens a call, and each exit closes the call that was opened last, which
/// is one of the same function.
pub proof fn law_call_traces_name_open_calls(
    context: DebuggerContext,
    units: Seq<(Seq<char>, UnitModel)>,
) -> (places: Seq<int>)
    requires
        run_steps(context, units) is Ok,
    ensures
        shown_at(run_marks(context, units), places, run_steps(context, units)->Ok_0),
        forall|s: int|
            0 <= s < run_steps(context, units)->Ok_0.len() ==> names_open(
                run_marks(context, units),
                places,
                places[s],
                (#[trigger] run_steps(context, units)->Ok_0[s]).call_trace,
            ),
        left_in_turn(run_marks(context, units), places),
{
    let contracts = context.contracts.identified_contracts@;
    let arena = context.debug_arena@;
    let none = Seq::<Mark>::empty();
    let start = nothing_followed();
    assert(told(none, Seq::empty(), start)) by {
        assert forall|e: nat| !entries(start.calls).contains(e) by {}
    }
    let places = lemma_arena_told(contracts, units, arena, 0, none, Seq::empty(), start);
    assert(arena.skip(0) =~= arena);
    assert(none + arena_marks(contracts, units, arena) =~= run_marks(context, units));
    places
}

/// Whether a function is to be entered at `p`: at the start, and right behind a call.
pub open spec fn expecting_at(marks: Seq<Mark>, p: int) -> bool {
    p == 0 || (marks[p - 1].event matches Event::At(instruction, _) && instruction.kind
        == InstructionKind::FunctionCall)
}

/// Whether the entry at `x`, other than the first one, is the last one before `p` that is still open.
pub open spec fn last_opened(marks: Seq<Mark>, x: int, p: int) -> bool {
    &&& 0 < x < p
    &&& marks[x].event is Enter
    &&& open_until(marks, x, p)
    &&& depth(marks, x + 1, p) == 0
}

/// Whether what happens at `p` can happen there: a function is entered where one is to be entered and
/// nowhere else, and the function that is left is the one that was entered last.
pub open spec fn in_turn(marks: Seq<Mark>, p: int) -> bool {
    &&& marks[p].event is Enter <==> expecting_at(marks, p)
    &&& marks[p].event is Leave ==> forall|x: int| #[trigger]
        last_opened(marks, x, p) ==> marks[x].event->Enter_0.name == marks[p].event->Leave_0.name
}

/// Whether everything from `a` up to `b` can happen where it does.
pub open spec fn all_in_turn(marks: Seq<Mark>, a: int, b: int) -> bool {
    forall|p: int| a <= p < b ==> #[trigger] in_turn(marks, p)
}

/// Whether what was followed is what the marks say, and awaits a function just where one is to be
/// entered.
spec fn follows(marks: Seq<Mark>, places: Seq<int>, f: Followed) -> bool {
    &&& told(marks, places, f)
    &&& f.expecting_function == expecting_at(marks, marks.len() as int)
    &&& marks.len() > 0 ==> marks[0].event is Enter
}

proof fn lemma_depth_in_prefix(marks: Seq<Mark>, whole: Seq<Mark>, a: int, b: int)
    requires
        marks.is_prefix_of(whole),
        0 <= a,
        b <= marks.len(),
    ensures
        depth(whole, a, b) == depth(marks, a, b),
    decreases b - a,
{
    if b > a {
        lemma_depth_in_prefix(marks, whole, a, b - 1);
        assert(whole[b - 1] == marks[b - 1]);
    }
}

proof fn lemma_open_in_prefix(marks: Seq<Mark>, whole: Seq<Mark>, x: int, p: int)
    requires
        marks.is_prefix_of(whole),
        0 <= x,
        p <= marks.len(),
    ensures
        open_until(whole, x, p) == open_until(marks, x, p),
{
    assert forall|q: int| x < q <= p implies #[trigger] depth(whole, x + 1, q) == depth(
        marks,
        x + 1,
        q,
    ) by {
        lemma_depth_in_prefix(marks, whole, x + 1, q);
    }
    if open_until(whole, x, p) {
        assert forall|q: int| x < q <= p implies #[trigger] depth(marks, x + 1, q) >= 0 by {
            assert(depth(whole, x + 1, q) >= 0);
        }
    }
    if open_until(marks, x, p) {
        assert forall|q: int| x < q <= p implies #[trigger] depth(whole, x + 1, q) >= 0 by {
            assert(depth(marks, x + 1, q) >= 0);
        }
    }
}

/// The call that is open last is the one that was followed last.
proof fn lemma_last_call(whole: Seq<Mark>, marks: Seq<Mark>, places: Seq<int>, f: Followed)
    requires
        marks.is_prefix_of(whole),
        follows(marks, places, f),
    ensures
        f.calls.len() > 0 ==> last_opened(
            whole,
            places[f.calls.last().1 as int],
            marks.len() as int,
        ) && whole[places[f.calls.last().1 as int]].event->Enter_0.name == f.calls.last().0,
        forall|x: int| #[trigger]
            last_opened(whole, x, marks.len() as int) ==> f.calls.len() > 0 && x
                == places[f.calls.last().1 as int],
{
    let n = marks.len() as int;
    let k = f.calls.len() as int;
    if k > 0 {
        let e = f.calls[k - 1].1;
        assert(f.calls.last() == f.calls[k - 1]);
        let x = places[e as int];
        assert(opened(marks, places, e, n));
        assert(places[0] < places[e as int]);
        lemma_depth_in_prefix(marks, whole, x + 1, n);
        lemma_open_in_prefix(marks, whole, x, n);
        assert(whole[x] == marks[x]);
    }
    assert forall|x: int| #[trigger] last_opened(whole, x, n) implies k > 0 && x
        == places[f.calls.last().1 as int] by {
        assert(whole[x] == marks[x]);
        assert(!(marks[x].event is Leave));
        assert(places.contains(x));
        let s = choose|s: int| 0 <= s < places.len() && places[s] == x;
        lemma_depth_in_prefix(marks, whole, x + 1, n);
        lemma_open_in_prefix(marks, whole, x, n);
        assert(!(marks[0].event is Leave));
        assert(places.contains(0));
        let first = choose|t: int| 0 <= t < places.len() && places[t] == 0;
        assert(first == 0 || places[0] < places[first]);
        assert(opened(marks, places, s as nat, n));
        assert(entries(f.calls).contains(s as nat));
        let j = choose|j: int| 0 <= j < entries(f.calls).len() && entries(f.calls)[j] == s as nat;
        assert(f.calls[j].1 == s as nat);
        assert(depth(marks, places[s] + 1, n) == k - 1 - j);
        assert(f.calls.last() == f.calls[k - 1]);
    }
}

proof fn lemma_entries_go(
    functions: Seq<FunctionModel>,
    n: nat,
    seen: Seen,
    whole: Seq<Mark>,
    marks: Seq<Mark>,
    places: Seq<int>,
    f: Followed,
)
    requires
        n <= functions.len(),
        follows(marks, places, f),
        (marks + entry_marks(functions.take(n as int), seen)).is_prefix_of(whole),
    ensures
        ({
            let all = marks + entry_marks(functions.take(n as int), seen);
            let after = after_entries(functions, n, seen, f);
            &&& after is Ok <==> all_in_turn(whole, marks.len() as int, all.len() as int)
            &&& after is Ok ==> after->Ok_0.expecting_function == expecting_at(
                all,
                all.len() as int,
            ) && (all.len() > 0 ==> all[0].event is Enter)
        }),
    decreases n,
{
    let p = |g: FunctionModel| g.entry_pc == seen.pc;
    let all = marks + entry_marks(functions.take(n as int), seen);
    if n == 0 {
        reveal(Seq::filter);
        assert(all =~= marks);
    } else {
        let so_far = marks + entry_marks(functions.take(n - 1), seen);
        lemma_filter_step(functions, n, p);
        let mark = Mark { seen, event: Event::Enter(functions[n - 1]) };
        if functions[n - 1].entry_pc == seen.pc {
            assert(all =~= so_far.push(mark));
        } else {
            assert(all =~= so_far);
        }
        assert(so_far.is_prefix_of(whole)) by {
            assert(so_far =~= whole.subrange(0, so_far.len() as int));
        }
        lemma_entries_go(functions, (n - 1) as nat, seen, whole, marks, places, f);
        let at = so_far.len() as int;
        if functions[n - 1].entry_pc == seen.pc {
            assert(whole[at] == all[at]);
            assert(at > 0 ==> whole[at - 1] == so_far[at - 1]);
            assert(in_turn(whole, at) <==> expecting_at(so_far, at));
            if all_in_turn(whole, marks.len() as int, all.len() as int) {
                assert(in_turn(whole, at));
            } else if all_in_turn(whole, marks.len() as int, at) {
                assert(!in_turn(whole, at));
            }
        }
    }
}

proof fn lemma_exits_go(
    functions: Seq<FunctionModel>,
    n: nat,
    seen: Seen,
    whole: Seq<Mark>,
    marks: Seq<Mark>,
    places: Seq<int>,
    f: Followed,
)
    requires
        n <= functions.len(),
        follows(marks, places, f),
        (marks + exit_marks(functions.take(n as int), seen)).is_prefix_of(whole),
    ensures
        ({
            let all = marks + exit_marks(functions.take(n as int), seen);
            let after = after_exits(functions, n, seen.pc, f);
            &&& after is Ok <==> all_in_turn(whole, marks.len() as int, all.len() as int)
            &&& after is Ok ==> follows(all, places, after->Ok_0)
        }),
    decreases n,
{
    let p = |g: FunctionModel| g.exit_pc == seen.pc;
    let all = marks + exit_marks(functions.take(n as int), seen);
    if n == 0 {
        reveal(Seq::filter);
        assert(all =~= marks);
    } else {
        let so_far = marks + exit_marks(functions.take(n - 1), seen);
        lemma_filter_step(functions, n, p);
        let mark = Mark { seen, event: Event::Leave(functions[n - 1]) };
        if functions[n - 1].exit_pc == seen.pc {
            assert(all =~= so_far.push(mark));
        } else {
            assert(all =~= so_far);
        }
        assert(so_far.is_prefix_of(whole)) by {
            assert(so_far =~= whole.subrange(0, so_far.len() as int));
        }
        lemma_exits_go(functions, (n - 1) as nat, seen, whole, marks, places, f);
        let at = so_far.len() as int;
        let before = after_exits(functions, (n - 1) as nat, seen.pc, f);
        let after = after_exits(functions, n, seen.pc, f);
        if functions[n - 1].exit_pc == seen.pc {
            assert(whole[at] == all[at]);
            assert(at > 0 ==> whole[at - 1] == so_far[at - 1]);
            if before is Ok {
                lemma_last_call(whole, so_far, places, before->Ok_0);
                assert(after is Ok <==> in_turn(whole, at));
            }
            if all_in_turn(whole, marks.len() as int, all.len() as int) {
                assert(in_turn(whole, at));
                assert(all_in_turn(whole, marks.len() as int, at));
            } else if all_in_turn(whole, marks.len() as int, at) {
                assert(!in_turn(whole, at));
            }
        }
        if after is Ok {
            lemma_exits_told(functions, n, seen, marks, places, f);
        }
    }
}

proof fn lemma_step_goes(
    contracts: Seq<(ContractAddress, String)>,
    units: Seq<(Seq<char>, UnitModel)>,
    step: CallTraceStep,
    whole: Seq<Mark>,
    marks: Seq<Mark>,
    places: Seq<int>,
    f: Followed,
) -> (later: Seq<int>)
    requires
        follows(marks, places, f),
        (marks + step_marks(contracts, units, step)).is_prefix_of(whole),
    ensures
        ({
            let all = marks + step_marks(contracts, units, step);
            let after = after_step(contracts, units, step, f);
            &&& after is Ok <==> step.memory is Some && step.stack is Some && all_in_turn(
                whole,
                marks.len() as int,
                all.len() as int,
            )
            &&& after is Ok ==> follows(all, later, after->Ok_0)
        }),
{
    let all = marks + step_marks(contracts, units, step);
    if step.memory is None || step.stack is None {
        places
    } else {
        match unit_at(contracts, units, step.contract) {
            None => {
                assert(all =~= marks);
                places
            },
            Some(unit) => {
                let seen = Seen {
                    pc: step.pc,
                    path: unit.path,
                    memory: step.memory->Some_0@,
                    stack: stack_bytes(step.stack->Some_0@),
                };
                let functions = unit.functions;
                let n = functions.len();
                assert(functions.take(n as int) =~= functions);
                let m1 = marks + entry_marks(functions, seen);
                let m2 = m1 + exit_marks(functions, seen);
                assert(all =~= m2 + own_mark(unit, seen));
                assert(m2.is_prefix_of(whole)) by {
                    assert(m2 =~= whole.subrange(0, m2.len() as int));
                }
                assert(m1.is_prefix_of(whole)) by {
                    assert(m1 =~= whole.subrange(0, m1.len() as int));
                }
                let (a, b, c) = (marks.len() as int, m1.len() as int, m2.len() as int);
                lemma_entries_go(functions, n, seen, whole, marks, places, f);
                let entering = after_entries(functions, n, seen, f);
                if entering is Err {
                    assert(!all_in_turn(whole, a, b));
                    places
                } else {
                    let g = entering->Ok_0;
                    let entered = lemma_entries_told(functions, n, seen, marks, places, f);
                    assert(follows(m1, entered, g));
                    lemma_exits_go(functions, n, seen, whole, m1, entered, g);
                    let leaving = after_exits(functions, n, seen.pc, g);
                    if leaving is Err {
                        assert(!all_in_turn(whole, b, c));
                        places
                    } else {
                        let h = leaving->Ok_0;
                        match location_at(unit, seen.pc) {
                            None => {
                                assert(all =~= m2);
                                entered
                            },
                            Some((instruction, vars)) => {
                                let mark = Mark { seen, event: Event::At(instruction, vars) };
                                assert(all =~= m2.push(mark));
                                assert(whole[c] == all[c]);
                                assert(c > 0 ==> whole[c - 1] == m2[c - 1]);
                                assert(in_turn(whole, c) <==> !expecting_at(m2, c));
                                if h.expecting_function {
                                    assert(!in_turn(whole, c));
                                    places
                                } else {
                                    let last = after_instruction(unit, seen, h)->Ok_0;
                                    assert(last.steps.drop_last() =~= h.steps);
                                    lemma_reached(m2, entered, h, mark, last);
                                    entered.push(c)
                                }
                            },
                        }
                    }
                }
            },
        }
    }
}

/// Whether each instruction was recorded with its memory and its stack.
pub open spec fn recorded(steps: Seq<CallTraceStep>) -> bool {
    forall|i: int|
        0 <= i < steps.len() ==> (#[trigger] steps[i]).memory is Some && steps[i].stack is Some
}

proof fn lemma_node_goes(
    contracts: Seq<(ContractAddress, String)>,
    units: Seq<(Seq<char>, UnitModel)>,
    steps: Seq<CallTraceStep>,
    i: nat,
    whole: Seq<Mark>,
    marks: Seq<Mark>,
    places: Seq<int>,
    f: Followed,
) -> (later: Seq<int>)
    requires
        i <= steps.len(),
        follows(marks, places, f),
        (marks + node_marks(contracts, units, steps.skip(i as int))).is_prefix_of(whole),
    ensures
        ({
            let all = marks + node_marks(contracts, units, steps.skip(i as int));
            let after = after_steps(contracts, units, steps, i, f);
            &&& after is Ok <==> recorded(steps.skip(i as int)) && all_in_turn(
                whole,
                marks.len() as int,
                all.len() as int,
            )
            &&& after is Ok ==> follows(all, later, after->Ok_0)
        }),
    decreases steps.len() - i,
{
    let rest = steps.skip(i as int);
    let lists = rest.map_values(|s: CallTraceStep| step_marks(contracts, units, s));
    let all = marks + node_marks(contracts, units, rest);
    if i == steps.len() {
        assert(all =~= marks);
        places
    } else {
        let step = steps[i as int];
        let so_far = marks + step_marks(contracts, units, step);
        let tail = steps.skip(i as int + 1);
        assert(lists.drop_first() =~= tail.map_values(
            |s: CallTraceStep| step_marks(contracts, units, s),
        ));
        assert(lists.first() == step_marks(contracts, units, step));
        assert(all =~= so_far + node_marks(contracts, units, tail));
        assert(so_far.is_prefix_of(whole)) by {
            assert(so_far =~= whole.subrange(0, so_far.len() as int));
        }
        let next = lemma_step_goes(contracts, units, step, whole, marks, places, f);
        assert(rest[0] == step);
        assert forall|k: int| 0 <= k < tail.len() implies #[trigger] tail[k] == rest[k + 1] by {}
        assert(recorded(rest) <==> step.memory is Some && step.stack is Some && recorded(tail)) by {
            if step.memory is Some && step.stack is Some && recorded(tail) {
                assert forall|k: int| 0 <= k < rest.len() implies (
                #[trigger] rest[k]).memory is Some && rest[k].stack is Some by {
                    if k > 0 {
                        assert(tail[k - 1] == rest[k]);
                    }
                }
            }
            if recorded(rest) {
                assert forall|k: int| 0 <= k < tail.len() implies (
                #[trigger] tail[k]).memory is Some && tail[k].stack is Some by {
                    assert(rest[k + 1] == tail[k]);
                }
            }
        }
        if after_step(contracts, units, step, f) is Ok {
            let g = after_step(contracts, units, step, f)->Ok_0;
            lemma_node_goes(contracts, units, steps, i + 1, whole, so_far, next, g)
        } else {
            assert(all_in_turn(whole, marks.len() as int, all.len() as int) ==> all_in_turn(
                whole,
                marks.len() as int,
                so_far.len() as int,
            ));
            places
        }
    }
}

/// Whether each instruction of each call was recorded with its memory and its stack.
pub open spec fn all_recorded(arena: Seq<DebugNode>) -> bool {
    forall|i: int| 0 <= i < arena.len() ==> recorded((#[trigger] arena[i]).steps@)
}

proof fn lemma_arena_goes(
    contracts: Seq<(ContractAddress, String)>,
    units: Seq<(Seq<char>, UnitModel)>,
    arena: Seq<DebugNode>,
    i: nat,
    whole: Seq<Mark>,
    marks: Seq<Mark>,
    places: Seq<int>,
    f: Followed,
) -> (later: Seq<int>)
    requires
        i <= arena.len(),
        follows(marks, places, f),
        (marks + arena_marks(contracts, units, arena.skip(i as int))).is_prefix_of(whole),
    ensures
        ({
            let all = marks + arena_marks(contracts, units, arena.skip(i as int));
            let after = after_nodes(contracts, units, arena, i, f);
            &&& after is Ok <==> all_recorded(arena.skip(i as int)) && all_in_turn(
                whole,
                marks.len() as int,
                all.len() as int,
            )
            &&& after is Ok ==> follows(all, later, after->Ok_0)
        }),
    decreases arena.len() - i,
{
    let rest = arena.skip(i as int);
    let lists = rest.map_values(|n: DebugNode| node_marks(contracts, units, n.steps@));
    let all = marks + arena_marks(contracts, units, rest);
    if i == arena.len() {
        assert(all =~= marks);
        places
    } else {
        let steps = arena[i as int].steps@;
        let so_far = marks + node_marks(contracts, units, steps);
        let tail = arena.skip(i as int + 1);
        assert(lists.drop_first() =~= tail.map_values(
            |n: DebugNode| node_marks(contracts, units, n.steps@),
        ));
        assert(lists.first() == node_marks(contracts, units, steps));
        assert(all =~= so_far + arena_marks(contracts, units, tail));
        assert(so_far.is_prefix_of(whole)) by {
            assert(so_far =~= whole.subrange(0, so_far.len() as int));
        }
        assert(steps.skip(0) =~= steps);
        let next = lemma_node_goes(contracts, units, steps, 0, whole, marks, places, f);
        assert(rest[0] == arena[i as int]);
        assert(all_recorded(rest) <==> recorded(steps) && all_recorded(tail)) by {
            if recorded(steps) && all_recorded(tail) {
                assert forall|k: int| 0 <= k < rest.len() implies recorded(
                    (#[trigger] rest[k]).steps@,
                ) by {
                    if k > 0 {
                        assert(tail[k - 1] == rest[k]);
                    }
                }
            }
            if all_recorded(rest) {
                assert forall|k: int| 0 <= k < tail.len() implies recorded(
                    (#[trigger] tail[k]).steps@,
                ) by {
                    assert(rest[k + 1] == tail[k]);
                }
            }
        }
        if after_steps(contracts, units, steps, 0, f) is Ok {
            let g = after_steps(contracts, units, steps, 0, f)->Ok_0;
            lemma_arena_goes(contracts, units, arena, i + 1, whole, so_far, next, g)
        } else {
            assert(all_in_turn(whole, marks.len() as int, all.len() as int) ==> all_in_turn(
                whole,
                marks.len() as int,
                so_far.len() as int,
            ));
            places
        }
    }
}

/// Whether no call is open where the last statement is reached or the last function is entered.
pub open spec fn ends_outside(marks: Seq<Mark>) -> bool {
    forall|p: int, x: int|
        #![trigger marks[p], marks[x]]
        0 < x < p < marks.len() && !(marks[p].event is Leave) && marks[x].event is Enter && (
        forall|q: int| p < q < marks.len() ==> (#[trigger] marks[q]).event is Leave) ==> !open_until(
            marks,
            x,
            p,
        )
}

/// A run can be followed exactly if its instructions were recorded with memory and stack, if it does
/// anything at all, if functions are entered behind calls and nowhere else and left in turn, and if
/// no call is open at its last step.
pub proof fn law_runs_in_turn_are_followed(
    context: DebuggerContext,
    units: Seq<(Seq<char>, UnitModel)>,
)
    ensures
        run_steps(context, units) is Ok <==> {
            let marks = run_marks(context, units);
            &&& all_recorded(context.debug_arena@)
            &&& marks.len() > 0
            &&& all_in_turn(marks, 0, marks.len() as int)
            &&& ends_outside(marks)
        },
{
    let contracts = context.contracts.identified_contracts@;
    let arena = context.debug_arena@;
    let none = Seq::<Mark>::empty();
    let start = nothing_followed();
    let marks = run_marks(context, units);
    assert(told(none, Seq::empty(), start)) by {
        assert forall|e: nat| !entries(start.calls).contains(e) by {}
    }
    assert(arena.skip(0) =~= arena);
    assert(none + arena_marks(contracts, units, arena) =~= marks);
    assert(marks.is_prefix_of(marks)) by {
        assert(marks =~= marks.subrange(0, marks.len() as int));
    }
    let places = lemma_arena_goes(contracts, units, arena, 0, marks, none, Seq::empty(), start);
    let followed = after_nodes(contracts, units, arena, 0, start);
    if followed is Ok {
        let f = followed->Ok_0;
        if marks.len() == 0 {
            if f.steps.len() > 0 {
                assert(0 <= places[0] < marks.len());
            }
        } else {
            assert(!(marks[0].event is Leave));
            assert(places.contains(0));
            let first = choose|t: int| 0 <= t < places.len() && places[t] == 0;
            assert(first == 0 || places[0] < places[first]);
            let last = f.steps.len() - 1;
            let p = places[last];
            let trace = f.steps[last].call_trace;
            assert(f.steps.last() == f.steps[last]);
            assert(names_open(marks, places, p, trace));
            assert forall|q: int| p < q < marks.len() implies (
            #[trigger] marks[q]).event is Leave by {
                if !(marks[q].event is Leave) {
                    assert(places.contains(q));
                    let t = choose|t: int| 0 <= t < places.len() && places[t] == q;
                    assert(t == last || places[t] < places[last]);
                }
            }
            if trace.len() > 0 {
                let e = trace[0];
                assert(trace.contains(e));
                assert(opened(marks, places, e, p));
                let x = places[e as int];
                assert(places[0] < places[e as int]);
                assert(shows(marks[p], f.steps[last]));
                assert(!ends_outside(marks));
            } else {
                assert forall|q: int, x: int|
                    #![trigger marks[q], marks[x]]
                    0 < x < q < marks.len() && !(marks[q].event is Leave) && marks[x].event is Enter
                        && (forall|r: int|
                        q < r < marks.len() ==> (#[trigger] marks[r]).event is Leave) implies !open_until(
                    marks,
                    x,
                    q,
                ) by {
                    assert(shows(marks[p], f.steps[last]));
                    assert(p == q) by {
                        if p > q {
                            assert(marks[p].event is Leave);
                        } else if p < q {
                            assert(marks[q].event is Leave);
                        }
                    }
                    assert(!(marks[x].event is Leave));
                    assert(places.contains(x));
                    let t = choose|t: int| 0 <= t < places.len() && places[t] == x;
                    if open_until(marks, x, q) {
                        assert(opened(marks, places, t as nat, p));
                        assert(trace.contains(t as nat));
                    }
                }
            }
        }
    }
}

/// The stack of a step has one frame for each open call, where its function was entered, and behind
/// them one for the step itself.
pub proof fn law_stack_shows_open_calls(steps: Seq<StepModel>, i: nat)
    requires
        i < steps.len(),
    ensures
        stack_of(steps, i).len() == steps[i as int].call_trace.len() + 1,
        forall|k: int|
            0 <= k < steps[i as int].call_trace.len() ==> (#[trigger] stack_of(steps, i)[k]) == (
            FrameModel {
                path: steps[steps[i as int].call_trace[k] as int].path,
                location: steps[steps[i as int].call_trace[k] as int].location,
            }),
        stack_of(steps, i).last() == (FrameModel {
            path: steps[i as int].path,
            location: steps[i as int].location,
        }),
{
    lemma_frames(steps, steps[i as int].call_trace, steps[i as int].call_trace.len());
}

proof fn lemma_frames(steps: Seq<StepModel>, at: Seq<nat>, n: nat)
    requires
        n <= at.len(),
    ensures
        frames_at(steps, at, n).len() == n,
        forall|k: int|
            0 <= k < n ==> #[trigger] frames_at(steps, at, n)[k] == frame_of(steps[at[k] as int]),
    decreases n,
{
    if n > 0 {
        lemma_frames(steps, at, (n - 1) as nat);
    }
}

} // verus!

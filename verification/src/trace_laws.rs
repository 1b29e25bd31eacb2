//! What holds of every trace.

use vstd::prelude::*;

use crate::closed_units::{unit_sound, units_sound};
use crate::debug_info::{
    law_scope_is_listed, listed, location_at, FunctionModel, UnitModel, VariableModel,
};
use crate::trace::{
    address_place, after_entries, after_entry, after_exit, after_exits, after_instruction,
    after_nodes, after_step, after_steps, definitions, entries, next_stop, nothing_followed,
    previous_stop, run_steps, stack_bytes, stoppable, unit_at, unit_variables, with_variables,
    CallTraceStep, ContractAddress, DebugNode, DebugTrace, DebuggerContext, Followed, Seen, StepModel, TraceError,
};
use crate::units::{lemma_place, place_of};

verus! {

/// Every step names, in its call trace, earlier steps at which a function was entered.
pub open spec fn traces_point_back(steps: Seq<StepModel>) -> bool {
    forall|s: int, k: int|
        0 <= s < steps.len() && 0 <= k < steps[s].call_trace.len() ==> {
            &&& #[trigger] steps[s].call_trace[k] < s
            &&& steps[steps[s].call_trace[k] as int].kind is FunctionDefinition
        }
}

/// Every variable in scope at a step is known.
pub open spec fn scopes_known(steps: Seq<StepModel>, table: Map<u64, VariableModel>) -> bool {
    forall|s: int, k: int|
        0 <= s < steps.len() && 0 <= k < steps[s].variables_in_scope.len()
            ==> table.dom().contains(#[trigger] steps[s].variables_in_scope[k] as u64)
}

/// The call trace of every step goes from the outermost call inwards: the steps that it names follow
/// one another, and the first step of all is not among them.
pub open spec fn traces_increase(steps: Seq<StepModel>) -> bool {
    forall|s: int| 0 <= s < steps.len() ==> increases((#[trigger] steps[s]).call_trace)
}

/// The numbers are positive, and each is larger than those before it.
pub open spec fn increases(numbers: Seq<nat>) -> bool {
    &&& forall|k: int| 0 <= k < numbers.len() ==> #[trigger] numbers[k] > 0
    &&& forall|j: int, k: int|
        0 <= j < k < numbers.len() ==> #[trigger] numbers[j] < #[trigger] numbers[k]
}

/// The first step enters a function, and another step does so exactly where the step before it is a
/// call.
pub open spec fn entered_by_calls(steps: Seq<StepModel>) -> bool {
    &&& steps.len() > 0 ==> steps[0].kind is FunctionDefinition
    &&& forall|i: int, j: int|
        0 <= i && j == i + 1 && j < steps.len() ==> ((#[trigger] steps[j]).kind is FunctionDefinition
            <==> (#[trigger] steps[i]).kind is FunctionCall)
}

spec fn calls_entered(f: Followed) -> bool {
    forall|k: int|
        0 <= k < f.calls.len() ==> {
            &&& (#[trigger] f.calls[k]).1 < f.steps.len()
            &&& f.steps[f.calls[k].1 as int].kind is FunctionDefinition
        }
}

/// A function is expected at the start and behind a call.
spec fn expects_rightly(f: Followed) -> bool {
    f.expecting_function == (f.steps.len() == 0 || f.steps.last().kind is FunctionCall)
}

spec fn followed_well(f: Followed, table: Map<u64, VariableModel>) -> bool {
    &&& traces_point_back(f.steps)
    &&& traces_increase(f.steps)
    &&& entered_by_calls(f.steps)
    &&& scopes_known(f.steps, table)
    &&& calls_entered(f)
    &&& increases(entries(f.calls))
    &&& expects_rightly(f)
}

spec fn well(r: Result<Followed, TraceError>, table: Map<u64, VariableModel>) -> bool {
    match r {
        Ok(f) => followed_well(f, table),
        Err(_) => true,
    }
}

proof fn lemma_push_well(f: Followed, step: StepModel, table: Map<u64, VariableModel>)
    requires
        followed_well(f, table),
        step.call_trace == entries(f.calls),
        step.kind is FunctionDefinition <==> f.expecting_function,
        forall|k: int|
            0 <= k < step.variables_in_scope.len() ==> table.dom().contains(
                #[trigger] step.variables_in_scope[k] as u64,
            ),
    ensures
        followed_well(
            Followed {
                steps: f.steps.push(step),
                expecting_function: step.kind is FunctionCall,
                ..f
            },
            table,
        ),
{
    let steps = f.steps.push(step);
    assert forall|i: int, j: int| 0 <= i && j == i + 1 && j < steps.len() implies ((
    #[trigger] steps[j]).kind is FunctionDefinition <==> (
    #[trigger] steps[i]).kind is FunctionCall) by {
        if j < f.steps.len() {
            assert(f.steps[j].kind is FunctionDefinition <==> f.steps[i].kind is FunctionCall);
        }
    }
    assert forall|s: int, k: int|
        0 <= s < steps.len() && 0 <= k < steps[s].call_trace.len() implies {
        &&& #[trigger] steps[s].call_trace[k] < s
        &&& steps[steps[s].call_trace[k] as int].kind is FunctionDefinition
    } by {
        if s < f.steps.len() {
            assert(f.steps[s].call_trace[k] < s);
        } else {
            assert(step.call_trace[k] == f.calls[k].1);
        }
    }
    assert forall|s: int, k: int|
        0 <= s < steps.len() && 0 <= k < steps[s].variables_in_scope.len()
            implies table.dom().contains(#[trigger] steps[s].variables_in_scope[k] as u64) by {
        if s < f.steps.len() {
            assert(table.dom().contains(f.steps[s].variables_in_scope[k] as u64));
        } else {
            assert(table.dom().contains(step.variables_in_scope[k] as u64));
        }
    }
    assert forall|k: int| 0 <= k < f.calls.len() implies {
        &&& (#[trigger] f.calls[k]).1 < steps.len()
        &&& steps[f.calls[k].1 as int].kind is FunctionDefinition
    } by {
        assert(f.calls[k].1 < f.steps.len());
    }
}

proof fn lemma_entries_well(
    functions: Seq<FunctionModel>,
    n: nat,
    seen: Seen,
    f: Followed,
    table: Map<u64, VariableModel>,
)
    requires
        followed_well(f, table),
    ensures
        well(after_entries(functions, n, seen, f), table),
    decreases n,
{
    if n > 0 && n <= functions.len() {
        lemma_entries_well(functions, (n - 1) as nat, seen, f, table);
        if let Ok(g) = after_entries(functions, (n - 1) as nat, seen, f) {
            if let Ok(h) = after_entry(functions[n - 1], seen, g) {
                if functions[n - 1].entry_pc == seen.pc {
                    let step = h.steps.last();
                    assert(h.steps == g.steps.push(step));
                    lemma_push_well(g, step, table);
                    let pushed = Followed {
                        steps: g.steps.push(step),
                        expecting_function: false,
                        ..g
                    };
                    let numbers = entries(h.calls);
                    assert forall|k: int| 0 <= k < numbers.len() implies #[trigger] numbers[k]
                        > 0 by {
                        if k < g.calls.len() {
                            assert(entries(g.calls)[k] > 0);
                        }
                    }
                    assert forall|j: int, k: int| 0 <= j < k < numbers.len() implies
                        #[trigger] numbers[j] < #[trigger] numbers[k] by {
                        if k < g.calls.len() {
                            assert(entries(g.calls)[j] < entries(g.calls)[k]);
                        } else {
                            assert(g.calls[j].1 < g.steps.len());
                        }
                    }
                    assert forall|k: int| 0 <= k < h.calls.len() implies {
                        &&& (#[trigger] h.calls[k]).1 < h.steps.len()
                        &&& h.steps[h.calls[k].1 as int].kind is FunctionDefinition
                    } by {
                        if k < g.calls.len() {
                            assert(pushed.calls[k].1 < pushed.steps.len());
                        }
                    }
                }
            }
        }
    }
}

proof fn lemma_exits_well(
    functions: Seq<FunctionModel>,
    n: nat,
    pc: usize,
    f: Followed,
    table: Map<u64, VariableModel>,
)
    requires
        followed_well(f, table),
    ensures
        well(after_exits(functions, n, pc, f), table),
    decreases n,
{
    if n > 0 && n <= functions.len() {
        lemma_exits_well(functions, (n - 1) as nat, pc, f, table);
        if let Ok(g) = after_exits(functions, (n - 1) as nat, pc, f) {
            if let Ok(h) = after_exit(functions[n - 1], pc, g) {
                assert forall|k: int| 0 <= k < h.calls.len() implies #[trigger] entries(h.calls)[k]
                    == entries(g.calls)[k] by {
                    assert(h.calls[k] == g.calls[k]);
                }
                assert forall|k: int| 0 <= k < h.calls.len() implies {
                    &&& (#[trigger] h.calls[k]).1 < h.steps.len()
                    &&& h.steps[h.calls[k].1 as int].kind is FunctionDefinition
                } by {
                    assert(h.calls[k] == g.calls[k]);
                }
            }
        }
    }
}

/// The variables of a contract are in the table.
spec fn in_table(vars: Seq<VariableModel>, table: Map<u64, VariableModel>) -> bool {
    forall|k: int| 0 <= k < vars.len() ==> table.dom().contains((#[trigger] vars[k]).id)
}

spec fn scopes_in_table(unit: UnitModel, table: Map<u64, VariableModel>) -> bool {
    forall|pc: usize|
        (#[trigger] location_at(unit, pc)) is Some ==> forall|k: int|
            0 <= k < location_at(unit, pc)->Some_0.1.len() ==> table.dom().contains(
                #[trigger] location_at(unit, pc)->Some_0.1[k] as u64,
            )
}

proof fn lemma_scopes_in_table(unit: UnitModel, table: Map<u64, VariableModel>)
    requires
        unit_sound(unit),
        in_table(unit.variables, table),
    ensures
        scopes_in_table(unit, table),
{
    assert forall|pc: usize| (#[trigger] location_at(unit, pc)) is Some implies forall|k: int|
        0 <= k < location_at(unit, pc)->Some_0.1.len() ==> table.dom().contains(
            #[trigger] location_at(unit, pc)->Some_0.1[k] as u64,
        ) by {
        law_scope_is_listed(unit, pc);
        let ids = location_at(unit, pc)->Some_0.1;
        assert forall|k: int| 0 <= k < ids.len() implies table.dom().contains(
            #[trigger] ids[k] as u64,
        ) by {
            assert(listed(unit.variables, ids[k]));
            let j = choose|j: int|
                0 <= j < unit.variables.len() && (#[trigger] unit.variables[j]).id == ids[k] as u64;
            assert(table.dom().contains(unit.variables[j].id));
        }
    }
}

/// Every contract sees only variables of the table.
spec fn all_in_table(units: Seq<(Seq<char>, UnitModel)>, table: Map<u64, VariableModel>) -> bool {
    forall|i: int| 0 <= i < units.len() ==> scopes_in_table((#[trigger] units[i]).1, table)
}

proof fn lemma_step_well(
    contracts: Seq<(ContractAddress, String)>,
    units: Seq<(Seq<char>, UnitModel)>,
    step: CallTraceStep,
    f: Followed,
    table: Map<u64, VariableModel>,
)
    requires
        followed_well(f, table),
        all_in_table(units, table),
    ensures
        well(after_step(contracts, units, step, f), table),
{
    if let (Some(memory), Some(stack)) = (step.memory, step.stack) {
        if let Some(unit) = unit_at(contracts, units, step.contract) {
            let seen = Seen {
                pc: step.pc,
                path: unit.path,
                memory: memory@,
                stack: stack_bytes(stack@),
            };
            let at = address_place(contracts, step.contract, 0)->Some_0;
            let name = contracts[at as int].1@;
            lemma_place(units, name, 0);
            assert(scopes_in_table(units[place_of(units, name, 0)->Some_0 as int].1, table));
            lemma_entries_well(unit.functions, unit.functions.len(), seen, f, table);
            if let Ok(g) = after_entries(unit.functions, unit.functions.len(), seen, f) {
                lemma_exits_well(unit.functions, unit.functions.len(), seen.pc, g, table);
                if let Ok(h) = after_exits(unit.functions, unit.functions.len(), seen.pc, g) {
                    if let Ok(last) = after_instruction(unit, seen, h) {
                        if let Some((inst, vars)) = location_at(unit, seen.pc) {
                            let added = last.steps.last();
                            assert(last.steps == h.steps.push(added));
                            lemma_push_well(h, added, table);
                        }
                    }
                }
            }
        }
    }
}

proof fn lemma_steps_well(
    contracts: Seq<(ContractAddress, String)>,
    units: Seq<(Seq<char>, UnitModel)>,
    steps: Seq<CallTraceStep>,
    i: nat,
    f: Followed,
    table: Map<u64, VariableModel>,
)
    requires
        followed_well(f, table),
        all_in_table(units, table),
    ensures
        well(after_steps(contracts, units, steps, i, f), table),
    decreases (if i < steps.len() { steps.len() - i } else { 0 }),
{
    if i < steps.len() {
        lemma_step_well(contracts, units, steps[i as int], f, table);
        if let Ok(g) = after_step(contracts, units, steps[i as int], f) {
            lemma_steps_well(contracts, units, steps, i + 1, g, table);
        }
    }
}

proof fn lemma_nodes_well(
    contracts: Seq<(ContractAddress, String)>,
    units: Seq<(Seq<char>, UnitModel)>,
    arena: Seq<DebugNode>,
    i: nat,
    f: Followed,
    table: Map<u64, VariableModel>,
)
    requires
        followed_well(f, table),
        all_in_table(units, table),
    ensures
        well(after_nodes(contracts, units, arena, i, f), table),
    decreases (if i < arena.len() { arena.len() - i } else { 0 }),
{
    if i < arena.len() {
        lemma_steps_well(contracts, units, arena[i as int].steps@, 0, f, table);
        if let Ok(g) = after_steps(contracts, units, arena[i as int].steps@, 0, f) {
            lemma_nodes_well(contracts, units, arena, i + 1, g, table);
        }
    }
}

proof fn lemma_with_variables(done: Map<u64, VariableModel>, vars: Seq<VariableModel>, n: nat)
    requires
        n <= vars.len(),
    ensures
        forall|id: u64|
            done.dom().contains(id) ==> #[trigger] with_variables(done, vars, n).dom().contains(id),
        forall|k: int|
            0 <= k < n ==> with_variables(done, vars, n).dom().contains((#[trigger] vars[k]).id),
    decreases n,
{
    if n > 0 {
        lemma_with_variables(done, vars, (n - 1) as nat);
        let before = with_variables(done, vars, (n - 1) as nat);
        assert forall|id: u64| done.dom().contains(id) implies #[trigger] with_variables(
            done,
            vars,
            n,
        ).dom().contains(id) by {
            assert(before.dom().contains(id));
        }
    }
}

proof fn lemma_unit_variables(units: Seq<(Seq<char>, UnitModel)>, n: nat)
    requires
        n <= units.len(),
    ensures
        forall|i: int|
            0 <= i < n ==> in_table((#[trigger] units[i]).1.variables, unit_variables(units, n)),
    decreases n,
{
    if n > 0 {
        lemma_unit_variables(units, (n - 1) as nat);
        let before = unit_variables(units, (n - 1) as nat);
        let vars = units[n - 1].1.variables;
        lemma_with_variables(before, vars, vars.len());
        assert forall|i: int| 0 <= i < n implies in_table(
            (#[trigger] units[i]).1.variables,
            unit_variables(units, n),
        ) by {
            if i < n - 1 {
                assert(in_table(units[i].1.variables, before));
            }
        }
    }
}

/// In every trace, the first step enters a function, and from then on a function is entered exactly
/// after a call. The call trace of a step names earlier steps at which a function was entered, from
/// the outermost call inwards and without the first step; the last step is outside of all calls.
/// Where the debug information of the contracts lists its variables, each variable in scope at a
/// step is known.
pub proof fn law_traces_are_sound(context: DebuggerContext, units: Seq<(Seq<char>, UnitModel)>)
    requires
        run_steps(context, units) is Ok,
    ensures
        entered_by_calls(run_steps(context, units)->Ok_0),
        traces_point_back(run_steps(context, units)->Ok_0),
        traces_increase(run_steps(context, units)->Ok_0),
        run_steps(context, units)->Ok_0.len() > 0,
        run_steps(context, units)->Ok_0.last().call_trace.len() == 0,
        units_sound(units) ==> scopes_known(
            run_steps(context, units)->Ok_0,
            unit_variables(units, units.len()),
        ),
{
    let contracts = context.contracts.identified_contracts@;
    let arena = context.debug_arena@;
    let table = unit_variables(units, units.len());
    if units_sound(units) {
        lemma_unit_variables(units, units.len());
        assert forall|i: int| 0 <= i < units.len() implies scopes_in_table(
            (#[trigger] units[i]).1,
            table,
        ) by {
            assert(unit_sound(units[i].1));
            lemma_scopes_in_table(units[i].1, table);
        }
        assert(followed_well(nothing_followed(), table));
        lemma_nodes_well(contracts, units, arena, 0, nothing_followed(), table);
    }
    // whatever is in scope, a table of all identifiers knows it
    let all = Map::<u64, VariableModel>::new(|id: u64| true, |id: u64| arbitrary());
    assert(followed_well(nothing_followed(), all));
    assert(all_in_table(units, all));
    lemma_nodes_well(contracts, units, arena, 0, nothing_followed(), all);
}

/// A step forward from a step at which execution can stop is undone by a step back.
pub proof fn law_back_undoes_forward(steps: Seq<StepModel>, i: nat)
    requires
        i < steps.len(),
        stoppable(steps[i as int]),
        next_stop(steps, i).1,
    ensures
        previous_stop(steps, next_stop(steps, i).0) == (i, true),
{
    lemma_next_stop(steps, i);
    lemma_skips_back(steps, i, next_stop(steps, i).0);
}

/// A step back from a step at which execution can stop is undone by a step forward.
pub proof fn law_forward_undoes_back(steps: Seq<StepModel>, i: nat)
    requires
        i < steps.len(),
        stoppable(steps[i as int]),
        previous_stop(steps, i).1,
    ensures
        next_stop(steps, previous_stop(steps, i).0) == (i, true),
{
    lemma_previous_stop(steps, i);
    lemma_skips_forward(steps, previous_stop(steps, i).0, i);
}

/// Stepping never stops at the entry of a function, passes over nothing else, and stays inside of
/// the trace.
pub proof fn law_stops(steps: Seq<StepModel>, i: nat)
    requires
        i < steps.len(),
    ensures
        ({
            let (j, found) = next_stop(steps, i);
            &&& i <= j < steps.len()
            &&& found ==> i < j && stoppable(steps[j as int])
            &&& !found ==> j == steps.len() - 1
            &&& forall|k: int| i < k < j || (i < k == j && !found) ==> !stoppable(#[trigger] steps[k])
        }),
        ({
            let (j, found) = previous_stop(steps, i);
            &&& 0 <= j <= i
            &&& found ==> j < i && stoppable(steps[j as int])
            &&& !found ==> j == 0
            &&& forall|k: int| j < k < i || (k == j < i && !found) ==> !stoppable(#[trigger] steps[k])
        }),
{
    lemma_next_stop(steps, i);
    lemma_previous_stop(steps, i);
}

proof fn lemma_next_stop(steps: Seq<StepModel>, i: nat)
    requires
        i < steps.len(),
    ensures
        ({
            let (j, found) = next_stop(steps, i);
            &&& i <= j < steps.len()
            &&& found ==> i < j && stoppable(steps[j as int])
            &&& !found ==> j == steps.len() - 1
            &&& forall|k: int| i < k < j || (i < k == j && !found) ==> !stoppable(#[trigger] steps[k])
        }),
    decreases steps.len() - i,
{
    if i + 1 < steps.len() && !stoppable(steps[i as int + 1]) {
        lemma_next_stop(steps, i + 1);
    }
}

proof fn lemma_previous_stop(steps: Seq<StepModel>, i: nat)
    requires
        i < steps.len(),
    ensures
        ({
            let (j, found) = previous_stop(steps, i);
            &&& 0 <= j <= i
            &&& found ==> j < i && stoppable(steps[j as int])
            &&& !found ==> j == 0
            &&& forall|k: int| j < k < i || (k == j < i && !found) ==> !stoppable(#[trigger] steps[k])
        }),
    decreases i,
{
    if i > 0 && !stoppable(steps[i - 1]) {
        lemma_previous_stop(steps, (i - 1) as nat);
    }
}

proof fn lemma_skips_back(steps: Seq<StepModel>, i: nat, j: nat)
    requires
        i < j < steps.len(),
        stoppable(steps[i as int]),
        forall|k: int| i < k < j ==> !stoppable(#[trigger] steps[k]),
    ensures
        previous_stop(steps, j) == (i, true),
    decreases j,
{
    if j > i + 1 {
        assert(!stoppable(steps[j - 1]));
        lemma_skips_back(steps, i, (j - 1) as nat);
    }
}

proof fn lemma_skips_forward(steps: Seq<StepModel>, i: nat, j: nat)
    requires
        i < j < steps.len(),
        stoppable(steps[j as int]),
        forall|k: int| i < k < j ==> !stoppable(#[trigger] steps[k]),
    ensures
        next_stop(steps, i) == (j, true),
    decreases j - i,
{
    if i + 1 < j {
        assert(!stoppable(steps[i as int + 1]));
        lemma_skips_forward(steps, i + 1, j);
    }
}

/// In a sound trace the stack and the variables of the current step can be read.
pub proof fn lemma_sound_trace(trace: DebugTrace)
    requires
        trace.sound(),
    ensures
        trace.frames_exist(),
        trace.scope_exists(),
{
    let at = trace.indx as int;
    let step = trace.model()[at];
    assert(step == trace.steps@[at]@);
    assert forall|k: int| 0 <= k < trace.steps@[at].call_trace@.len() implies
        #[trigger] trace.steps@[at].call_trace@[k] < trace.steps@.len() by {
        assert(step.call_trace[k] < at);
    }
    assert forall|k: int|
        0 <= k < trace.steps@[at].variables_in_scope@.len() implies trace.variables@.dom().contains(
        #[trigger] trace.steps@[at].variables_in_scope@[k] as u64,
    ) by {
        assert(definitions(trace.variables@).dom().contains(step.variables_in_scope[k] as u64));
    }
}

} // verus!

//! What a search for a program counter finds, and what the debugger shows of it.

use dap::requests::{NextArguments, ScopesArguments, StackTraceArguments, StepBackArguments};
use vstd::prelude::*;
use vstd::utf8::{encode_utf8, is_char_boundary};

use crate::adapter::Call;
use crate::call_laws::law_stack_shows_open_calls;
use crate::debug_info::{
    declared, first_at, found_in, found_in_functions, found_in_scopes, location_at, state_ids,
    BlockModel, FunctionModel, Instruction, UnitModel, VariableModel,
};
use crate::debugger::{scopes_of, stopped, walked, Walk};
use crate::lines::{line_and_column, line_start, newlines};
use crate::primitives::Word;
use crate::protocol::{BodyModel, Event, StoppedEventReason};
use crate::text::decimal;
use crate::trace::{address_place, stack_bytes, stack_of, unit_at, ContractAddress, FrameModel};
use crate::trace_laws::law_stops;
use crate::units::place_of;
use crate::visit_laws::nested;

verus! {

/// The variables that the instructions declare, in order.
pub open spec fn declared_by(instructions: Seq<Instruction>) -> Seq<usize> {
    instructions.filter(|i: Instruction| i.kind is VariableDeclaration).map_values(
        |i: Instruction| i.kind->VariableDeclaration_0,
    )
}

/// The variables that the blocks declare, one after the other.
pub open spec fn declared_around(blocks: Seq<BlockModel>) -> Seq<usize> {
    blocks.map_values(|b: BlockModel| declared_by(b.instructions)).flatten()
}

/// The state variables of a contract.
pub open spec fn state_of(unit: UnitModel) -> Seq<usize> {
    unit.variables.filter(|v: VariableModel| v.state_variable).map_values(
        |v: VariableModel| v.id as usize,
    )
}

proof fn lemma_declared(instructions: Seq<Instruction>, n: nat)
    requires
        n <= instructions.len(),
    ensures
        declared(instructions, n) == declared_by(instructions.take(n as int)),
    decreases n,
{
    reveal(Seq::filter);
    if n > 0 {
        lemma_declared(instructions, (n - 1) as nat);
        assert(instructions.take(n as int).drop_last() =~= instructions.take(n - 1));
        assert(instructions.take(n as int).last() == instructions[n - 1]);
        assert(declared(instructions, n) =~= declared_by(instructions.take(n as int)));
    } else {
        assert(declared_by(instructions.take(0)) =~= Seq::empty());
    }
}

proof fn lemma_state(vars: Seq<VariableModel>, n: nat)
    requires
        n <= vars.len(),
    ensures
        state_ids(vars, n) == vars.take(n as int).filter(
            |v: VariableModel| v.state_variable,
        ).map_values(|v: VariableModel| v.id as usize),
    decreases n,
{
    reveal(Seq::filter);
    if n > 0 {
        lemma_state(vars, (n - 1) as nat);
        assert(vars.take(n as int).drop_last() =~= vars.take(n - 1));
        assert(vars.take(n as int).last() == vars[n - 1]);
        assert(state_ids(vars, n) =~= vars.take(n as int).filter(
            |v: VariableModel| v.state_variable,
        ).map_values(|v: VariableModel| v.id as usize));
    } else {
        assert(state_ids(vars, 0) =~= vars.take(0).filter(
            |v: VariableModel| v.state_variable,
        ).map_values(|v: VariableModel| v.id as usize));
    }
}

/// Whether the block has the program counter itself: at one of its instructions or at its condition.
pub open spec fn has_pc(block: BlockModel, pc: usize) -> bool {
    ||| exists|k: int| 0 <= k < block.instructions.len() && (#[trigger] block.instructions[k]).pc
        == pc
    ||| block.condition is Some && block.condition->Some_0.pc == pc
}

/// Whether the blocks lead from a whole block to one that has the instruction: the `k`-th of the last
/// block, or its condition where `k` counts all of them. Variables in scope there are `vars`, those
/// that the blocks around it declare, and those that the last block declares up to the instruction.
pub open spec fn leads_to_instruction(
    blocks: Seq<BlockModel>,
    k: int,
    vars: Seq<usize>,
    instruction: Instruction,
    seen: Seq<usize>,
) -> bool {
    &&& blocks.len() > 0
    &&& nested(blocks)
    &&& 0 <= k <= blocks.last().instructions.len()
    &&& ({
        let own = blocks.last().instructions;
        if k < own.len() {
            &&& own[k] == instruction
            &&& forall|j: int| 0 <= j < k ==> (#[trigger] own[j]).pc != instruction.pc
            &&& seen == vars + declared_around(blocks.drop_last()) + declared_by(own.take(k + 1))
        } else {
            &&& blocks.last().condition == Some(instruction)
            &&& seen == vars + declared_around(blocks)
        }
    })
}

proof fn lemma_first(instructions: Seq<Instruction>, pc: usize, i: nat)
    ensures
        match first_at(instructions, pc, i) {
            Some(k) => i <= k < instructions.len() && instructions[k as int].pc == pc && forall|j: int|
                i <= j < k ==> (#[trigger] instructions[j]).pc != pc,
            None => forall|j: int|
                i <= j < instructions.len() ==> (#[trigger] instructions[j]).pc != pc,
        },
    decreases (if i < instructions.len() { instructions.len() - i } else { 0 }),
{
    if i < instructions.len() && instructions[i as int].pc != pc {
        lemma_first(instructions, pc, i + 1);
    }
}

proof fn lemma_found(block: BlockModel, pc: usize, vars: Seq<usize>) -> (r: (Seq<BlockModel>, int))
    requires
        found_in(block, pc, vars) is Some,
    ensures
        r.0.len() > 0,
        r.0[0] == block,
        leads_to_instruction(
            r.0,
            r.1,
            vars,
            found_in(block, pc, vars)->Some_0.0,
            found_in(block, pc, vars)->Some_0.1,
        ),
        found_in(block, pc, vars)->Some_0.0.pc == pc,
    decreases block, 0nat,
{
    let own = block.instructions;
    let one = seq![block];
    let none = Seq::<usize>::empty();
    let (instruction, seen) = found_in(block, pc, vars)->Some_0;
    lemma_first(own, pc, 0);
    lemma_declared(own, own.len());
    assert(own.take(own.len() as int) =~= own);
    let f = |b: BlockModel| declared_by(b.instructions);
    let inner = vars + declared_by(own);
    match first_at(own, pc, 0) {
        Some(i) => {
            lemma_declared(own, i + 1);
            assert(one.drop_last().map_values(f) =~= Seq::empty());
            assert(vars + none =~= vars);
            assert(seen =~= vars + declared_around(one.drop_last()) + declared_by(
                own.take(i as int + 1),
            ));
            (one, i as int)
        },
        None => {
            assert(inner == vars + declared(own, own.len()));
            if found_in_scopes(block.scopes, block.scopes.len(), pc, inner) is Some {
                let (j, rest, k) = lemma_found_scope(block.scopes, block.scopes.len(), pc, inner);
                let blocks = one + rest;
                assert(nested(blocks)) by {
                    assert forall|a: int, b: int| 0 <= a && b == a + 1 && b < blocks.len() implies (
                    #[trigger] blocks[a]).scopes.contains(#[trigger] blocks[b]) by {
                        if a == 0 {
                            assert(block.scopes[j] == rest[0]);
                        } else {
                            assert(blocks[a] == rest[a - 1] && blocks[b] == rest[b - 1]);
                            assert(rest[a - 1].scopes.contains(rest[b - 1]));
                        }
                    }
                }
                assert(blocks.last() == rest.last());
                lemma_around(block, rest);
                assert(blocks.drop_last() =~= one + rest.drop_last());
                lemma_around(block, rest.drop_last());
                let a = declared_by(own);
                let last = rest.last().instructions;
                if k < last.len() {
                    let b = declared_around(rest.drop_last());
                    let c = declared_by(last.take(k + 1));
                    assert(vars + a + b + c =~= vars + (a + b) + c);
                } else {
                    assert((vars + a) + declared_around(rest) =~= vars + (a + declared_around(
                        rest,
                    )));
                }
                (blocks, k)
            } else {
                assert(one.map_values(f).flatten() =~= declared_by(own)) by {
                    one.map_values(f).lemma_flatten_one_element();
                    assert(one.map_values(f).first() == declared_by(own));
                }
                (one, own.len() as int)
            }
        },
    }
}

/// A block around others adds its variables before theirs.
proof fn lemma_around(block: BlockModel, rest: Seq<BlockModel>)
    ensures
        declared_around(seq![block] + rest) == declared_by(block.instructions) + declared_around(
            rest,
        ),
{
    let f = |b: BlockModel| declared_by(b.instructions);
    let lists = (seq![block] + rest).map_values(f);
    assert(lists.first() == declared_by(block.instructions));
    assert(lists.drop_first() =~= rest.map_values(f));
}

proof fn lemma_found_scope(scopes: Seq<BlockModel>, n: nat, pc: usize, vars: Seq<usize>) -> (r: (
    int,
    Seq<BlockModel>,
    int,
))
    requires
        n <= scopes.len(),
        found_in_scopes(scopes, n, pc, vars) is Some,
    ensures
        0 <= r.0 < n,
        r.1.len() > 0,
        r.1[0] == scopes[r.0],
        leads_to_instruction(
            r.1,
            r.2,
            vars,
            found_in_scopes(scopes, n, pc, vars)->Some_0.0,
            found_in_scopes(scopes, n, pc, vars)->Some_0.1,
        ),
        found_in_scopes(scopes, n, pc, vars)->Some_0.0.pc == pc,
    decreases scopes, n,
{
    if found_in_scopes(scopes, (n - 1) as nat, pc, vars) is Some {
        lemma_found_scope(scopes, (n - 1) as nat, pc, vars)
    } else {
        let (blocks, k) = lemma_found(scopes[n - 1], pc, vars);
        (n - 1, blocks, k)
    }
}

/// What is found at a program counter is an instruction of a block of a function of the contract, or
/// the condition of such a block, however deep the block lies. In scope there are the state variables,
/// then what the blocks around it declare, from the outermost inwards, and then what its own block
/// declares up to it.
pub proof fn law_found_is_in_scope(unit: UnitModel, pc: usize) -> (r: (int, Seq<BlockModel>, int))
    requires
        location_at(unit, pc) is Some,
    ensures
        0 <= r.0 < unit.functions.len(),
        r.1.len() > 0,
        r.1[0] == unit.functions[r.0].root_block,
        leads_to_instruction(
            r.1,
            r.2,
            state_of(unit),
            location_at(unit, pc)->Some_0.0,
            location_at(unit, pc)->Some_0.1,
        ),
        location_at(unit, pc)->Some_0.0.pc == pc,
{
    lemma_state(unit.variables, unit.variables.len());
    assert(unit.variables.take(unit.variables.len() as int) =~= unit.variables);
    lemma_found_function(unit.functions, unit.functions.len(), pc, state_of(unit))
}

proof fn lemma_found_function(functions: Seq<FunctionModel>, n: nat, pc: usize, vars: Seq<usize>) -> (r: (
    int,
    Seq<BlockModel>,
    int,
))
    requires
        n <= functions.len(),
        found_in_functions(functions, n, pc, vars) is Some,
    ensures
        0 <= r.0 < n,
        r.1.len() > 0,
        r.1[0] == functions[r.0].root_block,
        leads_to_instruction(
            r.1,
            r.2,
            vars,
            found_in_functions(functions, n, pc, vars)->Some_0.0,
            found_in_functions(functions, n, pc, vars)->Some_0.1,
        ),
        found_in_functions(functions, n, pc, vars)->Some_0.0.pc == pc,
    decreases n,
{
    if found_in_functions(functions, (n - 1) as nat, pc, vars) is Some {
        lemma_found_function(functions, (n - 1) as nat, pc, vars)
    } else {
        let (blocks, k) = lemma_found(functions[n - 1].root_block, pc, vars);
        (n - 1, blocks, k)
    }
}

proof fn lemma_mentioned(blocks: Seq<BlockModel>, pc: usize, vars: Seq<usize>)
    requires
        blocks.len() > 0,
        nested(blocks),
        has_pc(blocks.last(), pc),
    ensures
        found_in(blocks[0], pc, vars) is Some,
    decreases blocks.len(),
{
    let block = blocks[0];
    lemma_first(block.instructions, pc, 0);
    if blocks.len() > 1 {
        let rest = blocks.skip(1);
        assert(nested(rest)) by {
            assert forall|a: int, b: int| 0 <= a && b == a + 1 && b < rest.len() implies (
            #[trigger] rest[a]).scopes.contains(#[trigger] rest[b]) by {
                assert(blocks[a + 1].scopes.contains(blocks[b + 1]));
            }
        }
        assert(rest.last() == blocks.last());
        let inner = vars + declared(block.instructions, block.instructions.len());
        lemma_mentioned(rest, pc, inner);
        assert(blocks[0].scopes.contains(blocks[1]));
        let j = choose|j: int| 0 <= j < block.scopes.len() && block.scopes[j] == blocks[1];
        lemma_scope_mentions(block.scopes, block.scopes.len(), pc, inner, j);
    }
}

proof fn lemma_scope_mentions(
    scopes: Seq<BlockModel>,
    n: nat,
    pc: usize,
    vars: Seq<usize>,
    j: int,
)
    requires
        0 <= j < n <= scopes.len(),
        found_in(scopes[j], pc, vars) is Some,
    ensures
        found_in_scopes(scopes, n, pc, vars) is Some,
    decreases n,
{
    if j < n - 1 {
        lemma_scope_mentions(scopes, (n - 1) as nat, pc, vars, j);
    }
}

proof fn lemma_function_mentions(
    functions: Seq<FunctionModel>,
    n: nat,
    pc: usize,
    vars: Seq<usize>,
    j: int,
)
    requires
        0 <= j < n <= functions.len(),
        found_in(functions[j].root_block, pc, vars) is Some,
    ensures
        found_in_functions(functions, n, pc, vars) is Some,
    decreases n,
{
    if j < n - 1 {
        lemma_function_mentions(functions, (n - 1) as nat, pc, vars, j);
    }
}

/// Something is found at every program counter that an instruction or a condition of a contract has,
/// in whatever function and however deep in its blocks.
pub proof fn law_instructions_are_found(
    unit: UnitModel,
    f: int,
    blocks: Seq<BlockModel>,
    pc: usize,
)
    requires
        0 <= f < unit.functions.len(),
        blocks.len() > 0,
        blocks[0] == unit.functions[f].root_block,
        nested(blocks),
        has_pc(blocks.last(), pc),
    ensures
        location_at(unit, pc) is Some,
{
    let vars = state_ids(unit.variables, unit.variables.len());
    lemma_mentioned(blocks, pc, vars);
    lemma_function_mentions(unit.functions, unit.functions.len(), pc, vars, f);
}

proof fn lemma_address(
    contracts: Seq<(ContractAddress, String)>,
    address: ContractAddress,
    i: nat,
    k: int,
)
    requires
        i <= k < contracts.len(),
        contracts[k].0@ == address@,
        forall|j: int| i <= j < k ==> (#[trigger] contracts[j]).0@ != address@,
    ensures
        address_place(contracts, address, i) == Some(k as nat),
    decreases k - i,
{
    if i < k {
        assert(contracts[i as int].0@ != address@);
        lemma_address(contracts, address, i + 1, k);
    }
}

proof fn lemma_no_address(
    contracts: Seq<(ContractAddress, String)>,
    address: ContractAddress,
    i: nat,
)
    requires
        forall|j: int| i <= j < contracts.len() ==> (#[trigger] contracts[j]).0@ != address@,
    ensures
        address_place(contracts, address, i) is None,
    decreases (if i < contracts.len() { contracts.len() - i } else { 0 }),
{
    if i < contracts.len() {
        assert(contracts[i as int].0@ != address@);
        lemma_no_address(contracts, address, i + 1);
    }
}

proof fn lemma_name(units: Seq<(Seq<char>, UnitModel)>, name: Seq<char>, i: nat, k: int)
    requires
        i <= k < units.len(),
        units[k].0 == name,
        forall|j: int| i <= j < k ==> (#[trigger] units[j]).0 != name,
    ensures
        place_of(units, name, i) == Some(k as nat),
    decreases k - i,
{
    if i < k {
        assert(units[i as int].0 != name);
        lemma_name(units, name, i + 1, k);
    }
}

/// The debug information of an instruction is that of the contract with the name that belongs to the
/// address it runs at. There is none for an address without a name.
pub proof fn law_contracts_are_known_by_address(
    contracts: Seq<(ContractAddress, String)>,
    units: Seq<(Seq<char>, UnitModel)>,
    address: ContractAddress,
    c: int,
    k: int,
)
    ensures
        0 <= c < contracts.len() && contracts[c].0@ == address@ && (forall|j: int|
            0 <= j < c ==> (#[trigger] contracts[j]).0@ != address@) && 0 <= k < units.len()
            && units[k].0 == contracts[c].1@ && (forall|j: int|
            0 <= j < k ==> (#[trigger] units[j]).0 != contracts[c].1@) ==> unit_at(
            contracts,
            units,
            address,
        ) == Some(units[k].1),
        (forall|j: int| 0 <= j < contracts.len() ==> (#[trigger] contracts[j]).0@ != address@)
            ==> unit_at(contracts, units, address) is None,
{
    if 0 <= c < contracts.len() && contracts[c].0@ == address@ && (forall|j: int|
        0 <= j < c ==> (#[trigger] contracts[j]).0@ != address@) && 0 <= k < units.len()
        && units[k].0 == contracts[c].1@ && (forall|j: int|
        0 <= j < k ==> (#[trigger] units[j]).0 != contracts[c].1@) {
        lemma_address(contracts, address, 0, c);
        lemma_name(units, contracts[c].1@, 0, k);
    }
    if forall|j: int| 0 <= j < contracts.len() ==> (#[trigger] contracts[j]).0@ != address@ {
        lemma_no_address(contracts, address, 0);
    }
}

/// The words on the stack are shown in their order, each from its lowest byte to its highest.
pub proof fn law_words_are_shown_from_their_lowest_byte(stack: Seq<Word>)
    ensures
        stack_bytes(stack).len() == stack.len(),
        forall|i: int, k: int|
            0 <= i < stack.len() && 0 <= k < 32 ==> stack_bytes(stack)[i].len() == 32
                && #[trigger] stack_bytes(stack)[i][k] == stack[i]@[31 - k],
{
}

/// The stack that the debugger shows has one frame for each open call, where its function was
/// entered, and a last one where execution stands. Columns are counted from one.
pub proof fn law_debugger_shows_the_stack(walk: Walk, args: StackTraceArguments)
    requires
        walk.at < walk.steps.len(),
    ensures
        walked(walk, Call::StackTrace(args)).0 == walk,
        walked(walk, Call::StackTrace(args)).1 matches Some(BodyModel::StackTrace(frames, total)) && {
            let step = walk.steps[walk.at as int];
            let n = step.call_trace.len();
            &&& frames.len() == n + 1
            &&& total == Some((n + 1) as i64)
            &&& forall|k: int|
                #![trigger frames[k]]
                0 <= k <= n ==> {
                    let at = if k < n {
                        walk.steps[step.call_trace[k] as int]
                    } else {
                        step
                    };
                    &&& frames[k].source_path == at.path
                    &&& frames[k].id == k as i64
                    &&& frames[k].name == "Frame "@ + decimal(k as nat)
                    &&& frames[k].source_name == frames[k].name
                    &&& frames[k].line == at.location.line as i64
                    &&& frames[k].column == (at.location.column + 1) as i64
                    &&& frames[k].end_line is Some <==> at.location.end_line is Some
                    &&& at.location.end_line is Some ==> frames[k].end_line->Some_0
                        == at.location.end_line->Some_0 as i64
                    &&& frames[k].end_column is Some <==> at.location.end_column is Some
                    &&& at.location.end_column is Some ==> frames[k].end_column->Some_0 == (
                    at.location.end_column->Some_0 + 1) as i64
                    &&& frames[k].source_hint is Normal
                    &&& frames[k].presentation_hint is Normal
                }
        },
{
    law_stack_shows_open_calls(walk.steps, walk.at);
    let stack = stack_of(walk.steps, walk.at);
    let step = walk.steps[walk.at as int];
    let n = step.call_trace.len();
    assert forall|k: int| 0 <= k <= n implies #[trigger] stack[k] == (FrameModel {
        path: (if k < n {
            walk.steps[step.call_trace[k] as int]
        } else {
            step
        }).path,
        location: (if k < n {
            walk.steps[step.call_trace[k] as int]
        } else {
            step
        }).location,
    }) by {
        if k == n {
            assert(stack[k] == stack.last());
        }
    }
}

/// The scopes that the debugger shows are the variables in scope where execution stands, each with its
/// name, in their order.
pub proof fn law_debugger_shows_the_variables(walk: Walk, args: ScopesArguments)
    requires
        walk.at < walk.steps.len(),
    ensures
        walked(walk, Call::Scopes(args)).0 == walk,
        walked(walk, Call::Scopes(args)).1 matches Some(BodyModel::Scopes(scopes)) && {
            let ids = walk.steps[walk.at as int].variables_in_scope;
            &&& scopes.len() == ids.len()
            &&& forall|k: int|
                #![trigger scopes[k]]
                0 <= k < ids.len() ==> scopes[k].name == walk.variables[ids[k] as u64].name
                    && scopes[k].variables_reference == walk.variables[ids[k] as u64].id as i64
        },
{
    let ids = walk.steps[walk.at as int].variables_in_scope;
    lemma_scopes(walk.variables, ids, ids.len());
}

proof fn lemma_scopes(variables: Map<u64, VariableModel>, ids: Seq<usize>, n: nat)
    requires
        n <= ids.len(),
    ensures
        scopes_of(variables, ids, n).len() == n,
        forall|k: int|
            #![trigger scopes_of(variables, ids, n)[k]]
            0 <= k < n ==> scopes_of(variables, ids, n)[k].name == variables[ids[k] as u64].name
                && scopes_of(variables, ids, n)[k].variables_reference
                == variables[ids[k] as u64].id as i64,
    decreases n,
{
    if n > 0 {
        lemma_scopes(variables, ids, (n - 1) as nat);
    }
}

/// Stepping moves to the nearest step in its direction that is no entry of a function, or to the end
/// of the trace where there is none. It changes nothing else of the trace, answers nothing, and tells
/// the client once that the only thread has stopped.
pub proof fn law_debugger_steps(walk: Walk, forward: NextArguments, back: StepBackArguments)
    requires
        walk.at < walk.steps.len(),
    ensures
        ({
            let (after, answer) = walked(walk, Call::Next(forward));
            &&& steps_to(walk, after)
            &&& answer is None
            &&& walk.at <= after.at
            &&& after.at == walk.at ==> after.at == walk.steps.len() - 1
            &&& !(walk.steps[after.at as int].kind is FunctionDefinition) || after.at == walk.steps.len() - 1
            &&& forall|k: int|
                walk.at < k < after.at ==> (
                #[trigger] walk.steps[k]).kind is FunctionDefinition
        }),
        ({
            let (after, answer) = walked(walk, Call::StepBack(back));
            &&& steps_to(walk, after)
            &&& answer is None
            &&& after.at <= walk.at
            &&& after.at == walk.at ==> after.at == 0
            &&& !(walk.steps[after.at as int].kind is FunctionDefinition) || after.at == 0
            &&& forall|k: int|
                after.at < k < walk.at ==> (
                #[trigger] walk.steps[k]).kind is FunctionDefinition
        }),
{
    law_stops(walk.steps, walk.at);
    assert(walk.sent.push(stopped(StoppedEventReason::Step)).drop_last() =~= walk.sent);
}

/// Whether the walk goes on at another step of its trace, and says so once.
pub open spec fn steps_to(walk: Walk, after: Walk) -> bool {
    &&& after.steps == walk.steps
    &&& after.variables == walk.variables
    &&& after.at < walk.steps.len()
    &&& after.sent.len() == walk.sent.len() + 1
    &&& after.sent.drop_last() == walk.sent
    &&& after.sent.last() matches Event::Stopped(body) && body.reason is Step && body.thread_id
        == Some(1i64) && body.all_threads_stopped == Some(true)
}

/// A client that asks for the threads learns of one, and then that it has stopped where it stands:
/// the stop names the thread that was listed.
pub proof fn law_debugger_shows_its_thread(walk: Walk)
    ensures
        ({
            let (after, answer) = walked(walk, Call::Threads);
            &&& after.steps == walk.steps
            &&& after.variables == walk.variables
            &&& after.at == walk.at
            &&& after.sent.len() == walk.sent.len() + 1
            &&& after.sent.drop_last() == walk.sent
            &&& answer matches Some(BodyModel::Threads(threads)) && threads.len() == 1
                && threads[0].name == "Main Thread"@ && (after.sent.last() matches Event::Stopped(
                body,
            ) && body.reason is Breakpoint && body.thread_id == Some(threads[0].id)
                && body.all_threads_stopped == Some(true))
        }),
{
    assert(walk.sent.push(stopped(StoppedEventReason::Breakpoint)).drop_last() =~= walk.sent);
}

/// Whatever else the client asks for leaves the walk as it is. No variable has members, and no
/// breakpoint is ever set.
pub proof fn law_debugger_stays(walk: Walk, call: Call)
    requires
        !(call is Next) && !(call is StepBack) && !(call is Threads),
    ensures
        walked(walk, call).0 == walk,
        call is Launch || call is Disconnect <==> walked(walk, call).1 is None,
        call is Variables ==> (walked(walk, call).1 matches Some(BodyModel::Variables(variables))
            && variables.len() == 0),
        call is SetBreakpoints ==> (walked(walk, call).1 matches Some(BodyModel::SetBreakpoints(set))
            && set.len() == 0),
        call is SetExceptionBreakpoints ==> walked(walk, call).1 == Some(
            BodyModel::SetExceptionBreakpoints(None),
        ),
{
}

/// The column of a position counts the bytes behind the last line break before it, and the line counts
/// the line breaks before it, and one more where it stands behind anything in its line.
pub proof fn law_positions_count_lines(text: Seq<char>, n: nat)
    requires
        n <= encode_utf8(text).len(),
        is_char_boundary(encode_utf8(text), n as int),
    ensures
        line_and_column(text, n) matches Some((line, column)) && {
            let bytes = encode_utf8(text);
            &&& column <= n
            &&& column < n ==> bytes[n - column - 1] == 10
            &&& forall|i: int| n - column <= i < n ==> #[trigger] bytes[i] != 10
            &&& line == bytes.take(n as int).filter(|b: u8| b == 10).len() + if column > 0 {
                1nat
            } else {
                0nat
            }
        },
{
    let bytes = encode_utf8(text);
    lemma_line_start(bytes, n);
    lemma_newlines(bytes, n);
}

proof fn lemma_line_start(bytes: Seq<u8>, n: nat)
    requires
        n <= bytes.len(),
    ensures
        line_start(bytes, n) <= n,
        line_start(bytes, n) > 0 ==> bytes[line_start(bytes, n) - 1] == 10,
        forall|i: int| line_start(bytes, n) <= i < n ==> #[trigger] bytes[i] != 10,
    decreases n,
{
    if n > 0 && bytes[n - 1] != 10 {
        lemma_line_start(bytes, (n - 1) as nat);
    }
}

proof fn lemma_newlines(bytes: Seq<u8>, n: nat)
    requires
        n <= bytes.len(),
    ensures
        newlines(bytes, n) == bytes.take(n as int).filter(|b: u8| b == 10).len(),
    decreases n,
{
    reveal(Seq::filter);
    if n > 0 {
        lemma_newlines(bytes, (n - 1) as nat);
        assert(bytes.take(n as int).drop_last() =~= bytes.take(n - 1));
    }
}

} // verus!

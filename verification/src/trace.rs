//! Traces of debug steps, and stepping through them.

use std::collections::HashMap;
use vstd::prelude::*;
use vstd::slice::slice_to_vec;

use crate::closed_units::law_units_are_sound;
use crate::debug_info::{
    location_at, DebugUnit, FunctionModel, InstructionKind, SourceLocation, UnitModel, Variable,
    VariableModel,
};
use crate::primitives::Word;
use crate::text::{same_text, texts};
use crate::trace_laws::{law_traces_are_sound, scopes_known, traces_point_back};
use crate::units::{
    find_unit, generate_debug_units, names_model, unit_models, unit_named, with_artifacts, Artifact,
    UnitError,
};

verus! {

broadcast use vstd::std_specs::hash::group_hash_axioms;

/// The address of a contract.
pub type ContractAddress = [u8; 20];

/// One executed instruction, as the recorder notes it.
#[derive(Debug, PartialEq)]
pub struct CallTraceStep {
    pub pc: usize,
    /// The contract whose code runs.
    pub contract: ContractAddress,
    /// The memory before the instruction, where it was recorded.
    pub memory: Option<Vec<u8>>,
    /// The words on the stack before the instruction, where they were recorded.
    pub stack: Option<Vec<Word>>,
}

/// The instructions that ran in one call.
#[derive(Debug, PartialEq)]
pub struct DebugNode {
    pub kind: String,
    pub steps: Vec<CallTraceStep>,
}

/// The names of the contracts at the addresses that took part.
#[derive(Debug, PartialEq)]
pub struct ContractsDump {
    pub identified_contracts: Vec<(ContractAddress, String)>,
}

/// A recorded run.
#[derive(Debug, PartialEq)]
pub struct DebuggerContext {
    pub debug_arena: Vec<DebugNode>,
    pub contracts: ContractsDump,
}

#[derive(Debug, PartialEq)]
pub enum StepKind {
    /// The function with this name is entered.
    FunctionDefinition(String),
    FunctionCall,
    Statement,
}

#[derive(Debug, PartialEq)]
pub struct DebugStep {
    pub location: SourceLocation,
    pub variables_in_scope: Vec<usize>,
    pub path: String,
    /// The steps at which the functions around this step were entered, outermost first.
    pub call_trace: Vec<usize>,
    pub kind: StepKind,
    pub memory: Vec<u8>,
    /// The words on the stack, each with its lowest byte first.
    pub stack: Vec<Vec<u8>>,
}

#[derive(Debug, PartialEq)]
pub struct StackFrame {
    pub path: String,
    pub location: SourceLocation,
}

#[derive(Debug, PartialEq)]
pub struct DebugTraceStep {
    pub stack_frames: Vec<StackFrame>,
}

/// The steps of a run, the variables of its contracts by identifier, and the current step.
#[derive(Debug)]
pub struct DebugTrace {
    pub steps: Vec<DebugStep>,
    pub variables: HashMap<u64, Variable>,
    pub indx: usize,
}

/// Why a recorded run cannot be followed.
#[derive(Clone, Copy, Debug, PartialEq, Eq, Structural)]
pub enum TraceError {
    /// The debug information cannot be collected.
    Units(UnitError),
    /// An instruction was recorded without its memory.
    MissingMemory,
    /// An instruction was recorded without its stack.
    MissingStack,
    /// Found function entry without call.
    EntryWithoutCall,
    /// Found function exit without call.
    ExitWithoutCall,
    /// The function that is left is not the one that was entered last.
    ExitOfOtherFunction,
    /// Found function call without function entry.
    CallWithoutEntry,
    /// No step belongs to a known contract.
    NoSteps,
    /// The last step is still inside a call.
    UnfinishedCall,
}

/// What a [`StepKind`] says.
pub enum StepKindModel {
    FunctionDefinition(Seq<char>),
    FunctionCall,
    Statement,
}

/// A [`DebugStep`] with its lists as sequences.
pub struct StepModel {
    pub location: SourceLocation,
    pub variables_in_scope: Seq<usize>,
    pub path: Seq<char>,
    pub call_trace: Seq<nat>,
    pub kind: StepKindModel,
    pub memory: Seq<u8>,
    pub stack: Seq<Seq<u8>>,
}

/// A [`StackFrame`] with its path as a sequence of characters.
pub struct FrameModel {
    pub path: Seq<char>,
    pub location: SourceLocation,
}

impl View for StepKind {
    type V = StepKindModel;

    open spec fn view(&self) -> StepKindModel {
        match self {
            StepKind::FunctionDefinition(name) => StepKindModel::FunctionDefinition(name@),
            StepKind::FunctionCall => StepKindModel::FunctionCall,
            StepKind::Statement => StepKindModel::Statement,
        }
    }
}

impl View for DebugStep {
    type V = StepModel;

    open spec fn view(&self) -> StepModel {
        StepModel {
            location: self.location,
            variables_in_scope: self.variables_in_scope@,
            path: self.path@,
            call_trace: as_nats(self.call_trace@),
            kind: self.kind@,
            memory: self.memory@,
            stack: byte_lists(self.stack@),
        }
    }
}

impl View for StackFrame {
    type V = FrameModel;

    open spec fn view(&self) -> FrameModel {
        FrameModel { path: self.path@, location: self.location }
    }
}

pub open spec fn as_nats(numbers: Seq<usize>) -> Seq<nat> {
    numbers.map_values(|n: usize| n as nat)
}

pub open spec fn byte_lists(lists: Seq<Vec<u8>>) -> Seq<Seq<u8>> {
    lists.map_values(|l: Vec<u8>| l@)
}

pub open spec fn step_models(steps: Seq<DebugStep>) -> Seq<StepModel> {
    steps.map_values(|s: DebugStep| s@)
}

pub open spec fn frame_models(frames: Seq<StackFrame>) -> Seq<FrameModel> {
    frames.map_values(|f: StackFrame| f@)
}

/// The place of a step in its source.
pub open spec fn frame_of(step: StepModel) -> FrameModel {
    FrameModel { path: step.path, location: step.location }
}

/// The variables by identifier.
pub open spec fn definitions(variables: Map<u64, Variable>) -> Map<u64, VariableModel> {
    variables.map_values(|v: Variable| v@)
}

/// A step at which execution can stop: every one but the entry of a function.
pub open spec fn stoppable(step: StepModel) -> bool {
    !(step.kind is FunctionDefinition)
}

/// The last stoppable step before `i`, or the first step where there is none, and whether there
/// is one.
pub open spec fn previous_stop(steps: Seq<StepModel>, i: nat) -> (nat, bool)
    decreases i,
{
    if i == 0 {
        (0, false)
    } else if stoppable(steps[i - 1]) {
        ((i - 1) as nat, true)
    } else {
        previous_stop(steps, (i - 1) as nat)
    }
}

/// The first stoppable step behind `i`, or the last step where there is none, and whether there
/// is one.
pub open spec fn next_stop(steps: Seq<StepModel>, i: nat) -> (nat, bool)
    decreases (if i < steps.len() { steps.len() - i } else { 0 }),
{
    if i + 1 >= steps.len() {
        (i, false)
    } else if stoppable(steps[i as int + 1]) {
        (i + 1, true)
    } else {
        next_stop(steps, i + 1)
    }
}

impl DebugTrace {
    /// The steps of the run.
    pub open spec fn model(self) -> Seq<StepModel> {
        step_models(self.steps@)
    }

    /// The current step and those that its call trace names exist.
    pub open spec fn frames_exist(self) -> bool {
        &&& self.indx < self.steps@.len()
        &&& forall|k: int|
            0 <= k < self.steps@[self.indx as int].call_trace@.len()
                ==> #[trigger] self.steps@[self.indx as int].call_trace@[k] < self.steps@.len()
    }

    /// The variables in scope at the current step are known.
    pub open spec fn scope_exists(self) -> bool {
        &&& self.indx < self.steps@.len()
        &&& forall|k: int|
            0 <= k < self.steps@[self.indx as int].variables_in_scope@.len()
                ==> self.variables@.dom().contains(
                #[trigger] self.steps@[self.indx as int].variables_in_scope@[k] as u64,
            )
    }

    /// At every step, the steps of its call trace exist and the variables in scope are known.
    pub open spec fn sound(self) -> bool {
        &&& self.indx < self.steps@.len()
        &&& traces_point_back(self.model())
        &&& scopes_known(self.model(), definitions(self.variables@))
    }

    /// Goes back to the step before at which execution can stop, and says whether there is
    /// one. Where there is none it goes back to the first step.
    pub fn prev(&mut self) -> (r: bool)
        requires
            old(self).indx <= old(self).steps@.len(),
        ensures
            (final(self).indx as nat, r) == previous_stop(old(self).model(), old(self).indx as nat),
            final(self).steps == old(self).steps,
            final(self).variables == old(self).variables,
    {
        let ghost goal = previous_stop(self.model(), self.indx as nat);
        while self.indx > 0
            invariant
                self.indx <= self.steps@.len(),
                self.steps == old(self).steps,
                self.variables == old(self).variables,
                goal == previous_stop(old(self).model(), old(self).indx as nat),
                goal == previous_stop(self.model(), self.indx as nat),
            decreases self.indx,
        {
            self.indx = self.indx - 1;
            assert(self.model()[self.indx as int] == self.steps@[self.indx as int]@);
            match self.steps[self.indx].kind {
                StepKind::FunctionDefinition(_) => {},
                _ => {
                    return true;
                },
            }
        }
        false
    }

    /// Goes on to the next step at which execution can stop, and says whether there is one.
    /// Where there is none it goes on to the last step.
    pub fn next(&mut self) -> (r: bool)
        requires
            old(self).steps@.len() > 0,
        ensures
            (final(self).indx as nat, r) == next_stop(old(self).model(), old(self).indx as nat),
            final(self).steps == old(self).steps,
            final(self).variables == old(self).variables,
    {
        let ghost goal = next_stop(self.model(), self.indx as nat);
        while self.indx < self.steps.len() - 1
            invariant
                self.steps@.len() > 0,
                self.steps == old(self).steps,
                self.variables == old(self).variables,
                goal == next_stop(old(self).model(), old(self).indx as nat),
                goal == next_stop(self.model(), self.indx as nat),
            decreases self.steps@.len() - self.indx,
        {
            self.indx = self.indx + 1;
            assert(self.model()[self.indx as int] == self.steps@[self.indx as int]@);
            match self.steps[self.indx].kind {
                StepKind::FunctionDefinition(_) => {},
                _ => {
                    return true;
                },
            }
        }
        false
    }

    /// The stack of the current step: where the functions around it were entered, outermost
    /// first, then the step itself.
    pub fn trace(&self) -> (r: DebugTraceStep)
        requires
            self.frames_exist(),
        ensures
            frame_models(r.stack_frames@) == stack_of(self.model(), self.indx as nat),
    {
        let mut call_trace: Vec<StackFrame> = Vec::new();
        let step = &self.steps[self.indx];
        assert(self.model()[self.indx as int] == step@);
        let mut i: usize = 0;
        while i < step.call_trace.len()
            invariant
                i <= step.call_trace@.len(),
                self.frames_exist(),
                *step == self.steps@[self.indx as int],
                frame_models(call_trace@) == frames_at(self.model(), step@.call_trace, i as nat),
            decreases step.call_trace@.len() - i,
        {
            let at: usize = step.call_trace[i];
            let ghost before = frame_models(call_trace@);
            let frame = StackFrame::from(&self.steps[at]);
            call_trace.push(frame);
            assert(self.model()[at as int] == self.steps@[at as int]@);
            assert(frame_models(call_trace@) =~= before.push(frame@));
            i = i + 1;
        }
        let ghost before = frame_models(call_trace@);
        let frame = StackFrame::from(step);
        call_trace.push(frame);
        assert(frame_models(call_trace@) =~= before.push(frame@));
        DebugTraceStep { stack_frames: call_trace }
    }

    /// The variables in scope at the current step, in the order of the step's list.
    pub fn scope(&self) -> (r: Vec<Variable>)
        requires
            self.scope_exists(),
        ensures
            r@.len() == self.steps@[self.indx as int].variables_in_scope@.len(),
            forall|k: int|
                0 <= k < r@.len() ==> (#[trigger] r@[k])@ == definitions(
                    self.variables@,
                )[self.steps@[self.indx as int].variables_in_scope@[k] as u64],
    {
        let step = &self.steps[self.indx];
        let mut vars: Vec<Variable> = Vec::new();
        let mut i: usize = 0;
        while i < step.variables_in_scope.len()
            invariant
                i <= step.variables_in_scope@.len(),
                self.scope_exists(),
                *step == self.steps@[self.indx as int],
                vars@.len() == i,
                forall|k: int|
                    0 <= k < i ==> (#[trigger] vars@[k])@ == definitions(
                        self.variables@,
                    )[step.variables_in_scope@[k] as u64],
            decreases step.variables_in_scope@.len() - i,
        {
            let id: u64 = step.variables_in_scope[i] as u64;
            if let Some(var) = self.variables.get(&id) {
                vars.push(var.copy());
            }
            i = i + 1;
        }
        vars
    }
}

/// The places of the first `n` steps named.
pub open spec fn frames_at(steps: Seq<StepModel>, at: Seq<nat>, n: nat) -> Seq<FrameModel>
    decreases n,
{
    if n == 0 || n > at.len() {
        Seq::empty()
    } else {
        frames_at(steps, at, (n - 1) as nat).push(frame_of(steps[at[n - 1] as int]))
    }
}

/// The stack of step `i`.
pub open spec fn stack_of(steps: Seq<StepModel>, i: nat) -> Seq<FrameModel> {
    let step = steps[i as int];
    frames_at(steps, step.call_trace, step.call_trace.len()).push(frame_of(step))
}

impl StackFrame {
    /// The place of a step in its source.
    pub fn from(step: &DebugStep) -> (r: StackFrame)
        ensures
            r@ == frame_of(step@),
    {
        StackFrame { path: step.path.clone(), location: step.location }
    }
}

/// How far a run has been followed: the steps so far, the functions that have been entered and
/// not left, each with the step of its entry, and whether a function is about to be entered.
pub struct Followed {
    pub steps: Seq<StepModel>,
    pub calls: Seq<(Seq<char>, nat)>,
    pub expecting_function: bool,
}

/// What an instruction sees: where it runs, the memory and the stack.
pub struct Seen {
    pub pc: usize,
    pub path: Seq<char>,
    pub memory: Seq<u8>,
    pub stack: Seq<Seq<u8>>,
}

pub open spec fn entries(calls: Seq<(Seq<char>, nat)>) -> Seq<nat> {
    calls.map_values(|c: (Seq<char>, nat)| c.1)
}

/// The words, each with its lowest byte first.
pub open spec fn stack_bytes(stack: Seq<Word>) -> Seq<Seq<u8>> {
    stack.map_values(|w: Word| w@.reverse())
}

/// `f` with the entry of those of the first `n` functions that start at the instruction. The
/// function that is entered first is not listed among the calls.
pub open spec fn after_entries(
    functions: Seq<FunctionModel>,
    n: nat,
    seen: Seen,
    f: Followed,
) -> Result<Followed, TraceError>
    decreases n,
{
    if n == 0 || n > functions.len() {
        Ok(f)
    } else {
        match after_entries(functions, (n - 1) as nat, seen, f) {
            Err(e) => Err(e),
            Ok(g) => after_entry(functions[n - 1], seen, g),
        }
    }
}

pub open spec fn after_entry(function: FunctionModel, seen: Seen, g: Followed) -> Result<
    Followed,
    TraceError,
> {
    if function.entry_pc != seen.pc {
        Ok(g)
    } else if !g.expecting_function {
        Err(TraceError::EntryWithoutCall)
    } else {
        Ok(
            Followed {
                steps: g.steps.push(
                    StepModel {
                        location: function.root_block.location,
                        variables_in_scope: Seq::empty(),
                        path: seen.path,
                        call_trace: entries(g.calls),
                        kind: StepKindModel::FunctionDefinition(function.name),
                        memory: seen.memory,
                        stack: seen.stack,
                    },
                ),
                calls: if g.steps.len() == 0 {
                    g.calls
                } else {
                    g.calls.push((function.name, g.steps.len()))
                },
                expecting_function: false,
            },
        )
    }
}

/// `f` with those of the first `n` functions left that end at the instruction. The function that
/// was entered first is not listed among the calls, so leaving it changes nothing.
pub open spec fn after_exits(functions: Seq<FunctionModel>, n: nat, pc: usize, f: Followed) -> Result<
    Followed,
    TraceError,
>
    decreases n,
{
    if n == 0 || n > functions.len() {
        Ok(f)
    } else {
        match after_exits(functions, (n - 1) as nat, pc, f) {
            Err(e) => Err(e),
            Ok(g) => after_exit(functions[n - 1], pc, g),
        }
    }
}

pub open spec fn after_exit(function: FunctionModel, pc: usize, g: Followed) -> Result<
    Followed,
    TraceError,
> {
    if function.exit_pc != pc {
        Ok(g)
    } else if g.expecting_function {
        Err(TraceError::ExitWithoutCall)
    } else if g.calls.len() == 0 {
        Ok(g)
    } else if g.calls.last().0 != function.name {
        Err(TraceError::ExitOfOtherFunction)
    } else {
        Ok(Followed { calls: g.calls.drop_last(), ..g })
    }
}

/// `f` with the statement or call that stands at the instruction.
pub open spec fn after_instruction(unit: UnitModel, seen: Seen, f: Followed) -> Result<
    Followed,
    TraceError,
> {
    match location_at(unit, seen.pc) {
        None => Ok(f),
        Some((instruction, vars)) => if f.expecting_function {
            Err(TraceError::CallWithoutEntry)
        } else {
            let is_call = instruction.kind == InstructionKind::FunctionCall;
            Ok(
                Followed {
                    steps: f.steps.push(
                        StepModel {
                            location: instruction.location,
                            variables_in_scope: vars,
                            path: seen.path,
                            call_trace: entries(f.calls),
                            kind: if is_call {
                                StepKindModel::FunctionCall
                            } else {
                                StepKindModel::Statement
                            },
                            memory: seen.memory,
                            stack: seen.stack,
                        },
                    ),
                    expecting_function: is_call,
                    ..f
                },
            )
        },
    }
}

/// `f` after one instruction of the contract.
pub open spec fn in_contract(unit: UnitModel, seen: Seen, f: Followed) -> Result<
    Followed,
    TraceError,
> {
    match after_entries(unit.functions, unit.functions.len(), seen, f) {
        Err(e) => Err(e),
        Ok(g) => match after_exits(unit.functions, unit.functions.len(), seen.pc, g) {
            Err(e) => Err(e),
            Ok(h) => after_instruction(unit, seen, h),
        },
    }
}

/// The place of the first of the contracts from `i` on at this address.
pub open spec fn address_place(
    contracts: Seq<(ContractAddress, String)>,
    address: ContractAddress,
    i: nat,
) -> Option<nat>
    decreases (if i < contracts.len() { contracts.len() - i } else { 0 }),
{
    if i >= contracts.len() {
        None
    } else if contracts[i as int].0@ == address@ {
        Some(i)
    } else {
        address_place(contracts, address, i + 1)
    }
}

/// The debug information of the contract at this address, where there is any.
pub open spec fn unit_at(
    contracts: Seq<(ContractAddress, String)>,
    units: Seq<(Seq<char>, UnitModel)>,
    address: ContractAddress,
) -> Option<UnitModel> {
    match address_place(contracts, address, 0) {
        Some(i) => unit_named(units, contracts[i as int].1@),
        None => None,
    }
}

/// `f` after one recorded instruction; one of an unknown contract changes nothing.
pub open spec fn after_step(
    contracts: Seq<(ContractAddress, String)>,
    units: Seq<(Seq<char>, UnitModel)>,
    step: CallTraceStep,
    f: Followed,
) -> Result<Followed, TraceError> {
    match step.memory {
        None => Err(TraceError::MissingMemory),
        Some(memory) => match step.stack {
            None => Err(TraceError::MissingStack),
            Some(stack) => match unit_at(contracts, units, step.contract) {
                None => Ok(f),
                Some(unit) => in_contract(
                    unit,
                    Seen {
                        pc: step.pc,
                        path: unit.path,
                        memory: memory@,
                        stack: stack_bytes(stack@),
                    },
                    f,
                ),
            },
        },
    }
}

/// `f` after the recorded instructions from `i` on.
pub open spec fn after_steps(
    contracts: Seq<(ContractAddress, String)>,
    units: Seq<(Seq<char>, UnitModel)>,
    steps: Seq<CallTraceStep>,
    i: nat,
    f: Followed,
) -> Result<Followed, TraceError>
    decreases (if i < steps.len() { steps.len() - i } else { 0 }),
{
    if i >= steps.len() {
        Ok(f)
    } else {
        match after_step(contracts, units, steps[i as int], f) {
            Err(e) => Err(e),
            Ok(g) => after_steps(contracts, units, steps, i + 1, g),
        }
    }
}

/// `f` after the recorded calls from `i` on.
pub open spec fn after_nodes(
    contracts: Seq<(ContractAddress, String)>,
    units: Seq<(Seq<char>, UnitModel)>,
    arena: Seq<DebugNode>,
    i: nat,
    f: Followed,
) -> Result<Followed, TraceError>
    decreases (if i < arena.len() { arena.len() - i } else { 0 }),
{
    if i >= arena.len() {
        Ok(f)
    } else {
        match after_steps(contracts, units, arena[i as int].steps@, 0, f) {
            Err(e) => Err(e),
            Ok(g) => after_nodes(contracts, units, arena, i + 1, g),
        }
    }
}

/// The start of a run: its first function is about to be entered.
pub open spec fn nothing_followed() -> Followed {
    Followed { steps: Seq::empty(), calls: Seq::empty(), expecting_function: true }
}

/// The steps of a recorded run.
pub open spec fn run_steps(context: DebuggerContext, units: Seq<(Seq<char>, UnitModel)>) -> Result<
    Seq<StepModel>,
    TraceError,
> {
    match after_nodes(
        context.contracts.identified_contracts@,
        units,
        context.debug_arena@,
        0,
        nothing_followed(),
    ) {
        Err(e) => Err(e),
        Ok(f) => if f.steps.len() == 0 {
            Err(TraceError::NoSteps)
        } else if f.steps.last().call_trace.len() != 0 {
            Err(TraceError::UnfinishedCall)
        } else {
            Ok(f.steps)
        },
    }
}

/// `done` with the first `n` variables by identifier; a later one counts.
pub open spec fn with_variables(
    done: Map<u64, VariableModel>,
    vars: Seq<VariableModel>,
    n: nat,
) -> Map<u64, VariableModel>
    decreases n,
{
    if n == 0 || n > vars.len() {
        done
    } else {
        with_variables(done, vars, (n - 1) as nat).insert(vars[n - 1].id, vars[n - 1])
    }
}

/// The variables of the first `n` contracts by identifier; a later one counts.
pub open spec fn unit_variables(units: Seq<(Seq<char>, UnitModel)>, n: nat) -> Map<
    u64,
    VariableModel,
>
    decreases n,
{
    if n == 0 || n > units.len() {
        Map::empty()
    } else {
        let vars = units[n - 1].1.variables;
        with_variables(unit_variables(units, (n - 1) as nat), vars, vars.len())
    }
}

struct Follower {
    steps: Vec<DebugStep>,
    // the functions that have been entered, each with the position of its entry in `steps`
    calls: Vec<(String, usize)>,
    expecting_function: bool,
}

pub open spec fn call_models(calls: Seq<(String, usize)>) -> Seq<(Seq<char>, nat)> {
    calls.map_values(|c: (String, usize)| (c.0@, c.1 as nat))
}

fn copy_stack(stack: &Vec<Vec<u8>>) -> (r: Vec<Vec<u8>>)
    ensures
        byte_lists(r@) == byte_lists(stack@),
{
    let mut copy: Vec<Vec<u8>> = Vec::new();
    let mut i: usize = 0;
    while i < stack.len()
        invariant
            i <= stack@.len(),
            copy@.len() == i,
            forall|k: int| 0 <= k < i ==> (#[trigger] copy@[k])@ == stack@[k]@,
        decreases stack@.len() - i,
    {
        copy.push(slice_to_vec(stack[i].as_slice()));
        i = i + 1;
    }
    assert(byte_lists(copy@) =~= byte_lists(stack@));
    copy
}

fn reversed(word: &Word) -> (r: Vec<u8>)
    ensures
        r@ == word@.reverse(),
{
    let mut bytes: Vec<u8> = Vec::new();
    let mut i: usize = 32;
    while i > 0
        invariant
            i <= 32,
            bytes@.len() == 32 - i,
            forall|k: int| 0 <= k < 32 - i ==> #[trigger] bytes@[k] == word@[31 - k],
        decreases i,
    {
        i = i - 1;
        bytes.push(word[i]);
    }
    assert(bytes@ =~= word@.reverse());
    bytes
}

fn words_to_bytes(stack: &Vec<Word>) -> (r: Vec<Vec<u8>>)
    ensures
        byte_lists(r@) == stack_bytes(stack@),
{
    let mut bytes: Vec<Vec<u8>> = Vec::new();
    let mut i: usize = 0;
    while i < stack.len()
        invariant
            i <= stack@.len(),
            bytes@.len() == i,
            forall|k: int| 0 <= k < i ==> (#[trigger] bytes@[k])@ == stack@[k]@.reverse(),
        decreases stack@.len() - i,
    {
        bytes.push(reversed(&stack[i]));
        i = i + 1;
    }
    assert(byte_lists(bytes@) =~= stack_bytes(stack@));
    bytes
}

impl Follower {
    spec fn model(self) -> Followed {
        Followed {
            steps: step_models(self.steps@),
            calls: call_models(self.calls@),
            expecting_function: self.expecting_function,
        }
    }

    fn call_trace(&self) -> (r: Vec<usize>)
        ensures
            as_nats(r@) == entries(self.model().calls),
    {
        let mut positions: Vec<usize> = Vec::new();
        let mut i: usize = 0;
        while i < self.calls.len()
            invariant
                i <= self.calls@.len(),
                positions@.len() == i,
                forall|k: int| 0 <= k < i ==> #[trigger] positions@[k] == self.calls@[k].1,
            decreases self.calls@.len() - i,
        {
            positions.push(self.calls[i].1);
            i = i + 1;
        }
        assert(as_nats(positions@) =~= entries(self.model().calls));
        positions
    }

    fn push_step(&mut self, step: DebugStep)
        ensures
            final(self).model() == (Followed {
                steps: old(self).model().steps.push(step@),
                ..old(self).model()
            }),
    {
        let ghost before = step_models(self.steps@);
        let ghost added = step@;
        self.steps.push(step);
        assert(step_models(self.steps@) =~= before.push(added));
    }

    fn enter_functions(
        &mut self,
        unit: &DebugUnit,
        pc: usize,
        memory: &Vec<u8>,
        stack: &Vec<Vec<u8>>,
    ) -> (r: Result<(), TraceError>)
        ensures
            match after_entries(
                unit@.functions,
                unit@.functions.len(),
                (Seen { pc, path: unit@.path, memory: memory@, stack: byte_lists(stack@) }),
                old(self).model(),
            ) {
                Err(e) => r == Err::<(), TraceError>(e),
                Ok(f) => r is Ok && final(self).model() == f,
            },
    {
        let ghost functions = unit@.functions;
        let ghost seen = Seen {
            pc,
            path: unit@.path,
            memory: memory@,
            stack: byte_lists(stack@),
        };
        let ghost start = self.model();
        let mut i: usize = 0;
        while i < unit.functions.len()
            invariant
                i <= unit.functions@.len(),
                functions == unit@.functions,
                seen == (Seen { pc, path: unit@.path, memory: memory@, stack: byte_lists(stack@) }),
                start == old(self).model(),
                after_entries(functions, i as nat, seen, start) == Ok::<Followed, TraceError>(
                    self.model(),
                ),
            decreases unit.functions@.len() - i,
        {
            let func = &unit.functions[i];
            assert(functions[i as int] == func@);
            let ghost before = self.model();
            if func.entry_pc == pc {
                if !self.expecting_function {
                    proof {
                        lemma_entries_fail(functions, (i + 1) as nat, seen, start);
                    }
                    return Err(TraceError::EntryWithoutCall);
                }
                self.expecting_function = false;
                let position: usize = self.steps.len();
                let step = DebugStep {
                    location: func.root_block.location,
                    variables_in_scope: Vec::new(),
                    path: unit.path.clone(),
                    call_trace: self.call_trace(),
                    kind: StepKind::FunctionDefinition(func.name.clone()),
                    memory: slice_to_vec(memory.as_slice()),
                    stack: copy_stack(stack),
                };
                assert(step@.variables_in_scope =~= Seq::<usize>::empty());
                self.push_step(step);
                if position != 0 {
                    // the root function call is not added
                    let ghost calls = self.model().calls;
                    self.calls.push((func.name.clone(), position));
                    assert(call_models(self.calls@) =~= calls.push((func.name@, position as nat)));
                }
                assert(after_entry(func@, seen, before) == Ok::<Followed, TraceError>(
                    self.model(),
                ));
            }
            i = i + 1;
        }
        Ok(())
    }

    fn leave_functions(&mut self, unit: &DebugUnit, pc: usize) -> (r: Result<(), TraceError>)
        ensures
            match after_exits(unit@.functions, unit@.functions.len(), pc, old(self).model()) {
                Err(e) => r == Err::<(), TraceError>(e),
                Ok(f) => r is Ok && final(self).model() == f,
            },
    {
        let ghost functions = unit@.functions;
        let ghost start = self.model();
        let mut i: usize = 0;
        while i < unit.functions.len()
            invariant
                i <= unit.functions@.len(),
                functions == unit@.functions,
                start == old(self).model(),
                after_exits(functions, i as nat, pc, start) == Ok::<Followed, TraceError>(
                    self.model(),
                ),
            decreases unit.functions@.len() - i,
        {
            let func = &unit.functions[i];
            assert(functions[i as int] == func@);
            if func.exit_pc == pc {
                proof {
                    if after_exits(functions, (i + 1) as nat, pc, start) is Err {
                        lemma_exits_fail(functions, (i + 1) as nat, pc, start);
                    }
                }
                if self.expecting_function {
                    return Err(TraceError::ExitWithoutCall);
                }
                // the function that is left must be the last one entered
                let ghost calls = self.model().calls;
                let ghost raw = self.calls@;
                if let Some(last_call) = self.calls.pop() {
                    assert(calls.last() == (last_call.0@, last_call.1 as nat));
                    if !same_text(last_call.0.as_str(), func.name.as_str()) {
                        return Err(TraceError::ExitOfOtherFunction);
                    }
                    assert(call_models(self.calls@) =~= calls.drop_last());
                } else {
                    assert(call_models(self.calls@) =~= calls);
                }
            }
            i = i + 1;
        }
        Ok(())
    }

    fn follow_step(
        &mut self,
        context: &DebuggerContext,
        units: &Vec<(String, DebugUnit)>,
        step: &CallTraceStep,
    ) -> (r: Result<(), TraceError>)
        ensures
            match after_step(
                context.contracts.identified_contracts@,
                unit_models(units@),
                *step,
                old(self).model(),
            ) {
                Err(e) => r == Err::<(), TraceError>(e),
                Ok(f) => r is Ok && final(self).model() == f,
            },
    {
        let memory: &Vec<u8> = match &step.memory {
            Some(memory) => memory,
            None => {
                return Err(TraceError::MissingMemory);
            },
        };
        let stack: Vec<Vec<u8>> = match &step.stack {
            Some(stack) => words_to_bytes(stack),
            None => {
                return Err(TraceError::MissingStack);
            },
        };
        let name: &String = match context.contracts.find(&step.contract) {
            Some(name) => name,
            None => {
                return Ok(());
            },
        };
        let unit: &DebugUnit = match find_unit(units, name.as_str()) {
            Some(unit) => unit,
            None => {
                return Ok(());
            },
        };
        match self.enter_functions(unit, step.pc, memory, &stack) {
            Ok(()) => {},
            Err(e) => {
                return Err(e);
            },
        }
        match self.leave_functions(unit, step.pc) {
            Ok(()) => {},
            Err(e) => {
                return Err(e);
            },
        }
        if let (Some(instruction), variables_in_scope) = unit.get_location_at_pc(step.pc) {
            if self.expecting_function {
                return Err(TraceError::CallWithoutEntry);
            }
            let is_call: bool = match instruction.kind {
                InstructionKind::FunctionCall => true,
                _ => false,
            };
            let call_trace = self.call_trace();
            self.expecting_function = is_call;
            self.push_step(
                DebugStep {
                    location: instruction.location,
                    variables_in_scope,
                    path: unit.path.clone(),
                    call_trace,
                    kind: if is_call {
                        StepKind::FunctionCall
                    } else {
                        StepKind::Statement
                    },
                    memory: slice_to_vec(memory.as_slice()),
                    stack,
                },
            );
        }
        Ok(())
    }
}

proof fn lemma_entries_fail(functions: Seq<FunctionModel>, n: nat, seen: Seen, f: Followed)
    requires
        0 < n <= functions.len(),
        after_entries(functions, n, seen, f) is Err,
    ensures
        after_entries(functions, functions.len(), seen, f) == after_entries(functions, n, seen, f),
    decreases functions.len() - n,
{
    if n < functions.len() {
        lemma_entries_fail(functions, n + 1, seen, f);
    }
}

proof fn lemma_exits_fail(functions: Seq<FunctionModel>, n: nat, pc: usize, f: Followed)
    requires
        0 < n <= functions.len(),
        after_exits(functions, n, pc, f) is Err,
    ensures
        after_exits(functions, functions.len(), pc, f) == after_exits(functions, n, pc, f),
    decreases functions.len() - n,
{
    if n < functions.len() {
        lemma_exits_fail(functions, n + 1, pc, f);
    }
}

fn same_address(a: &ContractAddress, b: &ContractAddress) -> (r: bool)
    ensures
        r == (a@ == b@),
{
    let mut i: usize = 0;
    while i < 20
        invariant
            i <= 20,
            forall|k: int| 0 <= k < i ==> #[trigger] a@[k] == b@[k],
        decreases 20 - i,
    {
        if a[i] != b[i] {
            assert(a@[i as int] != b@[i as int]);
            return false;
        }
        i = i + 1;
    }
    assert(a@ =~= b@);
    true
}

impl ContractsDump {
    /// The name of the contract at this address.
    pub fn find(&self, address: &ContractAddress) -> (r: Option<&String>)
        ensures
            match address_place(self.identified_contracts@, *address, 0) {
                Some(i) => r == Some(&self.identified_contracts@[i as int].1),
                None => r is None,
            },
    {
        let mut i: usize = 0;
        while i < self.identified_contracts.len()
            invariant
                i <= self.identified_contracts@.len(),
                address_place(self.identified_contracts@, *address, 0) == address_place(
                    self.identified_contracts@,
                    *address,
                    i as nat,
                ),
            decreases self.identified_contracts@.len() - i,
        {
            if same_address(&self.identified_contracts[i].0, address) {
                return Some(&self.identified_contracts[i].1);
            }
            i = i + 1;
        }
        None
    }

    /// The names of the contracts that took part.
    pub fn names(&self) -> (r: Vec<String>)
        ensures
            texts(r@) == contract_names(self.identified_contracts@),
    {
        let mut names: Vec<String> = Vec::new();
        let mut i: usize = 0;
        while i < self.identified_contracts.len()
            invariant
                i <= self.identified_contracts@.len(),
                names@.len() == i,
                forall|k: int|
                    0 <= k < i ==> (#[trigger] names@[k])@ == self.identified_contracts@[k].1@,
            decreases self.identified_contracts@.len() - i,
        {
            names.push(self.identified_contracts[i].1.clone());
            i = i + 1;
        }
        assert(texts(names@) =~= contract_names(self.identified_contracts@));
        names
    }
}

pub open spec fn contract_names(contracts: Seq<(ContractAddress, String)>) -> Seq<Seq<char>> {
    contracts.map_values(|c: (ContractAddress, String)| c.1@)
}

fn collect_variables(units: &Vec<(String, DebugUnit)>) -> (r: HashMap<u64, Variable>)
    ensures
        definitions(r@) == unit_variables(unit_models(units@), units@.len()),
{
    let ghost models = unit_models(units@);
    let mut variables: HashMap<u64, Variable> = HashMap::new();
    assert(definitions(variables@) =~= Map::<u64, VariableModel>::empty());
    let mut i: usize = 0;
    while i < units.len()
        invariant
            i <= units@.len(),
            models == unit_models(units@),
            definitions(variables@) == unit_variables(models, i as nat),
        decreases units@.len() - i,
    {
        let vars: &Vec<Variable> = &units[i].1.variables;
        let ghost here = models[i as int].1.variables;
        assert(models[i as int].1 == units@[i as int].1@);
        let mut k: usize = 0;
        while k < vars.len()
            invariant
                k <= vars@.len(),
                here.len() == vars@.len(),
                forall|j: int| 0 <= j < vars@.len() ==> here[j] == (#[trigger] vars@[j])@,
                definitions(variables@) == with_variables(
                    unit_variables(models, i as nat),
                    here,
                    k as nat,
                ),
            decreases vars@.len() - k,
        {
            let ghost before = definitions(variables@);
            let var = vars[k].copy();
            let ghost added = var@;
            assert(here[k as int] == vars@[k as int]@);
            variables.insert(vars[k].id, var);
            assert(definitions(variables@) =~= before.insert(added.id, added));
            k = k + 1;
        }
        i = i + 1;
    }
    variables
}

/// Follows a recorded run through the contracts whose debug information is given.
pub fn build_trace(context: &DebuggerContext, units: &Vec<(String, DebugUnit)>) -> (r: Result<
    DebugTrace,
    TraceError,
>)
    ensures
        match run_steps(*context, unit_models(units@)) {
            Err(e) => r == Err::<DebugTrace, TraceError>(e),
            Ok(steps) => {
                &&& r is Ok
                &&& r->Ok_0.model() == steps
                &&& r->Ok_0.indx == 0
                &&& definitions(r->Ok_0.variables@) == unit_variables(
                    unit_models(units@),
                    units@.len(),
                )
            },
        },
{
    let ghost contracts = context.contracts.identified_contracts@;
    let ghost models = unit_models(units@);
    let ghost arena = context.debug_arena@;
    let ghost goal = after_nodes(contracts, models, arena, 0, nothing_followed());
    let mut follower = Follower { steps: Vec::new(), calls: Vec::new(), expecting_function: true };
    assert(follower.model().steps =~= Seq::<StepModel>::empty());
    assert(follower.model().calls =~= Seq::<(Seq<char>, nat)>::empty());
    let mut i: usize = 0;
    while i < context.debug_arena.len()
        invariant
            i <= arena.len(),
            contracts == context.contracts.identified_contracts@,
            models == unit_models(units@),
            arena == context.debug_arena@,
            goal == after_nodes(contracts, models, arena, 0, nothing_followed()),
            goal == after_nodes(contracts, models, arena, i as nat, follower.model()),
        decreases arena.len() - i,
    {
        let steps: &Vec<CallTraceStep> = &context.debug_arena[i].steps;
        let ghost start = follower.model();
        let ghost here = after_steps(contracts, models, steps@, 0, start);
        let mut k: usize = 0;
        while k < steps.len()
            invariant
                k <= steps@.len(),
                i < arena.len(),
                contracts == context.contracts.identified_contracts@,
                models == unit_models(units@),
                arena == context.debug_arena@,
                steps@ == arena[i as int].steps@,
                goal == after_nodes(contracts, models, arena, 0, nothing_followed()),
                goal == after_nodes(contracts, models, arena, i as nat, start),
                here == after_steps(contracts, models, steps@, 0, start),
                here == after_steps(contracts, models, steps@, k as nat, follower.model()),
            decreases steps@.len() - k,
        {
            match follower.follow_step(context, units, &steps[k]) {
                Ok(()) => {},
                Err(e) => {
                    return Err(e);
                },
            }
            k = k + 1;
        }
        i = i + 1;
    }
    let n: usize = follower.steps.len();
    if n == 0 {
        return Err(TraceError::NoSteps);
    }
    assert(follower.model().steps.last() == follower.steps@.last()@);
    // the last step is outside of all calls
    if follower.steps[n - 1].call_trace.len() != 0 {
        return Err(TraceError::UnfinishedCall);
    }
    Ok(DebugTrace { steps: follower.steps, variables: collect_variables(units), indx: 0 })
}

/// Follows a recorded run through the contracts that took part in it, with their debug information
/// collected from the build.
pub fn example1(context: &DebuggerContext, artifacts: &Vec<Artifact>) -> (r: Result<
    DebugTrace,
    TraceError,
>)
    ensures
        match with_artifacts(
            artifacts@,
            0,
            Some(contract_names(context.contracts.identified_contracts@)),
            Seq::empty(),
        ) {
            Err(e) => r == Err::<DebugTrace, TraceError>(TraceError::Units(e)),
            Ok(units) => match run_steps(*context, units) {
                Err(e) => r == Err::<DebugTrace, TraceError>(e),
                Ok(steps) => {
                    &&& r is Ok
                    &&& r->Ok_0.model() == steps
                    &&& r->Ok_0.indx == 0
                    &&& definitions(r->Ok_0.variables@) == unit_variables(units, units.len())
                    &&& r->Ok_0.sound()
                },
            },
        },
{
    let names = context.contracts.names();
    match generate_debug_units(artifacts, Some(&names)) {
        Ok(units) => {
            let r = build_trace(context, &units);
            proof {
                let models = unit_models(units@);
                law_units_are_sound(artifacts@, 0, names_model(Some(&names)), Seq::empty());
                if run_steps(*context, models) is Ok {
                    law_traces_are_sound(*context, models);
                }
            }
            r
        },
        Err(e) => Err(TraceError::Units(e)),
    }
}

} // verus!

//! What the debugger knows of a contract: its functions, their blocks and instructions, and
//! its variables.

use vstd::prelude::*;

use crate::text::same_text;

verus! {

/// A range of a source file. A line is given as the number of lines in the text before the position;
/// columns and offsets count bytes from zero.
#[derive(Clone, Copy, Debug, PartialEq, Eq, Structural)]
pub struct SourceLocation {
    pub line: usize,
    pub column: usize,
    pub end_line: Option<usize>,
    pub end_column: Option<usize>,
    pub start_offset: usize,
    pub length: Option<usize>,
}

impl Default for SourceLocation {
    fn default() -> (r: SourceLocation)
        ensures
            r == no_location(),
    {
        SourceLocation {
            line: 0,
            column: 0,
            end_line: None,
            end_column: None,
            start_offset: 0,
            length: None,
        }
    }
}

/// The location of what has none.
pub open spec fn no_location() -> SourceLocation {
    SourceLocation {
        line: 0,
        column: 0,
        end_line: None,
        end_column: None,
        start_offset: 0,
        length: None,
    }
}

#[derive(Clone, Copy, Debug, PartialEq, Eq, Structural)]
pub enum InstructionKind {
    /// Declares the variable with this identifier.
    VariableDeclaration(usize),
    Statement,
    FunctionCall,
}

#[derive(Clone, Copy, Debug, PartialEq, Eq, Structural)]
pub struct Instruction {
    pub pc: usize,
    pub location: SourceLocation,
    pub kind: InstructionKind,
}

#[derive(Debug, PartialEq)]
pub struct Variable {
    pub name: String,
    pub id: u64,
    pub location: SourceLocation,
    pub state_variable: bool,
}

#[derive(Clone, Copy, Debug, PartialEq, Eq, Structural, Hash)]
pub struct VariableId(pub u64);

#[derive(Debug, PartialEq)]
pub struct Block {
    pub variables: Vec<usize>,
    /// For if conditions and loop conditions.
    pub condition: Option<Instruction>,
    /// The statements in this block.
    pub instructions: Vec<Instruction>,
    /// Nested scopes (if/else bodies, loop bodies).
    pub scopes: Vec<Block>,
    pub location: SourceLocation,
}

#[derive(Debug, PartialEq)]
pub struct Function {
    pub name: String,
    pub entry_pc: usize,
    pub exit_pc: usize,
    pub root_block: Block,
    pub parameters: Vec<Variable>,
}

/// What is known of one contract. No two functions have one name.
#[derive(Debug, PartialEq)]
pub struct DebugUnit {
    pub name: String,
    pub path: String,
    pub functions: Vec<Function>,
    pub variables: Vec<Variable>,
}

/// A [`Variable`] with its name as a sequence of characters.
pub struct VariableModel {
    pub name: Seq<char>,
    pub id: u64,
    pub location: SourceLocation,
    pub state_variable: bool,
}

/// A [`Block`] with its lists as sequences.
pub struct BlockModel {
    pub variables: Seq<usize>,
    pub condition: Option<Instruction>,
    pub instructions: Seq<Instruction>,
    pub scopes: Seq<BlockModel>,
    pub location: SourceLocation,
}

/// A [`Function`] with its lists as sequences.
pub struct FunctionModel {
    pub name: Seq<char>,
    pub entry_pc: usize,
    pub exit_pc: usize,
    pub root_block: BlockModel,
    pub parameters: Seq<VariableModel>,
}

/// A [`DebugUnit`] with its lists as sequences.
pub struct UnitModel {
    pub name: Seq<char>,
    pub path: Seq<char>,
    pub functions: Seq<FunctionModel>,
    pub variables: Seq<VariableModel>,
}

impl View for Variable {
    type V = VariableModel;

    open spec fn view(&self) -> VariableModel {
        VariableModel {
            name: self.name@,
            id: self.id,
            location: self.location,
            state_variable: self.state_variable,
        }
    }
}

impl View for Block {
    type V = BlockModel;

    open spec fn view(&self) -> BlockModel {
        block_model(*self)
    }
}

impl View for Function {
    type V = FunctionModel;

    open spec fn view(&self) -> FunctionModel {
        FunctionModel {
            name: self.name@,
            entry_pc: self.entry_pc,
            exit_pc: self.exit_pc,
            root_block: self.root_block@,
            parameters: variable_models(self.parameters@),
        }
    }
}

impl View for DebugUnit {
    type V = UnitModel;

    open spec fn view(&self) -> UnitModel {
        UnitModel {
            name: self.name@,
            path: self.path@,
            functions: function_models(self.functions@),
            variables: variable_models(self.variables@),
        }
    }
}

pub open spec fn empty_block() -> BlockModel {
    BlockModel {
        variables: Seq::empty(),
        condition: None,
        instructions: Seq::empty(),
        scopes: Seq::empty(),
        location: no_location(),
    }
}

pub open spec fn block_model(b: Block) -> BlockModel
    decreases b,
{
    BlockModel {
        variables: b.variables@,
        condition: b.condition,
        instructions: b.instructions@,
        scopes: Seq::new(
            b.scopes@.len(),
            |i: int|
                if 0 <= i < b.scopes@.len() {
                    block_model(b.scopes@[i])
                } else {
                    empty_block()
                },
        ),
        location: b.location,
    }
}

pub open spec fn block_models(blocks: Seq<Block>) -> Seq<BlockModel> {
    blocks.map_values(|b: Block| b@)
}

pub open spec fn variable_models(vars: Seq<Variable>) -> Seq<VariableModel> {
    vars.map_values(|v: Variable| v@)
}

pub open spec fn function_models(functions: Seq<Function>) -> Seq<FunctionModel> {
    functions.map_values(|f: Function| f@)
}

pub proof fn lemma_block_scopes(b: Block)
    ensures
        b@.scopes == block_models(b.scopes@),
{
    assert(b@.scopes =~= block_models(b.scopes@));
}

impl Default for Block {
    fn default() -> (r: Block)
        ensures
            r@ == empty_block(),
    {
        let r = Block {
            variables: Vec::new(),
            condition: None,
            instructions: Vec::new(),
            scopes: Vec::new(),
            location: SourceLocation::default(),
        };
        assert(r@.variables =~= Seq::<usize>::empty());
        assert(r@.instructions =~= Seq::<Instruction>::empty());
        assert(r@.scopes =~= Seq::<BlockModel>::empty());
        r
    }
}

impl Variable {
    /// The same variable once more.
    pub fn copy(&self) -> (r: Variable)
        ensures
            r@ == self@,
    {
        Variable {
            name: self.name.clone(),
            id: self.id,
            location: self.location,
            state_variable: self.state_variable,
        }
    }
}

/// The identifiers that the first `n` of `instructions` declare, in order.
pub open spec fn declared(instructions: Seq<Instruction>, n: nat) -> Seq<usize>
    decreases n,
{
    if n == 0 || n > instructions.len() {
        Seq::empty()
    } else {
        let before = declared(instructions, (n - 1) as nat);
        match instructions[n - 1].kind {
            InstructionKind::VariableDeclaration(id) => before.push(id),
            _ => before,
        }
    }
}

/// The number of the first of the instructions from `i` on that stands at `pc`.
pub open spec fn first_at(instructions: Seq<Instruction>, pc: usize, i: nat) -> Option<nat>
    decreases (if i < instructions.len() { instructions.len() - i } else { 0 }),
{
    if i >= instructions.len() {
        None
    } else if instructions[i as int].pc == pc {
        Some(i)
    } else {
        first_at(instructions, pc, i + 1)
    }
}

/// The instruction at `pc` in the block, and the variables in scope there when `vars` are in
/// scope at the start of the block: the block's own instructions come first, then its scopes
/// in order, then its condition.
pub open spec fn found_in(block: BlockModel, pc: usize, vars: Seq<usize>) -> Option<
    (Instruction, Seq<usize>),
>
    decreases block, 0nat,
{
    match first_at(block.instructions, pc, 0) {
        Some(i) => Some((block.instructions[i as int], vars + declared(block.instructions, i + 1))),
        None => {
            let inner = vars + declared(block.instructions, block.instructions.len());
            match found_in_scopes(block.scopes, block.scopes.len(), pc, inner) {
                Some(found) => Some(found),
                None => match block.condition {
                    Some(cond) if cond.pc == pc => Some((cond, inner)),
                    _ => None,
                },
            }
        },
    }
}

/// What the first of the first `n` scopes that has an instruction at `pc` says of it.
pub open spec fn found_in_scopes(
    scopes: Seq<BlockModel>,
    n: nat,
    pc: usize,
    vars: Seq<usize>,
) -> Option<(Instruction, Seq<usize>)>
    decreases scopes, n,
{
    if n == 0 || n > scopes.len() {
        None
    } else {
        match found_in_scopes(scopes, (n - 1) as nat, pc, vars) {
            Some(found) => Some(found),
            None => found_in(scopes[n - 1], pc, vars),
        }
    }
}

/// The identifiers of the state variables among the first `n` of `vars`.
pub open spec fn state_ids(vars: Seq<VariableModel>, n: nat) -> Seq<usize>
    decreases n,
{
    if n == 0 || n > vars.len() {
        Seq::empty()
    } else {
        let before = state_ids(vars, (n - 1) as nat);
        if vars[n - 1].state_variable {
            before.push(vars[n - 1].id as usize)
        } else {
            before
        }
    }
}

/// What the first of the first `n` functions that has an instruction at `pc` says of it.
pub open spec fn found_in_functions(
    functions: Seq<FunctionModel>,
    n: nat,
    pc: usize,
    vars: Seq<usize>,
) -> Option<(Instruction, Seq<usize>)>
    decreases n,
{
    if n == 0 || n > functions.len() {
        None
    } else {
        match found_in_functions(functions, (n - 1) as nat, pc, vars) {
            Some(found) => Some(found),
            None => found_in(functions[n - 1].root_block, pc, vars),
        }
    }
}

/// The instruction of the contract at `pc`, and the variables in scope there.
pub open spec fn location_at(unit: UnitModel, pc: usize) -> Option<(Instruction, Seq<usize>)> {
    found_in_functions(
        unit.functions,
        unit.functions.len(),
        pc,
        state_ids(unit.variables, unit.variables.len()),
    )
}

/// A found instruction with its variables, where the search hands them out by reference.
pub open spec fn found_model(r: (Option<&Instruction>, Vec<usize>)) -> Option<
    (Instruction, Seq<usize>),
> {
    match r.0 {
        Some(inst) => Some((*inst, r.1@)),
        None => None,
    }
}

fn search_block<'a>(block: &'a Block, pc: usize, parent_vars: &Vec<usize>) -> (r: (
    Option<&'a Instruction>,
    Vec<usize>,
))
    ensures
        found_model(r) == found_in(block@, pc, parent_vars@),
    decreases block,
{
    let mut vars_in_scope: Vec<usize> = Vec::new();
    let mut j: usize = 0;
    while j < parent_vars.len()
        invariant
            j <= parent_vars@.len(),
            vars_in_scope@ == parent_vars@.subrange(0, j as int),
        decreases parent_vars@.len() - j,
    {
        vars_in_scope.push(parent_vars[j]);
        j = j + 1;
        assert(vars_in_scope@ =~= parent_vars@.subrange(0, j as int));
    }
    assert(vars_in_scope@ =~= parent_vars@ + declared(block.instructions@, 0));
    let mut i: usize = 0;
    while i < block.instructions.len()
        invariant
            i <= block.instructions@.len(),
            first_at(block.instructions@, pc, 0) == first_at(block.instructions@, pc, i as nat),
            vars_in_scope@ == parent_vars@ + declared(block.instructions@, i as nat),
        decreases block.instructions@.len() - i,
    {
        let inst: &Instruction = &block.instructions[i];
        if let InstructionKind::VariableDeclaration(id) = inst.kind {
            vars_in_scope.push(id);
        }
        assert(vars_in_scope@ =~= parent_vars@ + declared(block.instructions@, (i + 1) as nat));
        if inst.pc == pc {
            return (Some(inst), vars_in_scope);
        }
        i = i + 1;
    }
    proof {
        lemma_block_scopes(*block);
    }
    let ghost inner = vars_in_scope@;
    let ghost scopes = block@.scopes;
    let mut s: usize = 0;
    while s < block.scopes.len()
        invariant
            s <= block.scopes@.len(),
            scopes == block_models(block.scopes@),
            vars_in_scope@ == inner,
            found_in_scopes(scopes, s as nat, pc, inner) is None,
            first_at(block.instructions@, pc, 0) is None,
            block@.instructions == block.instructions@,
            block@.scopes == scopes,
            inner == parent_vars@ + declared(block.instructions@, block.instructions@.len()),
            decreases_to!(block => block.scopes@),
        decreases block.scopes@.len() - s,
    {
        let (found, vars) = search_block(&block.scopes[s], pc, &vars_in_scope);
        proof {
            assert(scopes[s as int] == block.scopes@[s as int]@);
        }
        if found.is_some() {
            proof {
                lemma_scopes_settle(scopes, (s + 1) as nat, pc, inner);
            }
            return (found, vars);
        }
        s = s + 1;
    }
    if let Some(cond) = &block.condition {
        if cond.pc == pc {
            return (Some(cond), vars_in_scope);
        }
    }
    (None, vars_in_scope)
}

proof fn lemma_scopes_settle(scopes: Seq<BlockModel>, n: nat, pc: usize, vars: Seq<usize>)
    requires
        n <= scopes.len(),
        found_in_scopes(scopes, n, pc, vars) is Some,
    ensures
        found_in_scopes(scopes, scopes.len(), pc, vars) == found_in_scopes(scopes, n, pc, vars),
    decreases scopes.len() - n,
{
    if n < scopes.len() {
        lemma_scopes_settle(scopes, n + 1, pc, vars);
    }
}

proof fn lemma_functions_settle(functions: Seq<FunctionModel>, n: nat, pc: usize, vars: Seq<usize>)
    requires
        n <= functions.len(),
        found_in_functions(functions, n, pc, vars) is Some,
    ensures
        found_in_functions(functions, functions.len(), pc, vars) == found_in_functions(
            functions,
            n,
            pc,
            vars,
        ),
    decreases functions.len() - n,
{
    if n < functions.len() {
        lemma_functions_settle(functions, n + 1, pc, vars);
    }
}

impl DebugUnit {
    /// The instruction at `pc`, and the identifiers of the variables in scope there: the state
    /// variables and those declared so far in the blocks around it.
    pub fn get_location_at_pc(&self, pc: usize) -> (r: (Option<&Instruction>, Vec<usize>))
        ensures
            found_model(r) == location_at(self@, pc),
            r.0 is None ==> r.1@.len() == 0,
    {
        let mut vars_in_scope: Vec<usize> = Vec::new();
        let mut v: usize = 0;
        while v < self.variables.len()
            invariant
                v <= self.variables@.len(),
                vars_in_scope@ == state_ids(self@.variables, v as nat),
            decreases self.variables@.len() - v,
        {
            assert(self@.variables[v as int] == self.variables@[v as int]@);
            if self.variables[v].state_variable {
                vars_in_scope.push(self.variables[v].id as usize);
            }
            v = v + 1;
        }
        let mut f: usize = 0;
        while f < self.functions.len()
            invariant
                f <= self.functions@.len(),
                vars_in_scope@ == state_ids(self@.variables, self@.variables.len()),
                found_in_functions(self@.functions, f as nat, pc, vars_in_scope@) is None,
            decreases self.functions@.len() - f,
        {
            assert(self@.functions[f as int] == self.functions@[f as int]@);
            let (found, vars) = search_block(&self.functions[f].root_block, pc, &vars_in_scope);
            if found.is_some() {
                proof {
                    lemma_functions_settle(
                        self@.functions,
                        (f + 1) as nat,
                        pc,
                        vars_in_scope@,
                    );
                }
                return (found, vars);
            }
            f = f + 1;
        }
        (None, Vec::new())
    }

    /// Adds a function; one of the same name that is there already gives way to it.
    pub fn insert_function(&mut self, function: Function)
        ensures
            final(self)@ == (UnitModel {
                functions: with_function(old(self)@.functions, function@),
                ..old(self)@
            }),
    {
        let ghost before = self@.functions;
        let mut i: usize = 0;
        while i < self.functions.len()
            invariant
                i <= self.functions@.len(),
                *self == *old(self),
                before == self@.functions,
                position_of(before, function@.name, 0) == position_of(
                    before,
                    function@.name,
                    i as nat,
                ),
            decreases self.functions@.len() - i,
        {
            assert(before[i as int] == self.functions@[i as int]@);
            if same_text(self.functions[i].name.as_str(), function.name.as_str()) {
                self.functions.set(i, function);
                assert(self@.functions =~= before.update(i as int, function@));
                return ;
            }
            i = i + 1;
        }
        self.functions.push(function);
        assert(self@.functions =~= before.push(function@));
    }
}

/// The place of the first of the functions from `i` on that has this name.
pub open spec fn position_of(functions: Seq<FunctionModel>, name: Seq<char>, i: nat) -> Option<nat>
    decreases (if i < functions.len() { functions.len() - i } else { 0 }),
{
    if i >= functions.len() {
        None
    } else if functions[i as int].name == name {
        Some(i)
    } else {
        position_of(functions, name, i + 1)
    }
}

/// The functions with `f` in the place of the one that has its name, or behind the others.
pub open spec fn with_function(functions: Seq<FunctionModel>, f: FunctionModel) -> Seq<
    FunctionModel,
> {
    match position_of(functions, f.name, 0) {
        Some(i) => functions.update(i as int, f),
        None => functions.push(f),
    }
}

/// No two functions have one name.
pub open spec fn names_differ(functions: Seq<FunctionModel>) -> bool {
    forall|i: int, j: int|
        0 <= i < j < functions.len() ==> #[trigger] functions[i].name
            != #[trigger] functions[j].name
}

pub proof fn lemma_position(functions: Seq<FunctionModel>, name: Seq<char>, i: nat)
    ensures
        match position_of(functions, name, i) {
            Some(k) => i <= k < functions.len() && functions[k as int].name == name,
            None => forall|k: int|
                i <= k < functions.len() ==> #[trigger] functions[k].name != name,
        },
    decreases (if i < functions.len() { functions.len() - i } else { 0 }),
{
    if i < functions.len() && functions[i as int].name != name {
        lemma_position(functions, name, i + 1);
    }
}

/// Adding a function keeps the names different.
pub proof fn law_names_stay_different(functions: Seq<FunctionModel>, f: FunctionModel)
    requires
        names_differ(functions),
    ensures
        names_differ(with_function(functions, f)),
        with_function(functions, f).contains(f),
{
    lemma_position(functions, f.name, 0);
    match position_of(functions, f.name, 0) {
        Some(i) => {
            assert(with_function(functions, f)[i as int] == f);
        },
        None => {
            assert(with_function(functions, f)[functions.len() as int] == f);
        },
    }
}

/// What a search finds stands at the program counter that was asked for, and sees the variables
/// that were in scope before.
pub proof fn law_found_stands_at_pc(unit: UnitModel, pc: usize)
    requires
        location_at(unit, pc) is Some,
    ensures
        location_at(unit, pc)->Some_0.0.pc == pc,
        state_ids(unit.variables, unit.variables.len()).is_prefix_of(
            location_at(unit, pc)->Some_0.1,
        ),
{
    lemma_functions_at_pc(
        unit.functions,
        unit.functions.len(),
        pc,
        state_ids(unit.variables, unit.variables.len()),
    );
}

proof fn lemma_functions_at_pc(functions: Seq<FunctionModel>, n: nat, pc: usize, vars: Seq<usize>)
    ensures
        match found_in_functions(functions, n, pc, vars) {
            Some((inst, seen)) => inst.pc == pc && vars.is_prefix_of(seen),
            None => true,
        },
    decreases n,
{
    if n > 0 && n <= functions.len() {
        lemma_functions_at_pc(functions, (n - 1) as nat, pc, vars);
        lemma_block_at_pc(functions[n - 1].root_block, pc, vars);
    }
}

proof fn lemma_first_at(instructions: Seq<Instruction>, pc: usize, i: nat)
    ensures
        match first_at(instructions, pc, i) {
            Some(k) => i <= k < instructions.len() && instructions[k as int].pc == pc,
            None => true,
        },
    decreases (if i < instructions.len() { instructions.len() - i } else { 0 }),
{
    if i < instructions.len() && instructions[i as int].pc != pc {
        lemma_first_at(instructions, pc, i + 1);
    }
}

proof fn lemma_block_at_pc(block: BlockModel, pc: usize, vars: Seq<usize>)
    ensures
        match found_in(block, pc, vars) {
            Some((inst, seen)) => inst.pc == pc && vars.is_prefix_of(seen),
            None => true,
        },
    decreases block, 0nat,
{
    lemma_first_at(block.instructions, pc, 0);
    let inner = vars + declared(block.instructions, block.instructions.len());
    lemma_scopes_at_pc(block.scopes, block.scopes.len(), pc, inner);
    if let Some((inst, seen)) = found_in(block, pc, vars) {
        assert(vars.is_prefix_of(seen)) by {
            assert(vars.is_prefix_of(inner));
        }
    }
}

proof fn lemma_scopes_at_pc(scopes: Seq<BlockModel>, n: nat, pc: usize, vars: Seq<usize>)
    ensures
        match found_in_scopes(scopes, n, pc, vars) {
            Some((inst, seen)) => inst.pc == pc && vars.is_prefix_of(seen),
            None => true,
        },
    decreases scopes, n,
{
    if n > 0 && n <= scopes.len() {
        lemma_scopes_at_pc(scopes, (n - 1) as nat, pc, vars);
        lemma_block_at_pc(scopes[n - 1], pc, vars);
    }
}

/// Some variable has this identifier.
pub open spec fn listed(vars: Seq<VariableModel>, id: usize) -> bool {
    exists|k: int| 0 <= k < vars.len() && (#[trigger] vars[k]).id == id as u64
}

pub open spec fn all_listed(vars: Seq<VariableModel>, ids: Seq<usize>) -> bool {
    forall|k: int| 0 <= k < ids.len() ==> listed(vars, #[trigger] ids[k])
}

/// Every variable that an instruction declares is listed.
pub open spec fn instructions_closed(instructions: Seq<Instruction>, vars: Seq<VariableModel>) -> bool {
    forall|i: int|
        0 <= i < instructions.len() ==> match (#[trigger] instructions[i]).kind {
            InstructionKind::VariableDeclaration(id) => listed(vars, id),
            _ => true,
        }
}

/// Every variable that is declared in the block or in its scopes is listed.
pub open spec fn block_closed(block: BlockModel, vars: Seq<VariableModel>) -> bool
    decreases block,
{
    &&& instructions_closed(block.instructions, vars)
    &&& forall|i: int|
        0 <= i < block.scopes.len() ==> block_closed(#[trigger] block.scopes[i], vars)
}

/// Every variable that is declared in the functions of the contract is listed, and identifiers
/// fit into a machine word.
pub open spec fn unit_closed(unit: UnitModel) -> bool {
    &&& forall|i: int|
        0 <= i < unit.functions.len() ==> block_closed(
            (#[trigger] unit.functions[i]).root_block,
            unit.variables,
        )
    &&& ids_fit(unit.variables)
}

pub open spec fn ids_fit(vars: Seq<VariableModel>) -> bool {
    forall|k: int| 0 <= k < vars.len() ==> (#[trigger] vars[k]).id <= usize::MAX
}

/// In a contract all of whose declared variables are listed, the variables in scope at any program
/// counter are listed.
pub proof fn law_scope_is_listed(unit: UnitModel, pc: usize)
    requires
        unit_closed(unit),
        location_at(unit, pc) is Some,
    ensures
        all_listed(unit.variables, location_at(unit, pc)->Some_0.1),
{
    let vars = state_ids(unit.variables, unit.variables.len());
    lemma_state_ids_listed(unit.variables, unit.variables.len());
    lemma_functions_listed(unit.functions, unit.functions.len(), pc, vars, unit.variables);
}

proof fn lemma_state_ids_listed(vars: Seq<VariableModel>, n: nat)
    requires
        ids_fit(vars),
    ensures
        all_listed(vars, state_ids(vars, n)),
    decreases n,
{
    if n > 0 && n <= vars.len() {
        lemma_state_ids_listed(vars, (n - 1) as nat);
        let before = state_ids(vars, (n - 1) as nat);
        let ids = state_ids(vars, n);
        assert forall|k: int| 0 <= k < ids.len() implies listed(vars, #[trigger] ids[k]) by {
            if k < before.len() {
                assert(ids[k] == before[k]);
            } else {
                assert(vars[n - 1].id == ids[k] as u64);
            }
        }
    }
}

proof fn lemma_functions_listed(
    functions: Seq<FunctionModel>,
    n: nat,
    pc: usize,
    vars: Seq<usize>,
    list: Seq<VariableModel>,
)
    requires
        all_listed(list, vars),
        forall|i: int|
            0 <= i < functions.len() ==> block_closed((#[trigger] functions[i]).root_block, list),
    ensures
        match found_in_functions(functions, n, pc, vars) {
            Some((inst, seen)) => all_listed(list, seen),
            None => true,
        },
    decreases n,
{
    if n > 0 && n <= functions.len() {
        lemma_functions_listed(functions, (n - 1) as nat, pc, vars, list);
        assert(block_closed(functions[n - 1].root_block, list));
        lemma_block_listed(functions[n - 1].root_block, pc, vars, list);
    }
}

proof fn lemma_declared_listed(instructions: Seq<Instruction>, n: nat, list: Seq<VariableModel>)
    requires
        instructions_closed(instructions, list),
    ensures
        all_listed(list, declared(instructions, n)),
    decreases n,
{
    if n > 0 && n <= instructions.len() {
        lemma_declared_listed(instructions, (n - 1) as nat, list);
        let before = declared(instructions, (n - 1) as nat);
        let ids = declared(instructions, n);
        assert forall|k: int| 0 <= k < ids.len() implies listed(list, #[trigger] ids[k]) by {
            if k < before.len() {
                assert(ids[k] == before[k]);
            } else {
                assert(instructions[n - 1].kind is VariableDeclaration);
            }
        }
    }
}

proof fn lemma_joined_listed(list: Seq<VariableModel>, a: Seq<usize>, b: Seq<usize>)
    requires
        all_listed(list, a),
        all_listed(list, b),
    ensures
        all_listed(list, a + b),
{
    let ids = a + b;
    assert forall|k: int| 0 <= k < ids.len() implies listed(list, #[trigger] ids[k]) by {
        if k < a.len() {
            assert(ids[k] == a[k]);
        } else {
            assert(ids[k] == b[k - a.len()]);
        }
    }
}

proof fn lemma_block_listed(
    block: BlockModel,
    pc: usize,
    vars: Seq<usize>,
    list: Seq<VariableModel>,
)
    requires
        all_listed(list, vars),
        block_closed(block, list),
    ensures
        match found_in(block, pc, vars) {
            Some((inst, seen)) => all_listed(list, seen),
            None => true,
        },
    decreases block, 0nat,
{
    let n = block.instructions.len();
    lemma_declared_listed(block.instructions, n, list);
    lemma_joined_listed(list, vars, declared(block.instructions, n));
    let inner = vars + declared(block.instructions, n);
    lemma_scopes_listed(block.scopes, block.scopes.len(), pc, inner, list);
    if let Some(i) = first_at(block.instructions, pc, 0) {
        lemma_declared_listed(block.instructions, i + 1, list);
        lemma_joined_listed(list, vars, declared(block.instructions, i + 1));
    }
}

proof fn lemma_scopes_listed(
    scopes: Seq<BlockModel>,
    n: nat,
    pc: usize,
    vars: Seq<usize>,
    list: Seq<VariableModel>,
)
    requires
        all_listed(list, vars),
        forall|i: int| 0 <= i < scopes.len() ==> block_closed(#[trigger] scopes[i], list),
    ensures
        match found_in_scopes(scopes, n, pc, vars) {
            Some((inst, seen)) => all_listed(list, seen),
            None => true,
        },
    decreases scopes, n,
{
    if n > 0 && n <= scopes.len() {
        lemma_scopes_listed(scopes, (n - 1) as nat, pc, vars, list);
        lemma_block_listed(scopes[n - 1], pc, vars, list);
    }
}

/// Listing more variables keeps a block closed.
pub proof fn lemma_block_stays_closed(
    block: BlockModel,
    vars: Seq<VariableModel>,
    more: Seq<VariableModel>,
)
    requires
        block_closed(block, vars),
        vars.is_prefix_of(more),
    ensures
        block_closed(block, more),
    decreases block,
{
    lemma_instructions_stay_closed(block.instructions, vars, more);
    assert forall|i: int| 0 <= i < block.scopes.len() implies block_closed(
        #[trigger] block.scopes[i],
        more,
    ) by {
        lemma_block_stays_closed(block.scopes[i], vars, more);
    }
}

pub proof fn lemma_instructions_stay_closed(
    instructions: Seq<Instruction>,
    vars: Seq<VariableModel>,
    more: Seq<VariableModel>,
)
    requires
        instructions_closed(instructions, vars),
        vars.is_prefix_of(more),
    ensures
        instructions_closed(instructions, more),
{
    assert forall|i: int| 0 <= i < instructions.len() implies match (
    #[trigger] instructions[i]).kind {
        InstructionKind::VariableDeclaration(id) => listed(more, id),
        _ => true,
    } by {
        if let InstructionKind::VariableDeclaration(id) = instructions[i].kind {
            assert(listed(vars, id));
            let k = choose|k: int| 0 <= k < vars.len() && (#[trigger] vars[k]).id == id as u64;
            assert(more[k] == vars[k]);
        }
    }
}

} // verus!

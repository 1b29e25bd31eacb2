//! From the syntax tree and the source maps of a contract to its debug information.

use vstd::prelude::*;

use crate::artifacts::{code_model, BytecodeError, CodeModel, CompactBytecode};
use crate::ast::{LowFidelitySourceLocation, Node, NodeType};
use crate::debug_info::{
    block_models, empty_block, lemma_block_scopes, variable_models, with_function, Block,
    BlockModel, DebugUnit, Function, FunctionModel, Instruction, InstructionKind, SourceLocation,
    UnitModel, Variable, VariableModel,
};
use crate::ic_pc::IcPcMap;
use crate::lines::{line_and_column, position};
use crate::source_map::{
    after_return, first_after_return, first_match, first_match_from, last_match, last_match_below,
    last_return, last_return_below, SourceMap,
};
use crate::text::same_text;

verus! {

/// Why a contract cannot be described.
#[derive(Clone, Copy, Debug, PartialEq, Eq, Structural)]
pub enum VisitError {
    /// A node lies outside of the source text, or starts or ends inside a character.
    OutsideSource,
    /// A function has no kind.
    MissingKind,
    /// A function or a declared variable has no name.
    MissingName,
    /// A variable has no identifier.
    MissingId,
    /// A declaration statement declares nothing.
    MissingDeclaration,
    /// No instruction leaves the function.
    MissingExit,
    /// No instruction enters the function.
    MissingEntry,
    /// A contract has a member that is not handled.
    NotHandled(NodeType),
}

/// The location of a node in its source text.
pub open spec fn located(source: Seq<char>, src: LowFidelitySourceLocation) -> Option<
    SourceLocation,
> {
    match line_and_column(source, src.start as nat) {
        None => None,
        Some((line, column)) => match src.length {
            None => Some(
                SourceLocation {
                    line: line as usize,
                    column: column as usize,
                    end_line: None,
                    end_column: None,
                    start_offset: src.start,
                    length: None,
                },
            ),
            Some(length) => match line_and_column(source, (src.start + length) as nat) {
                None => None,
                Some((end_line, end_column)) => Some(
                    SourceLocation {
                        line: line as usize,
                        column: column as usize,
                        end_line: Some(end_line as usize),
                        end_column: Some(end_column as usize),
                        start_offset: src.start,
                        length: Some(length),
                    },
                ),
            },
        },
    }
}

/// The program counter of the instruction with this number.
pub open spec fn pc_of(code: CodeModel, ic: Option<nat>) -> Option<usize> {
    match ic {
        Some(i) if code.pcs.dom().contains(i as usize) => Some(code.pcs[i as usize]),
        _ => None,
    }
}

/// The program counter of the last instruction that belongs to exactly this range.
pub open spec fn last_pc(code: CodeModel, src: LowFidelitySourceLocation) -> Option<usize> {
    match src.length {
        None => None,
        Some(length) => pc_of(
            code,
            last_match_below(code.map, src.start as u32, length as u32, code.map.len()),
        ),
    }
}

/// The program counter of the first instruction that belongs to exactly this range.
pub open spec fn first_pc(code: CodeModel, src: LowFidelitySourceLocation) -> Option<usize> {
    match src.length {
        None => None,
        Some(length) => pc_of(
            code,
            first_match_from(code.map, src.start as u32, length as u32, 0),
        ),
    }
}

/// The program counter at which a function is entered: that of its first instruction that
/// follows a return out of another function, or else of its first instruction.
pub open spec fn entry_pc(code: CodeModel, src: LowFidelitySourceLocation) -> Option<usize> {
    match src.length {
        None => None,
        Some(length) => match first_after_return(code.map, src.start as u32, length as u32, 0) {
            Some(i) => pc_of(code, Some(i)),
            None => first_pc(code, src),
        },
    }
}

/// The program counter at which a function is left: that of the last instruction of its range
/// that returns. A constructor does not return; its last instruction counts.
pub open spec fn exit_pc(
    code: CodeModel,
    src: LowFidelitySourceLocation,
    in_constructor: bool,
) -> Option<usize> {
    let start = src.start as u32;
    let length = match src.length {
        Some(l) => l as u32,
        None => 0u32,
    };
    if in_constructor {
        pc_of(code, last_match_below(code.map, start, length, code.map.len()))
    } else {
        pc_of(code, last_return_below(code.map, start, length, code.map.len()))
    }
}

/// Whether a call goes to a function of the language itself: those have negative declarations.
pub open spec fn calls_builtin(call: Node) -> bool {
    match call.expression {
        Some(callee) => match callee.referenced_declaration {
            Some(declaration) => declaration < 0,
            None => false,
        },
        None => false,
    }
}

/// `done` and the call instructions of the expression `node`, all placed at `location`: a
/// call comes before the calls in its arguments.
pub open spec fn calls_in(
    code: CodeModel,
    node: Node,
    location: SourceLocation,
    done: Seq<Instruction>,
) -> Seq<Instruction>
    decreases node, 0nat,
{
    match node.node_type {
        NodeType::FunctionCall => if calls_builtin(node) {
            done
        } else {
            let with_call = match first_pc(code, node.src) {
                Some(pc) => done.push(
                    Instruction { pc, location, kind: InstructionKind::FunctionCall },
                ),
                None => done,
            };
            match node.arguments {
                Some(args) => calls_in_all(code, args@, args@.len(), location, with_call),
                None => with_call,
            }
        },
        NodeType::BinaryOperation => {
            let with_left = match node.left_expression {
                Some(left) => calls_in(code, *left, location, done),
                None => done,
            };
            match node.right_expression {
                Some(right) => calls_in(code, *right, location, with_left),
                None => with_left,
            }
        },
        NodeType::Assignment => match node.right_hand_side {
            Some(right) => calls_in(code, *right, location, done),
            None => done,
        },
        NodeType::UnaryOperation => match node.sub_expression {
            Some(sub) => calls_in(code, *sub, location, done),
            None => done,
        },
        NodeType::MemberAccess | NodeType::IndexAccess => match node.expression {
            Some(expr) => calls_in(code, *expr, location, done),
            None => done,
        },
        _ => done,
    }
}

/// `done` and the call instructions of the first `n` expressions, in order.
pub open spec fn calls_in_all(
    code: CodeModel,
    nodes: Seq<Node>,
    n: nat,
    location: SourceLocation,
    done: Seq<Instruction>,
) -> Seq<Instruction>
    decreases nodes, n,
{
    if n == 0 || n > nodes.len() {
        done
    } else {
        calls_in(
            code,
            nodes[n - 1],
            location,
            calls_in_all(code, nodes, (n - 1) as nat, location, done),
        )
    }
}

/// The variable that a node declares: a node with a name is a state variable or a parameter, a
/// node without one is a statement that declares a local variable.
pub open spec fn variable_of(source: Seq<char>, node: Node) -> Result<
    Option<VariableModel>,
    VisitError,
> {
    match node.name {
        Some(name) => match node.id {
            Some(id) => match located(source, node.src) {
                Some(location) => Ok(
                    Some(
                        VariableModel {
                            name: name@,
                            id: id as u64,
                            location,
                            state_variable: true,
                        },
                    ),
                ),
                None => Err(VisitError::OutsideSource),
            },
            None => Ok(None),
        },
        None => match node.declarations {
            Some(declarations) if declarations@.len() > 0 => match declarations@[0].name {
                Some(name) => match node.id {
                    Some(id) => match located(source, node.src) {
                        Some(location) => Ok(
                            Some(
                                VariableModel {
                                    name: name@,
                                    id: id as u64,
                                    location,
                                    state_variable: false,
                                },
                            ),
                        ),
                        None => Err(VisitError::OutsideSource),
                    },
                    None => Err(VisitError::MissingId),
                },
                None => Err(VisitError::MissingName),
            },
            _ => Err(VisitError::MissingDeclaration),
        },
    }
}

/// The parameters that the first `n` nodes declare.
pub open spec fn parameters_of(source: Seq<char>, nodes: Seq<Node>, n: nat) -> Result<
    Seq<VariableModel>,
    VisitError,
>
    decreases n,
{
    if n == 0 || n > nodes.len() {
        Ok(Seq::empty())
    } else {
        match parameters_of(source, nodes, (n - 1) as nat) {
            Err(e) => Err(e),
            Ok(before) => match variable_of(source, nodes[n - 1]) {
                Err(e) => Err(e),
                Ok(Some(var)) => Ok(before.push(var)),
                Ok(None) => Ok(before),
            },
        }
    }
}

/// `scope` with the condition under which it runs, where there is one that has code.
pub open spec fn with_condition(
    source: Seq<char>,
    code: CodeModel,
    condition: Option<Box<Node>>,
    scope: BlockModel,
) -> Result<BlockModel, VisitError> {
    match condition {
        None => Ok(scope),
        Some(condition) => match last_pc(code, condition.src) {
            None => Ok(scope),
            Some(pc) => match located(source, condition.src) {
                None => Err(VisitError::OutsideSource),
                Some(location) => Ok(
                    BlockModel {
                        condition: Some(
                            Instruction { pc, location, kind: InstructionKind::Statement },
                        ),
                        ..scope
                    },
                ),
            },
        },
    }
}

/// The block of a node with its statements, and `vars` with the variables declared in it.
pub open spec fn block_of(
    source: Seq<char>,
    code: CodeModel,
    node: Node,
    vars: Seq<VariableModel>,
) -> Result<(BlockModel, Seq<VariableModel>), VisitError>
    decreases node, 1nat,
{
    match located(source, node.src) {
        None => Err(VisitError::OutsideSource),
        Some(location) => {
            let block = BlockModel { location, ..empty_block() };
            match node.statements {
                None => Ok((block, vars)),
                Some(s) => statements_of(source, code, s@, s@.len(), block, vars),
            }
        },
    }
}

/// `block` with the first `n` statements added, and `vars` with the variables declared in them.
pub open spec fn statements_of(
    source: Seq<char>,
    code: CodeModel,
    statements: Seq<Node>,
    n: nat,
    block: BlockModel,
    vars: Seq<VariableModel>,
) -> Result<(BlockModel, Seq<VariableModel>), VisitError>
    decreases statements, n,
{
    if n == 0 || n > statements.len() {
        Ok((block, vars))
    } else {
        match statements_of(source, code, statements, (n - 1) as nat, block, vars) {
            Err(e) => Err(e),
            Ok((b, v)) => statement_of(source, code, statements[n - 1], b, v),
        }
    }
}

/// `block` with the block of a body as one more scope, which runs under `condition`, and `vars` with
/// the variables declared in it.
pub open spec fn scope_of(
    source: Seq<char>,
    code: CodeModel,
    condition: Option<Box<Node>>,
    body: Node,
    block: BlockModel,
    vars: Seq<VariableModel>,
) -> Result<(BlockModel, Seq<VariableModel>), VisitError>
    decreases body, 2nat,
{
    match block_of(source, code, body, vars) {
        Err(e) => Err(e),
        Ok((scope, v)) => match with_condition(source, code, condition, scope) {
            Err(e) => Err(e),
            Ok(s) => Ok((BlockModel { scopes: block.scopes.push(s), ..block }, v)),
        },
    }
}

/// `block` with one statement added: the body of a loop and each body of a branch becomes a scope of
/// its own, in the order of the source, where an `else if` goes on like another branch; every other
/// statement that has code becomes an instruction, followed by its calls.
pub open spec fn statement_of(
    source: Seq<char>,
    code: CodeModel,
    statement: Node,
    block: BlockModel,
    vars: Seq<VariableModel>,
) -> Result<(BlockModel, Seq<VariableModel>), VisitError>
    decreases statement, 0nat,
{
    match statement.node_type {
        NodeType::ExpressionStatement => match last_pc(code, statement.src) {
            None => Ok((block, vars)),
            Some(pc) => match located(source, statement.src) {
                None => Err(VisitError::OutsideSource),
                Some(location) => {
                    let own = block.instructions.push(
                        Instruction { pc, location, kind: InstructionKind::Statement },
                    );
                    let instructions = match statement.expression {
                        Some(expr) => calls_in(code, *expr, location, own),
                        None => own,
                    };
                    Ok((BlockModel { instructions, ..block }, vars))
                },
            },
        },
        NodeType::IfStatement => {
            let taken = match statement.true_body {
                None => Ok((block, vars)),
                Some(body) => scope_of(source, code, statement.condition, *body, block, vars),
            };
            match (taken, statement.false_body) {
                (Err(e), _) => Err(e),
                (Ok((b, v)), None) => Ok((b, v)),
                (Ok((b, v)), Some(other)) => if other.node_type == NodeType::IfStatement {
                    statement_of(source, code, *other, b, v)
                } else {
                    scope_of(source, code, None, *other, b, v)
                },
            }
        },
        NodeType::ForStatement | NodeType::WhileStatement | NodeType::DoWhileStatement => {
            match statement.body {
                None => Ok((block, vars)),
                Some(body) => scope_of(source, code, statement.condition, *body, block, vars),
            }
        },
        NodeType::VariableDeclarationStatement => match variable_of(source, statement) {
            Err(e) => Err(e),
            Ok(None) => Err(VisitError::MissingId),
            Ok(Some(var)) => match located(source, statement.src) {
                None => Err(VisitError::OutsideSource),
                Some(location) => {
                    let id = var.id as usize;
                    let own = match last_pc(code, statement.src) {
                        Some(pc) => block.instructions.push(
                            Instruction {
                                pc,
                                location,
                                kind: InstructionKind::VariableDeclaration(id),
                            },
                        ),
                        None => block.instructions,
                    };
                    let instructions = match statement.initial_value {
                        Some(expr) => calls_in(code, *expr, location, own),
                        None => own,
                    };
                    Ok(
                        (
                            BlockModel {
                                variables: block.variables.push(id),
                                instructions,
                                ..block
                            },
                            vars.push(var),
                        ),
                    )
                },
            },
        },
        _ => match last_pc(code, statement.src) {
            None => Ok((block, vars)),
            Some(pc) => match located(source, statement.src) {
                None => Err(VisitError::OutsideSource),
                Some(location) => Ok(
                    (
                        BlockModel {
                            instructions: block.instructions.push(
                                Instruction { pc, location, kind: InstructionKind::Statement },
                            ),
                            ..block
                        },
                        vars,
                    ),
                ),
            },
        },
    }
}

/// The function that `node` defines in the contract at `contract`, and `vars` with the variables
/// declared in it. A constructor runs in the creation code, and is left where the contract is.
pub open spec fn function_of(
    source: Seq<char>,
    runtime: CodeModel,
    creation: CodeModel,
    contract: LowFidelitySourceLocation,
    node: Node,
    vars: Seq<VariableModel>,
) -> Result<(FunctionModel, Seq<VariableModel>), VisitError> {
    match node.kind {
        None => Err(VisitError::MissingKind),
        Some(kind) => {
            let is_constructor = kind@ == "constructor"@;
            let code = if is_constructor {
                creation
            } else {
                runtime
            };
            let left_at = if is_constructor {
                contract
            } else {
                node.src
            };
            match node.name {
                None => Err(VisitError::MissingName),
                Some(name) => match function_parameters(source, node) {
                    Err(e) => Err(e),
                    Ok(parameters) => match function_block(source, code, node, vars) {
                        Err(e) => Err(e),
                        Ok((root_block, v)) => match exit_pc(code, left_at, is_constructor) {
                            None => Err(VisitError::MissingExit),
                            Some(exit_pc) => match entry_pc(code, node.src) {
                                None => Err(VisitError::MissingEntry),
                                Some(entry_pc) => Ok(
                                    (
                                        FunctionModel {
                                            name: name@,
                                            entry_pc,
                                            exit_pc,
                                            root_block,
                                            parameters,
                                        },
                                        v,
                                    ),
                                ),
                            },
                        },
                    },
                },
            }
        },
    }
}

pub open spec fn function_parameters(source: Seq<char>, node: Node) -> Result<
    Seq<VariableModel>,
    VisitError,
> {
    match node.parameters {
        Some(params) => parameters_of(source, params@, params@.len()),
        None => Ok(Seq::empty()),
    }
}

pub open spec fn function_block(
    source: Seq<char>,
    code: CodeModel,
    node: Node,
    vars: Seq<VariableModel>,
) -> Result<(BlockModel, Seq<VariableModel>), VisitError> {
    match node.body {
        Some(body) => block_of(source, code, *body, vars),
        None => Ok((empty_block(), vars)),
    }
}

/// `unit` with the first `n` members of the contract added: its functions, and its state variables.
pub open spec fn members_of(
    source: Seq<char>,
    runtime: CodeModel,
    creation: CodeModel,
    contract: LowFidelitySourceLocation,
    nodes: Seq<Node>,
    n: nat,
    unit: UnitModel,
) -> Result<UnitModel, VisitError>
    decreases n,
{
    if n == 0 || n > nodes.len() {
        Ok(unit)
    } else {
        match members_of(source, runtime, creation, contract, nodes, (n - 1) as nat, unit) {
            Err(e) => Err(e),
            Ok(u) => member_of(source, runtime, creation, contract, nodes[n - 1], u),
        }
    }
}

pub open spec fn member_of(
    source: Seq<char>,
    runtime: CodeModel,
    creation: CodeModel,
    contract: LowFidelitySourceLocation,
    node: Node,
    unit: UnitModel,
) -> Result<UnitModel, VisitError> {
    match node.node_type {
        NodeType::FunctionDefinition => match function_of(
            source,
            runtime,
            creation,
            contract,
            node,
            unit.variables,
        ) {
            Err(e) => Err(e),
            Ok((f, variables)) => Ok(
                UnitModel { functions: with_function(unit.functions, f), variables, ..unit },
            ),
        },
        NodeType::VariableDeclaration => if node.state_variable == Some(true) {
            match variable_of(source, node) {
                Err(e) => Err(e),
                Ok(None) => Err(VisitError::MissingId),
                Ok(Some(var)) => Ok(UnitModel { variables: unit.variables.push(var), ..unit }),
            }
        } else {
            Ok(unit)
        },
        NodeType::StructDefinition | NodeType::EventDefinition => Ok(unit),
        other => Err(VisitError::NotHandled(other)),
    }
}

/// What an option of a variable holds.
pub open spec fn optional_variable(v: Option<Variable>) -> Option<VariableModel> {
    match v {
        Some(var) => Some(var@),
        None => None,
    }
}

/// Collects the debug information of one contract.
pub struct StatementVisitor {
    source: String,
    debug_unit: DebugUnit,
    source_map: SourceMap,
    pc_ic_map: IcPcMap,
    // these are the ones used for deployment
    deployed_source_map: SourceMap,
    deployed_pc_ic_map: IcPcMap,
    // signals that the constructor of the contract is being visited
    in_constructor: bool,
}

impl StatementVisitor {
    /// The source text of the contract.
    pub closed spec fn source(self) -> Seq<char> {
        self.source@
    }

    /// What has been collected so far.
    pub closed spec fn unit(self) -> UnitModel {
        self.debug_unit@
    }

    /// The instructions that run in calls.
    pub closed spec fn runtime(self) -> CodeModel {
        CodeModel { map: self.source_map@, pcs: self.pc_ic_map.inner@ }
    }

    /// The instructions that run at creation.
    pub closed spec fn creation(self) -> CodeModel {
        CodeModel { map: self.deployed_source_map@, pcs: self.deployed_pc_ic_map.inner@ }
    }

    /// Whether the constructor of the contract is being visited.
    pub closed spec fn in_constructor(self) -> bool {
        self.in_constructor
    }

    closed spec fn code(self) -> CodeModel {
        if self.in_constructor {
            self.creation()
        } else {
            self.runtime()
        }
    }

    // all but the variables of the debug unit
    spec fn same_but_variables(self, other: StatementVisitor) -> bool {
        &&& self.source@ == other.source@
        &&& self.source_map == other.source_map
        &&& self.pc_ic_map == other.pc_ic_map
        &&& self.deployed_source_map == other.deployed_source_map
        &&& self.deployed_pc_ic_map == other.deployed_pc_ic_map
        &&& self.in_constructor == other.in_constructor
        &&& self.debug_unit.name == other.debug_unit.name
        &&& self.debug_unit.path == other.debug_unit.path
        &&& self.debug_unit.functions == other.debug_unit.functions
    }

    /// A visitor for the contract with these bytecodes, which has collected nothing yet.
    pub fn new(
        deployed_bytecode: &CompactBytecode,
        bytecode: &CompactBytecode,
        path: String,
        source: String,
    ) -> (r: Result<StatementVisitor, BytecodeError>)
        ensures
            match code_model(*deployed_bytecode) {
                Err(e) => r == Err::<StatementVisitor, BytecodeError>(e),
                Ok(runtime) => match code_model(*bytecode) {
                    Err(e) => r == Err::<StatementVisitor, BytecodeError>(e),
                    Ok(creation) => {
                        &&& r is Ok
                        &&& r->Ok_0.source() == source@
                        &&& r->Ok_0.runtime() == runtime
                        &&& r->Ok_0.creation() == creation
                        &&& !r->Ok_0.in_constructor()
                        &&& r->Ok_0.unit() == (UnitModel {
                            name: Seq::empty(),
                            path: path@,
                            functions: Seq::empty(),
                            variables: Seq::empty(),
                        })
                    },
                },
            },
    {
        let runtime = match deployed_bytecode.code() {
            Ok(code) => code,
            Err(e) => {
                return Err(e);
            },
        };
        let creation = match bytecode.code() {
            Ok(code) => code,
            Err(e) => {
                return Err(e);
            },
        };
        Ok(StatementVisitor::with_code(runtime, creation, path, source))
    }

    /// A visitor for the contract with this code, which has collected nothing yet.
    pub fn with_code(
        runtime: (SourceMap, IcPcMap),
        creation: (SourceMap, IcPcMap),
        path: String,
        source: String,
    ) -> (r: StatementVisitor)
        ensures
            r.source() == source@,
            r.runtime() == (CodeModel { map: runtime.0@, pcs: runtime.1.inner@ }),
            r.creation() == (CodeModel { map: creation.0@, pcs: creation.1.inner@ }),
            !r.in_constructor(),
            r.unit() == (UnitModel {
                name: Seq::empty(),
                path: path@,
                functions: Seq::empty(),
                variables: Seq::empty(),
            }),
    {
        let debug_unit = DebugUnit {
            name: String::new(),
            path,
            functions: Vec::new(),
            variables: Vec::new(),
        };
        assert(debug_unit@.name =~= Seq::<char>::empty());
        assert(debug_unit@.functions =~= Seq::<FunctionModel>::empty());
        assert(debug_unit@.variables =~= Seq::<VariableModel>::empty());
        StatementVisitor {
            source,
            debug_unit,
            source_map: runtime.0,
            pc_ic_map: runtime.1,
            deployed_source_map: creation.0,
            deployed_pc_ic_map: creation.1,
            in_constructor: false,
        }
    }

    fn source_location2_for(&self, loc: &LowFidelitySourceLocation) -> (r: Option<SourceLocation>)
        ensures
            r == located(self.source@, *loc),
    {
        let (line, column) = match position(self.source.as_str(), loc.start) {
            Some(p) => p,
            None => {
                return None;
            },
        };
        match loc.length {
            None => Some(
                SourceLocation {
                    line,
                    column,
                    end_line: None,
                    end_column: None,
                    start_offset: loc.start,
                    length: None,
                },
            ),
            Some(length) => {
                let size: usize = self.source.as_str().as_bytes().len();
                if length > size || loc.start > size - length {
                    return None;
                }
                match position(self.source.as_str(), loc.start + length) {
                    None => None,
                    Some((end_line, end_column)) => Some(
                        SourceLocation {
                            line,
                            column,
                            end_line: Some(end_line),
                            end_column: Some(end_column),
                            start_offset: loc.start,
                            length: Some(length),
                        },
                    ),
                }
            },
        }
    }

    fn get_pc_for_node(&self, src: &LowFidelitySourceLocation) -> (r: Option<usize>)
        ensures
            r == last_pc(self.code(), *src),
    {
        let start: u32 = src.start as u32;
        let length: u32 = match src.length {
            Some(length) => length as u32,
            None => {
                return None;
            },
        };
        if self.in_constructor {
            match last_match(&self.deployed_source_map, start, length) {
                Some(i) => self.deployed_pc_ic_map.get(i),
                None => None,
            }
        } else {
            match last_match(&self.source_map, start, length) {
                Some(i) => self.pc_ic_map.get(i),
                None => None,
            }
        }
    }

    fn get_first_pc_for_node(&self, src: &LowFidelitySourceLocation) -> (r: Option<usize>)
        ensures
            r == first_pc(self.code(), *src),
    {
        let start: u32 = src.start as u32;
        let length: u32 = match src.length {
            Some(length) => length as u32,
            None => {
                return None;
            },
        };
        if self.in_constructor {
            match first_match(&self.deployed_source_map, start, length) {
                Some(i) => self.deployed_pc_ic_map.get(i),
                None => None,
            }
        } else {
            match first_match(&self.source_map, start, length) {
                Some(i) => self.pc_ic_map.get(i),
                None => None,
            }
        }
    }

    fn get_entry_pc_for_function(&self, src: &LowFidelitySourceLocation) -> (r: Option<usize>)
        ensures
            r == entry_pc(self.code(), *src),
    {
        let start: u32 = src.start as u32;
        let length: u32 = match src.length {
            Some(length) => length as u32,
            None => {
                return None;
            },
        };
        if self.in_constructor {
            match after_return(&self.deployed_source_map, start, length) {
                Some(i) => self.deployed_pc_ic_map.get(i),
                None => self.get_first_pc_for_node(src),
            }
        } else {
            match after_return(&self.source_map, start, length) {
                Some(i) => self.pc_ic_map.get(i),
                None => self.get_first_pc_for_node(src),
            }
        }
    }

    fn find_exit_pc(&self, src: &LowFidelitySourceLocation) -> (r: Option<usize>)
        ensures
            r == exit_pc(self.code(), *src, self.in_constructor),
    {
        let start: u32 = src.start as u32;
        let length: u32 = match src.length {
            Some(length) => length as u32,
            None => 0,
        };
        if self.in_constructor {
            // the constructor has no jump out
            match last_match(&self.deployed_source_map, start, length) {
                Some(i) => self.deployed_pc_ic_map.get(i),
                None => None,
            }
        } else {
            match last_return(&self.source_map, start, length) {
                Some(i) => self.pc_ic_map.get(i),
                None => None,
            }
        }
    }

    fn process_expression_for_function_calls(
        &self,
        node: &Node,
        instructions: &mut Vec<Instruction>,
        block_location: &SourceLocation,
    )
        ensures
            final(instructions)@ == calls_in(
                self.code(),
                *node,
                *block_location,
                old(instructions)@,
            ),
        decreases node, 0nat,
    {
        match node.node_type {
            NodeType::FunctionCall => {
                if let Some(callee) = &node.expression {
                    if let Some(declaration) = callee.referenced_declaration {
                        if declaration < 0 {
                            return ;
                        }
                    }
                }
                if let Some(pc) = self.get_first_pc_for_node(&node.src) {
                    instructions.push(
                        Instruction {
                            pc,
                            location: *block_location,
                            kind: InstructionKind::FunctionCall,
                        },
                    );
                }
                if let Some(args) = &node.arguments {
                    self.process_arguments(args, instructions, block_location);
                }
            },
            NodeType::BinaryOperation => {
                if let Some(left) = &node.left_expression {
                    self.process_expression_for_function_calls(left, instructions, block_location);
                }
                if let Some(right) = &node.right_expression {
                    self.process_expression_for_function_calls(right, instructions, block_location);
                }
            },
            NodeType::Assignment => {
                if let Some(right) = &node.right_hand_side {
                    self.process_expression_for_function_calls(right, instructions, block_location);
                }
            },
            NodeType::UnaryOperation => {
                if let Some(sub) = &node.sub_expression {
                    self.process_expression_for_function_calls(sub, instructions, block_location);
                }
            },
            NodeType::MemberAccess | NodeType::IndexAccess => {
                if let Some(expr) = &node.expression {
                    self.process_expression_for_function_calls(expr, instructions, block_location);
                }
            },
            _ => {},
        }
    }

    fn process_arguments(
        &self,
        args: &Vec<Node>,
        instructions: &mut Vec<Instruction>,
        block_location: &SourceLocation,
    )
        ensures
            final(instructions)@ == calls_in_all(
                self.code(),
                args@,
                args@.len(),
                *block_location,
                old(instructions)@,
            ),
        decreases args, 1nat,
    {
        let ghost start = instructions@;
        let mut i: usize = 0;
        while i < args.len()
            invariant
                i <= args@.len(),
                instructions@ == calls_in_all(
                    self.code(),
                    args@,
                    i as nat,
                    *block_location,
                    start,
                ),
                decreases_to!(args => args@),
            decreases args@.len() - i,
        {
            self.process_expression_for_function_calls(&args[i], instructions, block_location);
            i = i + 1;
        }
    }

    fn build_debug_variable(&self, node: &Node) -> (r: Result<Option<Variable>, VisitError>)
        ensures
            match variable_of(self.source@, *node) {
                Ok(v) => r is Ok && optional_variable(r->Ok_0) == v,
                Err(e) => r == Err::<Option<Variable>, VisitError>(e),
            },
    {
        if let Some(name) = &node.name {
            // this is most likely a state variable
            match node.id {
                Some(id) => match self.source_location2_for(&node.src) {
                    Some(location) => Ok(
                        Some(
                            Variable {
                                name: name.clone(),
                                id: id as u64,
                                location,
                                state_variable: true,
                            },
                        ),
                    ),
                    None => Err(VisitError::OutsideSource),
                },
                None => Ok(None),
            }
        } else {
            // a normal variable declaration
            let declarations = match &node.declarations {
                Some(declarations) => declarations,
                None => {
                    return Err(VisitError::MissingDeclaration);
                },
            };
            if declarations.len() == 0 {
                return Err(VisitError::MissingDeclaration);
            }
            match &declarations[0].name {
                Some(name) => match node.id {
                    Some(id) => match self.source_location2_for(&node.src) {
                        Some(location) => Ok(
                            Some(
                                Variable {
                                    name: name.clone(),
                                    id: id as u64,
                                    location,
                                    state_variable: false,
                                },
                            ),
                        ),
                        None => Err(VisitError::OutsideSource),
                    },
                    None => Err(VisitError::MissingId),
                },
                None => Err(VisitError::MissingName),
            }
        }
    }

    fn build_debug_parameters(&self, node: &Node) -> (r: Result<Vec<Variable>, VisitError>)
        ensures
            match function_parameters(self.source@, *node) {
                Ok(v) => r is Ok && variable_models(r->Ok_0@) == v,
                Err(e) => r == Err::<Vec<Variable>, VisitError>(e),
            },
    {
        let mut parameters: Vec<Variable> = Vec::new();
        assert(variable_models(parameters@) =~= Seq::<VariableModel>::empty());
        if let Some(params) = &node.parameters {
            let mut i: usize = 0;
            while i < params.len()
                invariant
                    i <= params@.len(),
                    parameters_of(self.source@, params@, i as nat) == Ok::<
                        Seq<VariableModel>,
                        VisitError,
                    >(variable_models(parameters@)),
                    node.parameters == Some(*params),
                decreases params@.len() - i,
            {
                let ghost before = variable_models(parameters@);
                match self.build_debug_variable(&params[i]) {
                    Ok(Some(var)) => {
                        parameters.push(var);
                        assert(variable_models(parameters@) =~= before.push(var@));
                    },
                    Ok(None) => {},
                    Err(e) => {
                        proof {
                            lemma_parameters_fail(self.source@, params@, (i + 1) as nat);
                        }
                        return Err(e);
                    },
                }
                i = i + 1;
            }
        }
        Ok(parameters)
    }

    /// The condition of a branch or a loop as an instruction, where it has code.
    fn build_condition(&self, condition: &Option<Box<Node>>) -> (r: Result<
        Option<Instruction>,
        VisitError,
    >)
        ensures
            forall|scope: BlockModel|
                scope.condition is None ==> match #[trigger] with_condition(
                    self.source@,
                    self.code(),
                    *condition,
                    scope,
                ) {
                    Ok(s) => r is Ok && s == (BlockModel { condition: r->Ok_0, ..scope }),
                    Err(e) => r == Err::<Option<Instruction>, VisitError>(e),
                },
    {
        if let Some(condition) = condition {
            if let Some(pc) = self.get_pc_for_node(&condition.src) {
                return match self.source_location2_for(&condition.src) {
                    Some(location) => Ok(
                        Some(Instruction { pc, location, kind: InstructionKind::Statement }),
                    ),
                    None => Err(VisitError::OutsideSource),
                };
            }
        }
        Ok(None)
    }

    /// Adds the block of a body to the scopes of `block`.
    fn build_scope(
        &mut self,
        body: &Node,
        condition: &Option<Box<Node>>,
        block: &mut Block,
    ) -> (r: Result<(), VisitError>)
        ensures
            final(self).same_but_variables(*old(self)),
            match scope_of(
                old(self).source@,
                old(self).code(),
                *condition,
                *body,
                old(block)@,
                old(self).debug_unit@.variables,
            ) {
                Err(e) => r == Err::<(), VisitError>(e),
                Ok((b, vars)) => {
                    &&& r is Ok
                    &&& final(block)@ == b
                    &&& final(self).debug_unit@.variables == vars
                },
            },
        decreases body, 2nat,
    {
        let ghost before = block@;
        let mut scope: Block = match self.build_debug_block(body) {
            Ok(b) => b,
            Err(e) => {
                return Err(e);
            },
        };
        proof {
            lemma_block_head(
                old(self).source@,
                old(self).code(),
                *body,
                old(self).debug_unit@.variables,
            );
        }
        let ghost plain = scope@;
        match self.build_condition(condition) {
            Ok(condition) => {
                scope.condition = condition;
            },
            Err(e) => {
                return Err(e);
            },
        }
        proof {
            lemma_block_scopes(scope);
            lemma_block_scopes(*block);
        }
        assert(scope@ == (BlockModel { condition: scope.condition, ..plain }));
        let ghost added = scope@;
        let ghost old_scopes = block.scopes@;
        block.scopes.push(scope);
        proof {
            lemma_block_scopes(*block);
            assert(block_models(block.scopes@) =~= block_models(old_scopes).push(added));
        }
        Ok(())
    }

    fn build_statement(&mut self, statement: &Node, block: &mut Block) -> (r: Result<(), VisitError>)
        ensures
            final(self).same_but_variables(*old(self)),
            match statement_of(
                old(self).source@,
                old(self).code(),
                *statement,
                old(block)@,
                old(self).debug_unit@.variables,
            ) {
                Err(e) => r == Err::<(), VisitError>(e),
                Ok((b, vars)) => {
                    &&& r is Ok
                    &&& final(block)@ == b
                    &&& final(self).debug_unit@.variables == vars
                },
            },
        decreases statement, 0nat,
    {
        proof {
            lemma_block_scopes(*block);
        }
        match statement.node_type {
            NodeType::ExpressionStatement => {
                if let Some(pc) = self.get_pc_for_node(&statement.src) {
                    let location = match self.source_location2_for(&statement.src) {
                        Some(location) => location,
                        None => {
                            return Err(VisitError::OutsideSource);
                        },
                    };
                    block.instructions.push(
                        Instruction { pc, location, kind: InstructionKind::Statement },
                    );
                    if let Some(expr) = &statement.expression {
                        self.process_expression_for_function_calls(
                            expr,
                            &mut block.instructions,
                            &location,
                        );
                    }
                    proof {
                        lemma_block_scopes(*block);
                    }
                }
                Ok(())
            },
            NodeType::IfStatement => {
                if let Some(true_body) = &statement.true_body {
                    match self.build_scope(true_body, &statement.condition, block) {
                        Ok(()) => {},
                        Err(e) => {
                            return Err(e);
                        },
                    }
                }
                if let Some(false_body) = &statement.false_body {
                    if false_body.node_type == NodeType::IfStatement {
                        self.build_statement(false_body, block)
                    } else {
                        self.build_scope(false_body, &None, block)
                    }
                } else {
                    Ok(())
                }
            },
            NodeType::ForStatement | NodeType::WhileStatement | NodeType::DoWhileStatement => {
                if let Some(body) = &statement.body {
                    self.build_scope(body, &statement.condition, block)
                } else {
                    Ok(())
                }
            },
            NodeType::VariableDeclarationStatement => {
                let var = match self.build_debug_variable(statement) {
                    Ok(Some(var)) => var,
                    Ok(None) => {
                        return Err(VisitError::MissingId);
                    },
                    Err(e) => {
                        return Err(e);
                    },
                };
                let id: usize = var.id as usize;
                let ghost vars = self.debug_unit.variables@;
                let ghost added = var@;
                self.debug_unit.variables.push(var);
                assert(variable_models(self.debug_unit.variables@) =~= variable_models(vars).push(
                    added,
                ));
                block.variables.push(id);
                let location = match self.source_location2_for(&statement.src) {
                    Some(location) => location,
                    None => {
                        return Err(VisitError::OutsideSource);
                    },
                };
                if let Some(pc) = self.get_pc_for_node(&statement.src) {
                    block.instructions.push(
                        Instruction {
                            pc,
                            location,
                            kind: InstructionKind::VariableDeclaration(id),
                        },
                    );
                }
                // the initial value might hold function calls
                if let Some(expr) = &statement.initial_value {
                    self.process_expression_for_function_calls(
                        expr,
                        &mut block.instructions,
                        &location,
                    );
                }
                proof {
                    lemma_block_scopes(*block);
                }
                Ok(())
            },
            _ => {
                // regular statement
                if let Some(pc) = self.get_pc_for_node(&statement.src) {
                    let location = match self.source_location2_for(&statement.src) {
                        Some(location) => location,
                        None => {
                            return Err(VisitError::OutsideSource);
                        },
                    };
                    block.instructions.push(
                        Instruction { pc, location, kind: InstructionKind::Statement },
                    );
                    proof {
                        lemma_block_scopes(*block);
                    }
                }
                Ok(())
            },
        }
    }

    fn build_debug_block(&mut self, node: &Node) -> (r: Result<Block, VisitError>)
        ensures
            final(self).same_but_variables(*old(self)),
            match block_of(
                old(self).source@,
                old(self).code(),
                *node,
                old(self).debug_unit@.variables,
            ) {
                Err(e) => r == Err::<Block, VisitError>(e),
                Ok((b, vars)) => {
                    &&& r is Ok
                    &&& r->Ok_0@ == b
                    &&& final(self).debug_unit@.variables == vars
                },
            },
        decreases node, 1nat,
    {
        let location = match self.source_location2_for(&node.src) {
            Some(location) => location,
            None => {
                return Err(VisitError::OutsideSource);
            },
        };
        let mut block = Block::default();
        block.location = location;
        proof {
            lemma_block_scopes(block);
        }
        let ghost fresh = block@;
        assert(fresh == (BlockModel { location, ..empty_block() }));
        if let Some(statements) = &node.statements {
            let mut i: usize = 0;
            while i < statements.len()
                invariant
                    i <= statements@.len(),
                    node.statements == Some(*statements),
                    decreases_to!(node => statements@),
                    self.same_but_variables(*old(self)),
                    located(old(self).source@, node.src) == Some(location),
                    fresh == (BlockModel { location, ..empty_block() }),
                    statements_of(
                        old(self).source@,
                        old(self).code(),
                        statements@,
                        i as nat,
                        fresh,
                        old(self).debug_unit@.variables,
                    ) == Ok::<(BlockModel, Seq<VariableModel>), VisitError>(
                        (block@, self.debug_unit@.variables),
                    ),
                decreases statements@.len() - i,
            {
                match self.build_statement(&statements[i], &mut block) {
                    Ok(()) => {},
                    Err(e) => {
                        proof {
                            lemma_statements_fail(
                                old(self).source@,
                                old(self).code(),
                                statements@,
                                (i + 1) as nat,
                                fresh,
                                old(self).debug_unit@.variables,
                            );
                        }
                        return Err(e);
                    },
                }
                i = i + 1;
            }
        }
        Ok(block)
    }

    fn build_debug_function(&mut self, node: &Node, contract: &LowFidelitySourceLocation) -> (r:
        Result<Function, VisitError>)
        ensures
            match function_of(
                old(self).source@,
                old(self).runtime(),
                old(self).creation(),
                *contract,
                *node,
                old(self).debug_unit@.variables,
            ) {
                Err(e) => r == Err::<Function, VisitError>(e),
                Ok((f, vars)) => {
                    &&& r is Ok
                    &&& r->Ok_0@ == f
                    &&& final(self).unit() == (UnitModel { variables: vars, ..old(self).unit() })
                },
            },
            final(self).source() == old(self).source(),
            final(self).runtime() == old(self).runtime(),
            final(self).creation() == old(self).creation(),
    {
        let is_constructor: bool = match &node.kind {
            Some(kind) => same_text(kind.as_str(), "constructor"),
            None => {
                return Err(VisitError::MissingKind);
            },
        };
        self.in_constructor = is_constructor;
        let name: String = match &node.name {
            Some(name) => name.clone(),
            None => {
                return Err(VisitError::MissingName);
            },
        };
        let parameters = match self.build_debug_parameters(node) {
            Ok(parameters) => parameters,
            Err(e) => {
                return Err(e);
            },
        };
        let root_block: Block = match &node.body {
            Some(body) => match self.build_debug_block(body) {
                Ok(block) => block,
                Err(e) => {
                    return Err(e);
                },
            },
            None => Block::default(),
        };
        // the constructor does not return; it is left where the contract is
        let exit = if is_constructor {
            self.find_exit_pc(contract)
        } else {
            self.find_exit_pc(&node.src)
        };
        let exit_pc: usize = match exit {
            Some(pc) => pc,
            None => {
                return Err(VisitError::MissingExit);
            },
        };
        let entry_pc: usize = match self.get_entry_pc_for_function(&node.src) {
            Some(pc) => pc,
            None => {
                return Err(VisitError::MissingEntry);
            },
        };
        self.in_constructor = false;
        Ok(Function { name, entry_pc, exit_pc, root_block, parameters })
    }

    /// Collects the functions and the state variables of the contract that `node` defines.
    pub fn visit_contract(&mut self, node: &Node) -> (r: Result<(), VisitError>)
        ensures
            match members_of(
                old(self).source(),
                old(self).runtime(),
                old(self).creation(),
                node.src,
                node.nodes@,
                node.nodes@.len(),
                old(self).unit(),
            ) {
                Err(e) => r == Err::<(), VisitError>(e),
                Ok(unit) => r is Ok && final(self).unit() == unit && !final(self).in_constructor(),
            },
            final(self).source() == old(self).source(),
            final(self).runtime() == old(self).runtime(),
            final(self).creation() == old(self).creation(),
    {
        let ghost source = self.source();
        let ghost runtime = self.runtime();
        let ghost creation = self.creation();
        let ghost start = self.unit();
        let mut i: usize = 0;
        while i < node.nodes.len()
            invariant
                i <= node.nodes@.len(),
                self.source() == source,
                self.runtime() == runtime,
                self.creation() == creation,
                source == old(self).source(),
                runtime == old(self).runtime(),
                creation == old(self).creation(),
                start == old(self).unit(),
                members_of(source, runtime, creation, node.src, node.nodes@, i as nat, start) == Ok::<
                    UnitModel,
                    VisitError,
                >(self.unit()),
            decreases node.nodes@.len() - i,
        {
            let child = &node.nodes[i];
            let ghost before = self.unit();
            let ghost failed = members_of(
                source,
                runtime,
                creation,
                node.src,
                node.nodes@,
                (i + 1) as nat,
                start,
            );
            assert(failed == member_of(source, runtime, creation, node.src, *child, before));
            proof {
                if failed is Err {
                    lemma_members_fail(
                        source,
                        runtime,
                        creation,
                        node.src,
                        node.nodes@,
                        (i + 1) as nat,
                        start,
                    );
                }
            }
            match child.node_type {
                NodeType::FunctionDefinition => {
                    match self.build_debug_function(child, &node.src) {
                        Ok(function) => {
                            self.debug_unit.insert_function(function);
                        },
                        Err(e) => {
                            return Err(e);
                        },
                    }
                },
                NodeType::VariableDeclaration => {
                    let state_variable: bool = match child.state_variable {
                        Some(b) => b,
                        None => false,
                    };
                    if state_variable {
                        match self.build_debug_variable(child) {
                            Ok(Some(var)) => {
                                let ghost added = var@;
                                self.debug_unit.variables.push(var);
                                assert(self.unit().variables =~= before.variables.push(added));
                            },
                            Ok(None) => {
                                return Err(VisitError::MissingId);
                            },
                            Err(e) => {
                                return Err(e);
                            },
                        }
                    }
                },
                NodeType::StructDefinition | NodeType::EventDefinition => {},
                other => {
                    return Err(VisitError::NotHandled(other));
                },
            }
            i = i + 1;
        }
        self.in_constructor = false;
        Ok(())
    }

    /// What has been collected.
    pub fn into_debug_unit(self) -> (r: DebugUnit)
        ensures
            r@ == self.unit(),
    {
        self.debug_unit
    }
}

proof fn lemma_members_fail(
    source: Seq<char>,
    runtime: CodeModel,
    creation: CodeModel,
    contract: LowFidelitySourceLocation,
    nodes: Seq<Node>,
    n: nat,
    unit: UnitModel,
)
    requires
        0 < n <= nodes.len(),
        members_of(source, runtime, creation, contract, nodes, n, unit) is Err,
    ensures
        members_of(source, runtime, creation, contract, nodes, nodes.len(), unit) == members_of(
            source,
            runtime,
            creation,
            contract,
            nodes,
            n,
            unit,
        ),
    decreases nodes.len() - n,
{
    if n < nodes.len() {
        lemma_members_fail(source, runtime, creation, contract, nodes, n + 1, unit);
    }
}

/// What adding statements keeps of a block.
spec fn same_head(r: Result<(BlockModel, Seq<VariableModel>), VisitError>, block: BlockModel) -> bool {
    match r {
        Ok((b, _)) => b.condition == block.condition && b.location == block.location,
        Err(_) => true,
    }
}

/// The block of a node stands where the node does, and has no condition.
proof fn lemma_block_head(source: Seq<char>, code: CodeModel, node: Node, vars: Seq<VariableModel>)
    ensures
        match block_of(source, code, node, vars) {
            Ok((b, _)) => b.condition is None && located(source, node.src) == Some(b.location),
            Err(_) => true,
        },
{
    if let Some(location) = located(source, node.src) {
        if let Some(s) = node.statements {
            lemma_statements_keep_head(
                source,
                code,
                s@,
                s@.len(),
                BlockModel { location, ..empty_block() },
                vars,
            );
        }
    }
}

proof fn lemma_statements_keep_head(
    source: Seq<char>,
    code: CodeModel,
    statements: Seq<Node>,
    n: nat,
    block: BlockModel,
    vars: Seq<VariableModel>,
)
    ensures
        same_head(statements_of(source, code, statements, n, block, vars), block),
    decreases n,
{
    if n > 0 && n <= statements.len() {
        lemma_statements_keep_head(source, code, statements, (n - 1) as nat, block, vars);
        if let Ok((b, v)) = statements_of(source, code, statements, (n - 1) as nat, block, vars) {
            lemma_statement_keeps_head(source, code, statements[n - 1], b, v);
        }
    }
}

proof fn lemma_statement_keeps_head(
    source: Seq<char>,
    code: CodeModel,
    statement: Node,
    block: BlockModel,
    vars: Seq<VariableModel>,
)
    ensures
        same_head(statement_of(source, code, statement, block, vars), block),
    decreases statement,
{
    if statement.node_type == NodeType::IfStatement {
        let taken = match statement.true_body {
            None => Ok((block, vars)),
            Some(body) => scope_of(source, code, statement.condition, *body, block, vars),
        };
        assert(same_head(taken, block));
        if let (Ok((b, v)), Some(other)) = (taken, statement.false_body) {
            lemma_statement_keeps_head(source, code, *other, b, v);
            assert(same_head(scope_of(source, code, None, *other, b, v), b));
        }
    } else if let Some(body) = statement.body {
        assert(same_head(scope_of(source, code, statement.condition, *body, block, vars), block));
    }
}

/// Whether a statement has bodies: a branch or a loop.
pub open spec fn has_bodies(statement: Node) -> bool {
    ||| statement.node_type == NodeType::IfStatement
    ||| statement.node_type == NodeType::ForStatement
    ||| statement.node_type == NodeType::WhileStatement
    ||| statement.node_type == NodeType::DoWhileStatement
}

/// The bodies of a branch, with those of each `else if`, or the body of a loop, in the order of the
/// source.
pub open spec fn bodies_of(statement: Node) -> Seq<Node>
    decreases statement,
{
    if statement.node_type == NodeType::IfStatement {
        let taken = match statement.true_body {
            Some(body) => seq![*body],
            None => Seq::empty(),
        };
        match statement.false_body {
            None => taken,
            Some(other) => if other.node_type == NodeType::IfStatement {
                taken + bodies_of(*other)
            } else {
                taken.push(*other)
            },
        }
    } else {
        match statement.body {
            Some(body) => seq![*body],
            None => Seq::empty(),
        }
    }
}

/// Whether `b` is `block` with one more scope for each of the bodies, where the body stands.
pub open spec fn adds_scopes(
    source: Seq<char>,
    block: BlockModel,
    bodies: Seq<Node>,
    b: BlockModel,
) -> bool {
    let n = block.scopes.len();
    &&& b == (BlockModel { scopes: b.scopes, ..block })
    &&& b.scopes.len() == n + bodies.len()
    &&& forall|i: int| 0 <= i < n ==> #[trigger] b.scopes[i] == block.scopes[i]
    &&& forall|i: int|
        0 <= i < bodies.len() ==> located(source, (#[trigger] bodies[i]).src) == Some(
            b.scopes[n + i].location,
        )
}

proof fn lemma_scope_added(
    source: Seq<char>,
    code: CodeModel,
    condition: Option<Box<Node>>,
    body: Node,
    block: BlockModel,
    vars: Seq<VariableModel>,
)
    ensures
        match scope_of(source, code, condition, body, block, vars) {
            Ok((b, _)) => adds_scopes(source, block, seq![body], b),
            Err(_) => true,
        },
{
    lemma_block_head(source, code, body, vars);
}

proof fn lemma_more_scopes(
    source: Seq<char>,
    a: BlockModel,
    first: Seq<Node>,
    b: BlockModel,
    second: Seq<Node>,
    c: BlockModel,
)
    requires
        adds_scopes(source, a, first, b),
        adds_scopes(source, b, second, c),
    ensures
        adds_scopes(source, a, first + second, c),
{
    let n = a.scopes.len();
    let bodies = first + second;
    assert forall|i: int| 0 <= i < n implies #[trigger] c.scopes[i] == a.scopes[i] by {
        assert(c.scopes[i] == b.scopes[i]);
    }
    assert forall|i: int| 0 <= i < bodies.len() implies located(
        source,
        (#[trigger] bodies[i]).src,
    ) == Some(c.scopes[n + i].location) by {
        if i < first.len() {
            assert(bodies[i] == first[i]);
            assert(c.scopes[n + i] == b.scopes[n + i]);
        } else {
            assert(bodies[i] == second[i - first.len()]);
        }
    }
}

/// Every body of a branch or a loop becomes a scope of the block around it, in the order of the
/// source and where the body stands. Nothing else of that block changes.
pub proof fn law_bodies_become_scopes(
    source: Seq<char>,
    code: CodeModel,
    statement: Node,
    block: BlockModel,
    vars: Seq<VariableModel>,
)
    requires
        has_bodies(statement),
        statement_of(source, code, statement, block, vars) is Ok,
    ensures
        adds_scopes(
            source,
            block,
            bodies_of(statement),
            statement_of(source, code, statement, block, vars)->Ok_0.0,
        ),
    decreases statement,
{
    if statement.node_type == NodeType::IfStatement {
        let (taken, first) = match statement.true_body {
            None => (Ok((block, vars)), Seq::empty()),
            Some(body) => (
                scope_of(source, code, statement.condition, *body, block, vars),
                seq![*body],
            ),
        };
        if let Some(body) = statement.true_body {
            lemma_scope_added(source, code, statement.condition, *body, block, vars);
        }
        let (b, v) = taken->Ok_0;
        assert(adds_scopes(source, block, first, b));
        if let Some(other) = statement.false_body {
            let after = statement_of(source, code, statement, block, vars)->Ok_0.0;
            if other.node_type == NodeType::IfStatement {
                law_bodies_become_scopes(source, code, *other, b, v);
                lemma_more_scopes(source, block, first, b, bodies_of(*other), after);
            } else {
                lemma_scope_added(source, code, None, *other, b, v);
                lemma_more_scopes(source, block, first, b, seq![*other], after);
                assert(first + seq![*other] =~= first.push(*other));
            }
        }
    } else if let Some(body) = statement.body {
        lemma_scope_added(source, code, statement.condition, *body, block, vars);
    }
}

proof fn lemma_statements_fail(
    source: Seq<char>,
    code: CodeModel,
    statements: Seq<Node>,
    n: nat,
    block: BlockModel,
    vars: Seq<VariableModel>,
)
    requires
        0 < n <= statements.len(),
        statements_of(source, code, statements, n, block, vars) is Err,
    ensures
        statements_of(source, code, statements, statements.len(), block, vars) == statements_of(
            source,
            code,
            statements,
            n,
            block,
            vars,
        ),
    decreases statements.len() - n,
{
    if n < statements.len() {
        lemma_statements_fail(source, code, statements, n + 1, block, vars);
    }
}

proof fn lemma_parameters_fail(source: Seq<char>, nodes: Seq<Node>, n: nat)
    requires
        0 < n <= nodes.len(),
        parameters_of(source, nodes, n) is Err,
    ensures
        parameters_of(source, nodes, nodes.len()) == parameters_of(source, nodes, n),
    decreases nodes.len() - n,
{
    if n < nodes.len() {
        lemma_parameters_fail(source, nodes, n + 1);
    }
}

} // verus!

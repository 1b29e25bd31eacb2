//! The debug information that a visit collects lists every variable that it mentions.

use vstd::prelude::*;

use crate::artifacts::{code_model, CodeModel};
use crate::ast::{LowFidelitySourceLocation, Node, NodeType};
use crate::debug_info::{
    block_closed, empty_block, ids_fit, instructions_closed, law_names_stay_different,
    lemma_block_stays_closed, lemma_position, listed, names_differ, unit_closed, BlockModel,
    Instruction, InstructionKind, SourceLocation, UnitModel, VariableModel,
};
use crate::units::{lemma_place, with_artifacts, with_node, with_nodes, Artifact};
use crate::visitor::{
    block_of, calls_in, calls_in_all, first_pc, function_of, last_pc, located, member_of,
    members_of, scope_of, statement_of, statements_of, variable_of, with_condition, VisitError,
};

verus! {

proof fn lemma_calls_closed(
    code: CodeModel,
    node: Node,
    location: SourceLocation,
    done: Seq<Instruction>,
    vars: Seq<VariableModel>,
)
    requires
        instructions_closed(done, vars),
    ensures
        instructions_closed(calls_in(code, node, location, done), vars),
    decreases node, 0nat,
{
    match node.node_type {
        NodeType::FunctionCall => {
            let with_call = match first_pc(code, node.src) {
                Some(pc) => done.push(
                    Instruction { pc, location, kind: InstructionKind::FunctionCall },
                ),
                None => done,
            };
            assert(instructions_closed(with_call, vars));
            if let Some(args) = node.arguments {
                lemma_all_calls_closed(code, args@, args@.len(), location, with_call, vars);
            }
        },
        NodeType::BinaryOperation => {
            let with_left = match node.left_expression {
                Some(left) => calls_in(code, *left, location, done),
                None => done,
            };
            if let Some(left) = node.left_expression {
                lemma_calls_closed(code, *left, location, done, vars);
            }
            if let Some(right) = node.right_expression {
                lemma_calls_closed(code, *right, location, with_left, vars);
            }
        },
        NodeType::Assignment => {
            if let Some(right) = node.right_hand_side {
                lemma_calls_closed(code, *right, location, done, vars);
            }
        },
        NodeType::UnaryOperation => {
            if let Some(sub) = node.sub_expression {
                lemma_calls_closed(code, *sub, location, done, vars);
            }
        },
        NodeType::MemberAccess | NodeType::IndexAccess => {
            if let Some(expr) = node.expression {
                lemma_calls_closed(code, *expr, location, done, vars);
            }
        },
        _ => {},
    }
}

proof fn lemma_all_calls_closed(
    code: CodeModel,
    nodes: Seq<Node>,
    n: nat,
    location: SourceLocation,
    done: Seq<Instruction>,
    vars: Seq<VariableModel>,
)
    requires
        instructions_closed(done, vars),
    ensures
        instructions_closed(calls_in_all(code, nodes, n, location, done), vars),
    decreases nodes, n,
{
    if n > 0 && n <= nodes.len() {
        lemma_all_calls_closed(code, nodes, (n - 1) as nat, location, done, vars);
        lemma_calls_closed(
            code,
            nodes[n - 1],
            location,
            calls_in_all(code, nodes, (n - 1) as nat, location, done),
            vars,
        );
    }
}

/// What holds of a block and the variables listed with it while it grows.
spec fn grown(
    vars: Seq<VariableModel>,
    r: Result<(BlockModel, Seq<VariableModel>), VisitError>,
) -> bool {
    match r {
        Ok((b, v)) => {
            &&& vars.is_prefix_of(v)
            &&& ids_fit(v)
            &&& block_closed(b, v)
        },
        Err(_) => true,
    }
}

proof fn lemma_block_closed(
    source: Seq<char>,
    code: CodeModel,
    node: Node,
    vars: Seq<VariableModel>,
)
    requires
        ids_fit(vars),
    ensures
        grown(vars, block_of(source, code, node, vars)),
    decreases node, 1nat,
{
    if let Some(location) = located(source, node.src) {
        let block = BlockModel { location, ..empty_block() };
        assert(block_closed(block, vars));
        if let Some(s) = node.statements {
            lemma_statements_closed(source, code, s@, s@.len(), block, vars);
        }
    }
}

proof fn lemma_statements_closed(
    source: Seq<char>,
    code: CodeModel,
    statements: Seq<Node>,
    n: nat,
    block: BlockModel,
    vars: Seq<VariableModel>,
)
    requires
        ids_fit(vars),
        block_closed(block, vars),
    ensures
        grown(vars, statements_of(source, code, statements, n, block, vars)),
    decreases statements, n,
{
    if n > 0 && n <= statements.len() {
        lemma_statements_closed(source, code, statements, (n - 1) as nat, block, vars);
        if let Ok((b, v)) = statements_of(source, code, statements, (n - 1) as nat, block, vars) {
            lemma_statement_closed(source, code, statements[n - 1], b, v);
            let r = statement_of(source, code, statements[n - 1], b, v);
            if let Ok((b2, v2)) = r {
                assert(vars.is_prefix_of(v2));
            }
        }
    }
}

proof fn lemma_scope_closed(
    source: Seq<char>,
    code: CodeModel,
    condition: Option<Box<Node>>,
    body: Node,
    block: BlockModel,
    vars: Seq<VariableModel>,
)
    requires
        ids_fit(vars),
        block_closed(block, vars),
    ensures
        grown(vars, scope_of(source, code, condition, body, block, vars)),
    decreases body, 2nat,
{
    lemma_block_closed(source, code, body, vars);
    if let Ok((scope, v)) = block_of(source, code, body, vars) {
        if let Ok(s) = with_condition(source, code, condition, scope) {
            assert(block_closed(s, v));
            lemma_block_stays_closed(block, vars, v);
            let b = BlockModel { scopes: block.scopes.push(s), ..block };
            assert forall|i: int| 0 <= i < b.scopes.len() implies block_closed(
                #[trigger] b.scopes[i],
                v,
            ) by {
                if i < block.scopes.len() {
                    assert(b.scopes[i] == block.scopes[i]);
                } else {
                    assert(b.scopes[i] == s);
                }
            }
            assert(instructions_closed(b.instructions, v));
        }
    }
}

proof fn lemma_statement_closed(
    source: Seq<char>,
    code: CodeModel,
    statement: Node,
    block: BlockModel,
    vars: Seq<VariableModel>,
)
    requires
        ids_fit(vars),
        block_closed(block, vars),
    ensures
        grown(vars, statement_of(source, code, statement, block, vars)),
    decreases statement, 0nat,
{
    let r = statement_of(source, code, statement, block, vars);
    match statement.node_type {
        NodeType::ExpressionStatement => {
            if let Ok((b, v)) = r {
                if let Some(pc) = last_pc(code, statement.src) {
                    let location = located(source, statement.src)->Some_0;
                    let own = block.instructions.push(
                        Instruction { pc, location, kind: InstructionKind::Statement },
                    );
                    assert(instructions_closed(own, vars));
                    if let Some(expr) = statement.expression {
                        lemma_calls_closed(code, *expr, location, own, vars);
                    }
                    assert(b.scopes == block.scopes);
                    assert(block_closed(b, v));
                }
            }
        },
        NodeType::IfStatement => {
            let taken = match statement.true_body {
                None => Ok((block, vars)),
                Some(body) => scope_of(source, code, statement.condition, *body, block, vars),
            };
            if let Some(body) = statement.true_body {
                lemma_scope_closed(source, code, statement.condition, *body, block, vars);
            }
            if let (Ok((b, v)), Some(other)) = (taken, statement.false_body) {
                if other.node_type == NodeType::IfStatement {
                    lemma_statement_closed(source, code, *other, b, v);
                } else {
                    lemma_scope_closed(source, code, None, *other, b, v);
                }
                if let Ok((_, w)) = r {
                    assert(vars.is_prefix_of(v) && v.is_prefix_of(w));
                    assert(vars.is_prefix_of(w));
                }
            }
        },
        NodeType::ForStatement | NodeType::WhileStatement | NodeType::DoWhileStatement => {
            if let Some(body) = statement.body {
                lemma_scope_closed(source, code, statement.condition, *body, block, vars);
            }
        },
        NodeType::VariableDeclarationStatement => {
            if let Ok((b, v)) = r {
                let var = variable_of(source, statement)->Ok_0->Some_0;
                let location = located(source, statement.src)->Some_0;
                let id = var.id as usize;
                assert(v == vars.push(var));
                assert(var.id == id as u64);
                lemma_block_stays_closed(block, vars, v);
                assert(v[vars.len() as int].id == id as u64);
                assert(listed(v, id));
                let own = match last_pc(code, statement.src) {
                    Some(pc) => block.instructions.push(
                        Instruction {
                            pc,
                            location,
                            kind: InstructionKind::VariableDeclaration(id),
                        },
                    ),
                    None => block.instructions,
                };
                assert(instructions_closed(own, v));
                if let Some(expr) = statement.initial_value {
                    lemma_calls_closed(code, *expr, location, own, v);
                }
                assert(b.scopes == block.scopes);
                assert(block_closed(b, v));
            }
        },
        _ => {
            if let Ok((b, v)) = r {
                assert(instructions_closed(b.instructions, v));
                assert(b.scopes == block.scopes);
                assert(block_closed(b, v));
            }
        },
    }
}

/// What a visit of a contract keeps of the debug information: all variables are listed, and no two
/// functions have one name.
pub open spec fn unit_sound(unit: UnitModel) -> bool {
    unit_closed(unit) && names_differ(unit.functions)
}

proof fn lemma_member_sound(
    source: Seq<char>,
    runtime: CodeModel,
    creation: CodeModel,
    contract: LowFidelitySourceLocation,
    node: Node,
    unit: UnitModel,
)
    requires
        unit_sound(unit),
        member_of(source, runtime, creation, contract, node, unit) is Ok,
    ensures
        unit_sound(member_of(source, runtime, creation, contract, node, unit)->Ok_0),
{
    let u = member_of(source, runtime, creation, contract, node, unit)->Ok_0;
    match node.node_type {
        NodeType::FunctionDefinition => {
            let (f, v) = function_of(
                source,
                runtime,
                creation,
                contract,
                node,
                unit.variables,
            )->Ok_0;
            let code = if node.kind->Some_0@ == "constructor"@ {
                creation
            } else {
                runtime
            };
            if let Some(body) = node.body {
                lemma_block_closed(source, code, *body, unit.variables);
            }
            assert(unit.variables.is_prefix_of(v));
            assert(block_closed(f.root_block, v));
            law_names_stay_different(unit.functions, f);
            lemma_position(unit.functions, f.name, 0);
            assert forall|i: int| 0 <= i < u.functions.len() implies block_closed(
                (#[trigger] u.functions[i]).root_block,
                v,
            ) by {
                if u.functions[i] != f {
                    assert(0 <= i < unit.functions.len() && u.functions[i] == unit.functions[i]);
                    lemma_block_stays_closed(unit.functions[i].root_block, unit.variables, v);
                }
            }
        },
        NodeType::VariableDeclaration => {
            if node.state_variable == Some(true) {
                let v = u.variables;
                assert forall|i: int| 0 <= i < u.functions.len() implies block_closed(
                    (#[trigger] u.functions[i]).root_block,
                    v,
                ) by {
                    lemma_block_stays_closed(unit.functions[i].root_block, unit.variables, v);
                }
            }
        },
        _ => {},
    }
}

/// A visit keeps all variables listed and the names of the functions different.
pub proof fn law_visit_keeps_units_sound(
    source: Seq<char>,
    runtime: CodeModel,
    creation: CodeModel,
    contract: LowFidelitySourceLocation,
    nodes: Seq<Node>,
    n: nat,
    unit: UnitModel,
)
    requires
        unit_sound(unit),
        members_of(source, runtime, creation, contract, nodes, n, unit) is Ok,
    ensures
        unit_sound(members_of(source, runtime, creation, contract, nodes, n, unit)->Ok_0),
    decreases n,
{
    if n > 0 && n <= nodes.len() {
        law_visit_keeps_units_sound(
            source,
            runtime,
            creation,
            contract,
            nodes,
            (n - 1) as nat,
            unit,
        );
        let u = members_of(source, runtime, creation, contract, nodes, (n - 1) as nat, unit)->Ok_0;
        lemma_member_sound(source, runtime, creation, contract, nodes[n - 1], u);
    }
}

pub open spec fn units_sound(units: Seq<(Seq<char>, UnitModel)>) -> bool {
    forall|i: int| 0 <= i < units.len() ==> unit_sound((#[trigger] units[i]).1)
}

proof fn lemma_node_sound(
    artifact: Artifact,
    node: Node,
    names: Option<Seq<Seq<char>>>,
    units: Seq<(Seq<char>, UnitModel)>,
)
    requires
        units_sound(units),
        with_node(artifact, node, names, units) is Ok,
    ensures
        units_sound(with_node(artifact, node, names, units)->Ok_0),
{
    if let Some(name) = node.name {
        lemma_place(units, name@, 0);
    }
    if let Some(d) = artifact.deployed_bytecode {
        if let (Some(deployed), Some(creation)) = (d.bytecode, artifact.bytecode) {
            if let (Some(name), Some(source)) = (node.name, artifact.source) {
                let r = code_model(deployed);
                let c = code_model(creation);
                if let (Ok(runtime_code), Ok(creation_code)) = (r, c) {
                    let fresh = UnitModel {
                        name: Seq::empty(),
                        path: artifact.path@,
                        functions: Seq::empty(),
                        variables: Seq::empty(),
                    };
                    assert(unit_sound(fresh));
                    if members_of(
                        source@,
                        runtime_code,
                        creation_code,
                        node.src,
                        node.nodes@,
                        node.nodes@.len(),
                        fresh,
                    ) is Ok {
                        law_visit_keeps_units_sound(
                            source@,
                            runtime_code,
                            creation_code,
                            node.src,
                            node.nodes@,
                            node.nodes@.len(),
                            fresh,
                        );
                    }
                }
            }
        }
    }
}

proof fn lemma_nodes_sound(
    artifact: Artifact,
    nodes: Seq<Node>,
    i: nat,
    names: Option<Seq<Seq<char>>>,
    units: Seq<(Seq<char>, UnitModel)>,
)
    requires
        units_sound(units),
        with_nodes(artifact, nodes, i, names, units) is Ok,
    ensures
        units_sound(with_nodes(artifact, nodes, i, names, units)->Ok_0),
    decreases (if i < nodes.len() { nodes.len() - i } else { 0 }),
{
    if i < nodes.len() {
        lemma_node_sound(artifact, nodes[i as int], names, units);
        let u = with_node(artifact, nodes[i as int], names, units)->Ok_0;
        lemma_nodes_sound(artifact, nodes, i + 1, names, u);
    }
}

/// Collecting the debug information of a project keeps that of every contract sound.
pub proof fn law_units_are_sound(
    artifacts: Seq<Artifact>,
    i: nat,
    names: Option<Seq<Seq<char>>>,
    units: Seq<(Seq<char>, UnitModel)>,
)
    requires
        units_sound(units),
        with_artifacts(artifacts, i, names, units) is Ok,
    ensures
        units_sound(with_artifacts(artifacts, i, names, units)->Ok_0),
    decreases (if i < artifacts.len() { artifacts.len() - i } else { 0 }),
{
    if i < artifacts.len() {
        match artifacts[i as int].ast {
            None => law_units_are_sound(artifacts, i + 1, names, units),
            Some(ast) => {
                lemma_nodes_sound(artifacts[i as int], ast.nodes@, 0, names, units);
                let u = with_nodes(artifacts[i as int], ast.nodes@, 0, names, units)->Ok_0;
                law_units_are_sound(artifacts, i + 1, names, u);
            },
        }
    }
}

} // verus!

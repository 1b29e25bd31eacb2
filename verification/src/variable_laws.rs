//! What is described of variables, of conditions, and of where they stand.

use vstd::prelude::*;
use vstd::utf8::{encode_utf8, is_char_boundary};

use crate::artifacts::CodeModel;
use crate::ast::{LowFidelitySourceLocation, Node, NodeType};
use crate::debug_info::{empty_block, BlockModel, UnitModel, VariableModel};
use crate::lines::line_and_column;
use crate::trace::{unit_variables, with_variables};
use crate::visit_laws::{code_for, goes_in, leads_in, statements_in};
use crate::visitor::{
    block_of, bodies_of, function_block, function_of, function_parameters, has_bodies, last_pc,
    law_bodies_become_scopes, located, member_of, members_of, parameters_of, scope_of, statement_of,
    statements_of, variable_of, VisitError,
};

verus! {

/// Whether a position is in the text, between characters.
pub open spec fn in_text(source: Seq<char>, n: int) -> bool {
    0 <= n <= encode_utf8(source).len() && is_char_boundary(encode_utf8(source), n)
}

/// A node stands from the line and column of its first byte to those of the byte behind its last one,
/// where its length is known. It has no place where either is outside of the text or inside a
/// character.
pub proof fn law_nodes_stand_in_the_text(source: Seq<char>, src: LowFidelitySourceLocation)
    ensures
        located(source, src) is Some <==> in_text(source, src.start as int) && (src.length is Some
            ==> in_text(source, src.start + src.length->Some_0)),
        located(source, src) matches Some(l) ==> {
            let start = line_and_column(source, src.start as nat)->Some_0;
            &&& l.start_offset == src.start
            &&& l.length == src.length
            &&& l.line == start.0 as usize
            &&& l.column == start.1 as usize
            &&& l.end_line is Some <==> src.length is Some
            &&& l.end_column is Some <==> src.length is Some
            &&& src.length matches Some(length) ==> {
                let end = line_and_column(source, (src.start + length) as nat)->Some_0;
                &&& l.end_line->Some_0 == end.0 as usize
                &&& l.end_column->Some_0 == end.1 as usize
            }
        },
{
}

/// The declaration that names the variable: the node itself, or the first declaration of a statement.
pub open spec fn naming(node: Node) -> Node {
    if node.name is Some {
        node
    } else {
        node.declarations->Some_0@[0]
    }
}

/// Whether the variable is the one that the node declares: it has the name of its declaration, and
/// the id and the place of the node. It is one of the state if the node itself has the name.
pub open spec fn describes_variable(source: Seq<char>, node: Node, var: VariableModel) -> bool {
    &&& naming(node).name matches Some(name) && var.name == name@
    &&& node.id matches Some(id) && var.id == id as u64
    &&& located(source, node.src) == Some(var.location)
    &&& var.state_variable == (node.name is Some)
}

/// A node with a name and an id, or a statement with an id whose first declaration has a name,
/// declares a variable where it stands. A node with a name and no id declares none.
pub proof fn law_variables_are_described(source: Seq<char>, node: Node)
    ensures
        variable_of(source, node) matches Ok(Some(var)) ==> describes_variable(source, node, var),
        node.id is Some && located(source, node.src) is Some && (node.name is Some || (
        node.declarations is Some && node.declarations->Some_0@.len() > 0 && naming(
            node,
        ).name is Some)) ==> variable_of(source, node) is Ok && variable_of(
            source,
            node,
        )->Ok_0 is Some,
        variable_of(source, node) == Ok::<Option<VariableModel>, VisitError>(None) <==> node.name is Some
            && node.id is None,
{
}

/// The parameters of a function are those of its parameter nodes that have an id, one for one and in
/// their order.
pub proof fn law_parameters_are_described(source: Seq<char>, node: Node)
    requires
        function_parameters(source, node) is Ok,
    ensures
        ({
            let nodes = if node.parameters is Some {
                node.parameters->Some_0@
            } else {
                Seq::empty()
            };
            let described = nodes.filter(|p: Node| !(p.name is Some && p.id is None));
            let parameters = function_parameters(source, node)->Ok_0;
            &&& parameters.len() == described.len()
            &&& forall|i: int|
                0 <= i < parameters.len() ==> describes_variable(
                    source,
                    described[i],
                    #[trigger] parameters[i],
                )
        }),
{
    if let Some(nodes) = node.parameters {
        lemma_parameters(source, nodes@, nodes@.len());
        assert(nodes@.take(nodes@.len() as int) =~= nodes@);
    } else {
        reveal(Seq::filter);
    }
}

proof fn lemma_parameters(source: Seq<char>, nodes: Seq<Node>, n: nat)
    requires
        n <= nodes.len(),
        parameters_of(source, nodes, n) is Ok,
    ensures
        ({
            let described = nodes.take(n as int).filter(
                |p: Node| !(p.name is Some && p.id is None),
            );
            let parameters = parameters_of(source, nodes, n)->Ok_0;
            &&& parameters.len() == described.len()
            &&& forall|i: int|
                0 <= i < parameters.len() ==> describes_variable(
                    source,
                    described[i],
                    #[trigger] parameters[i],
                )
        }),
    decreases n,
{
    reveal(Seq::filter);
    if n > 0 {
        lemma_parameters(source, nodes, (n - 1) as nat);
        law_variables_are_described(source, nodes[n - 1]);
        assert(nodes.take(n as int).drop_last() =~= nodes.take(n - 1));
        assert(nodes.take(n as int).last() == nodes[n - 1]);
    }
}

proof fn lemma_keeps_condition(
    source: Seq<char>,
    code: CodeModel,
    statements: Seq<Node>,
    n: nat,
    block: BlockModel,
    vars: Seq<VariableModel>,
)
    requires
        n <= statements.len(),
        statements_of(source, code, statements, n, block, vars) is Ok,
    ensures
        statements_of(source, code, statements, n, block, vars)->Ok_0.0.condition == block.condition,
    decreases n,
{
    if n > 0 {
        let m = (n - 1) as nat;
        lemma_keeps_condition(source, code, statements, m, block, vars);
        let (b, v) = statements_of(source, code, statements, m, block, vars)->Ok_0;
        let s = statements[n - 1];
        assert(statement_of(source, code, s, b, v) is Ok);
        if has_bodies(s) {
            law_bodies_become_scopes(source, code, s, b, v);
        }
    }
}

proof fn lemma_blocks_have_no_condition(
    source: Seq<char>,
    code: CodeModel,
    node: Node,
    vars: Seq<VariableModel>,
)
    requires
        block_of(source, code, node, vars) is Ok,
    ensures
        block_of(source, code, node, vars)->Ok_0.0.condition is None,
{
    let block = BlockModel { location: located(source, node.src)->Some_0, ..empty_block() };
    if let Some(s) = node.statements {
        lemma_keeps_condition(source, code, s@, s@.len(), block, vars);
    }
}

/// Whether the scope runs under the condition: where the condition has code, it is an instruction of
/// its own, at the last of those that belong to it.
pub open spec fn runs_under(
    source: Seq<char>,
    code: CodeModel,
    condition: Option<Box<Node>>,
    scope: BlockModel,
) -> bool {
    if condition is Some && last_pc(code, condition->Some_0.src) is Some {
        scope.condition matches Some(i) && i.kind is Statement && Some(i.pc) == last_pc(
            code,
            condition->Some_0.src,
        ) && Some(i.location) == located(source, condition->Some_0.src)
    } else {
        scope.condition is None
    }
}

proof fn lemma_scope_condition(
    source: Seq<char>,
    code: CodeModel,
    condition: Option<Box<Node>>,
    body: Node,
    block: BlockModel,
    vars: Seq<VariableModel>,
)
    requires
        scope_of(source, code, condition, body, block, vars) is Ok,
    ensures
        ({
            let b = scope_of(source, code, condition, body, block, vars)->Ok_0.0;
            &&& b.scopes.len() == block.scopes.len() + 1
            &&& runs_under(source, code, condition, b.scopes.last())
        }),
{
    assert(block_of(source, code, body, vars) is Ok);
    lemma_blocks_have_no_condition(source, code, body, vars);
}

/// The body of a loop runs under the condition of the loop, and that of a branch under the condition
/// of the branch. What runs otherwise runs under no condition of its own.
pub proof fn law_conditions_are_described(
    source: Seq<char>,
    code: CodeModel,
    statement: Node,
    block: BlockModel,
    vars: Seq<VariableModel>,
)
    requires
        has_bodies(statement),
        statement_of(source, code, statement, block, vars) is Ok,
    ensures
        ({
            let scopes = statement_of(source, code, statement, block, vars)->Ok_0.0.scopes;
            let n = block.scopes.len() as int;
            &&& !(statement.node_type is IfStatement) && statement.body is Some ==> scopes.len() == n
                + 1 && runs_under(source, code, statement.condition, scopes[n])
            &&& statement.node_type is IfStatement && statement.true_body is Some ==> scopes.len() > n
                && runs_under(source, code, statement.condition, scopes[n])
            &&& statement.node_type is IfStatement && statement.false_body is Some && !(
            statement.false_body->Some_0.node_type is IfStatement) ==> scopes.len() > n
                && scopes.last().condition is None
        }),
{
    law_bodies_become_scopes(source, code, statement, block, vars);
    if statement.node_type == NodeType::IfStatement {
        let (b, v) = match statement.true_body {
            None => (block, vars),
            Some(body) => scope_of(source, code, statement.condition, *body, block, vars)->Ok_0,
        };
        if let Some(body) = statement.true_body {
            assert(scope_of(source, code, statement.condition, *body, block, vars) is Ok);
            lemma_scope_condition(source, code, statement.condition, *body, block, vars);
        }
        if let Some(other) = statement.false_body {
            if other.node_type == NodeType::IfStatement {
                assert(statement_of(source, code, *other, b, v) is Ok);
                law_bodies_become_scopes(source, code, *other, b, v);
            } else {
                assert(scope_of(source, code, None, *other, b, v) is Ok);
                lemma_scope_condition(source, code, None, *other, b, v);
            }
        }
    } else if let Some(body) = statement.body {
        assert(scope_of(source, code, statement.condition, *body, block, vars) is Ok);
        lemma_scope_condition(source, code, statement.condition, *body, block, vars);
    }
}

proof fn lemma_block_lists(source: Seq<char>, code: CodeModel, node: Node, vars: Seq<VariableModel>)
    requires
        block_of(source, code, node, vars) is Ok,
    ensures
        vars.is_prefix_of(block_of(source, code, node, vars)->Ok_0.1),
    decreases node, 1nat,
{
    let block = BlockModel { location: located(source, node.src)->Some_0, ..empty_block() };
    if let Some(s) = node.statements {
        lemma_statements_list(source, code, s@, s@.len(), block, vars);
    }
}

proof fn lemma_statements_list(
    source: Seq<char>,
    code: CodeModel,
    statements: Seq<Node>,
    n: nat,
    block: BlockModel,
    vars: Seq<VariableModel>,
)
    requires
        statements_of(source, code, statements, n, block, vars) is Ok,
    ensures
        vars.is_prefix_of(statements_of(source, code, statements, n, block, vars)->Ok_0.1),
    decreases statements, n,
{
    if 0 < n <= statements.len() {
        let m = (n - 1) as nat;
        assert(statements_of(source, code, statements, m, block, vars) is Ok);
        lemma_statements_list(source, code, statements, m, block, vars);
        let (b, v) = statements_of(source, code, statements, m, block, vars)->Ok_0;
        lemma_statement_lists(source, code, statements[n - 1], b, v);
        let w = statement_of(source, code, statements[n - 1], b, v)->Ok_0.1;
        assert(vars.is_prefix_of(w));
    }
}

proof fn lemma_scope_lists(
    source: Seq<char>,
    code: CodeModel,
    condition: Option<Box<Node>>,
    body: Node,
    block: BlockModel,
    vars: Seq<VariableModel>,
)
    requires
        scope_of(source, code, condition, body, block, vars) is Ok,
    ensures
        vars.is_prefix_of(scope_of(source, code, condition, body, block, vars)->Ok_0.1),
    decreases body, 2nat,
{
    assert(block_of(source, code, body, vars) is Ok);
    lemma_block_lists(source, code, body, vars);
}

proof fn lemma_statement_lists(
    source: Seq<char>,
    code: CodeModel,
    statement: Node,
    block: BlockModel,
    vars: Seq<VariableModel>,
)
    requires
        statement_of(source, code, statement, block, vars) is Ok,
    ensures
        vars.is_prefix_of(statement_of(source, code, statement, block, vars)->Ok_0.1),
    decreases statement, 0nat,
{
    if statement.node_type == NodeType::IfStatement {
        let (b, v) = match statement.true_body {
            None => (block, vars),
            Some(body) => scope_of(source, code, statement.condition, *body, block, vars)->Ok_0,
        };
        if let Some(body) = statement.true_body {
            assert(scope_of(source, code, statement.condition, *body, block, vars) is Ok);
            lemma_scope_lists(source, code, statement.condition, *body, block, vars);
        }
        assert(vars.is_prefix_of(v));
        if let Some(other) = statement.false_body {
            let w = statement_of(source, code, statement, block, vars)->Ok_0.1;
            if other.node_type == NodeType::IfStatement {
                assert(statement_of(source, code, *other, b, v) is Ok);
                lemma_statement_lists(source, code, *other, b, v);
            } else {
                assert(scope_of(source, code, None, *other, b, v) is Ok);
                lemma_scope_lists(source, code, None, *other, b, v);
            }
            assert(v.is_prefix_of(w));
            assert(vars.is_prefix_of(w));
        }
    } else if has_bodies(statement) {
        if let Some(body) = statement.body {
            assert(scope_of(source, code, statement.condition, *body, block, vars) is Ok);
            lemma_scope_lists(source, code, statement.condition, *body, block, vars);
        }
    }
}

proof fn lemma_stays_listed(vars: Seq<VariableModel>, after: Seq<VariableModel>, var: VariableModel)
    requires
        vars.is_prefix_of(after),
        vars.contains(var),
    ensures
        after.contains(var),
{
    let k = choose|k: int| 0 <= k < vars.len() && vars[k] == var;
    assert(after[k] == var);
}

/// Whether the variable is listed whenever the block is described.
spec fn always_lists(source: Seq<char>, code: CodeModel, node: Node, var: VariableModel) -> bool {
    forall|v: Seq<VariableModel>|
        (#[trigger] block_of(source, code, node, v)) is Ok ==> block_of(
            source,
            code,
            node,
            v,
        )->Ok_0.1.contains(var)
}

proof fn lemma_body_lists(
    source: Seq<char>,
    code: CodeModel,
    statement: Node,
    block: BlockModel,
    vars: Seq<VariableModel>,
    body: Node,
    var: VariableModel,
)
    requires
        has_bodies(statement),
        bodies_of(statement).contains(body),
        always_lists(source, code, body, var),
        statement_of(source, code, statement, block, vars) is Ok,
    ensures
        statement_of(source, code, statement, block, vars)->Ok_0.1.contains(var),
    decreases statement,
{
    let after = statement_of(source, code, statement, block, vars)->Ok_0.1;
    if statement.node_type == NodeType::IfStatement {
        let (b, v) = match statement.true_body {
            None => (block, vars),
            Some(taken) => scope_of(source, code, statement.condition, *taken, block, vars)->Ok_0,
        };
        if let Some(taken) = statement.true_body {
            assert(scope_of(source, code, statement.condition, *taken, block, vars) is Ok);
            assert(block_of(source, code, *taken, vars) is Ok);
        }
        if let Some(other) = statement.false_body {
            if other.node_type == NodeType::IfStatement {
                assert(statement_of(source, code, *other, b, v) is Ok);
                lemma_statement_lists(source, code, *other, b, v);
                if bodies_of(*other).contains(body) {
                    lemma_body_lists(source, code, *other, b, v, body, var);
                }
            } else {
                assert(scope_of(source, code, None, *other, b, v) is Ok);
                assert(block_of(source, code, *other, v) is Ok);
                lemma_scope_lists(source, code, None, *other, b, v);
            }
            assert(v.is_prefix_of(after));
        }
        if statement.true_body is Some && *statement.true_body->Some_0 == body {
            assert(v.contains(var));
            if statement.false_body is Some {
                lemma_stays_listed(v, after, var);
            }
        }
    } else if let Some(inner) = statement.body {
        assert(scope_of(source, code, statement.condition, *inner, block, vars) is Ok);
        assert(block_of(source, code, *inner, vars) is Ok);
    }
}

proof fn lemma_inner_lists(
    source: Seq<char>,
    code: CodeModel,
    path: Seq<Node>,
    k: int,
    var: VariableModel,
)
    requires
        leads_in(path),
        0 <= k < statements_in(path.last()).len(),
        statements_in(path.last())[k].node_type is VariableDeclarationStatement,
        variable_of(source, statements_in(path.last())[k]) == Ok::<
            Option<VariableModel>,
            VisitError,
        >(Some(var)),
    ensures
        always_lists(source, code, path[0], var),
    decreases path.len(),
{
    let statements = statements_in(path[0]);
    let at = if path.len() == 1 {
        k
    } else {
        assert(goes_in(path, 0));
        choose|j: int|
            #![trigger statements_in(path[0])[j]]
            0 <= j < statements_in(path[0]).len() && has_bodies(statements_in(path[0])[j])
                && bodies_of(statements_in(path[0])[j]).contains(path[1])
    };
    if path.len() > 1 {
        let rest = path.skip(1);
        assert(leads_in(rest)) by {
            assert forall|i: int| 0 <= i < rest.len() - 1 implies #[trigger] goes_in(rest, i) by {
                assert(goes_in(path, i + 1));
                let next = path[i + 1];
                let j = choose|j: int|
                    #![trigger statements_in(next)[j]]
                    0 <= j < statements_in(next).len() && has_bodies(statements_in(next)[j])
                        && bodies_of(statements_in(next)[j]).contains(path[i + 2]);
                assert(rest[i] == next && rest[i + 1] == path[i + 2]);
                assert(bodies_of(statements_in(rest[i])[j]).contains(rest[i + 1]));
            }
        }
        assert(rest.last() == path.last());
        lemma_inner_lists(source, code, rest, k, var);
    }
    assert forall|v: Seq<VariableModel>|
        (#[trigger] block_of(source, code, path[0], v)) is Ok implies block_of(
        source,
        code,
        path[0],
        v,
    )->Ok_0.1.contains(var) by {
        let block = BlockModel { location: located(source, path[0].src)->Some_0, ..empty_block() };
        lemma_among(source, code, statements, statements.len(), block, v, at, path, var);
    }
}

proof fn lemma_among(
    source: Seq<char>,
    code: CodeModel,
    statements: Seq<Node>,
    n: nat,
    block: BlockModel,
    vars: Seq<VariableModel>,
    at: int,
    path: Seq<Node>,
    var: VariableModel,
)
    requires
        0 <= at < n <= statements.len(),
        statements_of(source, code, statements, n, block, vars) is Ok,
        path.len() == 1 ==> statements[at].node_type is VariableDeclarationStatement && variable_of(
            source,
            statements[at],
        ) == Ok::<Option<VariableModel>, VisitError>(Some(var)),
        path.len() != 1 ==> has_bodies(statements[at]) && bodies_of(statements[at]).contains(path[1])
            && always_lists(source, code, path[1], var),
    ensures
        statements_of(source, code, statements, n, block, vars)->Ok_0.1.contains(var),
    decreases n,
{
    let m = (n - 1) as nat;
    assert(statements_of(source, code, statements, m, block, vars) is Ok);
    let (b, v) = statements_of(source, code, statements, m, block, vars)->Ok_0;
    assert(statement_of(source, code, statements[n - 1], b, v) is Ok);
    if at == m {
        if path.len() == 1 {
            let w = statement_of(source, code, statements[at], b, v)->Ok_0.1;
            assert(w == v.push(var));
            assert(w[v.len() as int] == var);
        } else {
            lemma_body_lists(source, code, statements[at], b, v, path[1], var);
        }
    } else {
        lemma_among(source, code, statements, m, block, vars, at, path, var);
        lemma_statement_lists(source, code, statements[n - 1], b, v);
        let w = statement_of(source, code, statements[n - 1], b, v)->Ok_0.1;
        lemma_stays_listed(v, w, var);
    }
}

proof fn lemma_member_lists(
    source: Seq<char>,
    runtime: CodeModel,
    creation: CodeModel,
    contract: LowFidelitySourceLocation,
    node: Node,
    unit: UnitModel,
)
    requires
        member_of(source, runtime, creation, contract, node, unit) is Ok,
    ensures
        unit.variables.is_prefix_of(
            member_of(source, runtime, creation, contract, node, unit)->Ok_0.variables,
        ),
{
    if node.node_type == NodeType::FunctionDefinition {
        let code = code_for(runtime, creation, node);
        assert(function_of(source, runtime, creation, contract, node, unit.variables) is Ok);
        assert(function_block(source, code, node, unit.variables) is Ok);
        if let Some(body) = node.body {
            lemma_block_lists(source, code, *body, unit.variables);
        }
    }
}

/// Every state variable of a contract is listed with its name, its id and its place.
pub proof fn law_state_variables_are_listed(
    source: Seq<char>,
    runtime: CodeModel,
    creation: CodeModel,
    contract: LowFidelitySourceLocation,
    nodes: Seq<Node>,
    n: nat,
    unit: UnitModel,
    k: int,
) -> (var: VariableModel)
    requires
        0 <= k < n <= nodes.len(),
        members_of(source, runtime, creation, contract, nodes, n, unit) is Ok,
        nodes[k].node_type is VariableDeclaration,
        nodes[k].state_variable == Some(true),
    ensures
        members_of(source, runtime, creation, contract, nodes, n, unit)->Ok_0.variables.contains(var),
        describes_variable(source, nodes[k], var),
    decreases n,
{
    let m = (n - 1) as nat;
    assert(members_of(source, runtime, creation, contract, nodes, m, unit) is Ok);
    let u = members_of(source, runtime, creation, contract, nodes, m, unit)->Ok_0;
    assert(member_of(source, runtime, creation, contract, nodes[n - 1], u) is Ok);
    let after = member_of(source, runtime, creation, contract, nodes[n - 1], u)->Ok_0;
    if k == m {
        law_variables_are_described(source, nodes[k]);
        let var = variable_of(source, nodes[k])->Ok_0->Some_0;
        assert(after.variables[u.variables.len() as int] == var);
        var
    } else {
        let var = law_state_variables_are_listed(
            source,
            runtime,
            creation,
            contract,
            nodes,
            m,
            unit,
            k,
        );
        lemma_member_lists(source, runtime, creation, contract, nodes[n - 1], u);
        lemma_stays_listed(u.variables, after.variables, var);
        var
    }
}

/// Every variable that a function of a contract declares, however deep in its body, is listed with
/// its name, its id and its place.
pub proof fn law_local_variables_are_listed(
    source: Seq<char>,
    runtime: CodeModel,
    creation: CodeModel,
    contract: LowFidelitySourceLocation,
    nodes: Seq<Node>,
    n: nat,
    unit: UnitModel,
    k: int,
    path: Seq<Node>,
    s: int,
    var: VariableModel,
)
    requires
        0 <= k < n <= nodes.len(),
        members_of(source, runtime, creation, contract, nodes, n, unit) is Ok,
        nodes[k].node_type is FunctionDefinition,
        leads_in(path),
        nodes[k].body is Some,
        *nodes[k].body->Some_0 == path[0],
        0 <= s < statements_in(path.last()).len(),
        statements_in(path.last())[s].node_type is VariableDeclarationStatement,
        variable_of(source, statements_in(path.last())[s]) == Ok::<
            Option<VariableModel>,
            VisitError,
        >(Some(var)),
    ensures
        members_of(source, runtime, creation, contract, nodes, n, unit)->Ok_0.variables.contains(var),
        describes_variable(source, statements_in(path.last())[s], var),
    decreases n,
{
    law_variables_are_described(source, statements_in(path.last())[s]);
    let m = (n - 1) as nat;
    assert(members_of(source, runtime, creation, contract, nodes, m, unit) is Ok);
    let u = members_of(source, runtime, creation, contract, nodes, m, unit)->Ok_0;
    assert(member_of(source, runtime, creation, contract, nodes[n - 1], u) is Ok);
    let after = member_of(source, runtime, creation, contract, nodes[n - 1], u)->Ok_0;
    if k == m {
        let code = code_for(runtime, creation, nodes[k]);
        lemma_inner_lists(source, code, path, s, var);
        assert(function_of(source, runtime, creation, contract, nodes[k], u.variables) is Ok);
        assert(function_block(source, code, nodes[k], u.variables) is Ok);
        assert(block_of(source, code, path[0], u.variables) is Ok);
    } else {
        law_local_variables_are_listed(
            source,
            runtime,
            creation,
            contract,
            nodes,
            m,
            unit,
            k,
            path,
            s,
            var,
        );
        lemma_member_lists(source, runtime, creation, contract, nodes[n - 1], u);
        lemma_stays_listed(u.variables, after.variables, var);
    }
}

/// The variables of all contracts, one contract after the other.
pub open spec fn all_variables(units: Seq<(Seq<char>, UnitModel)>) -> Seq<VariableModel> {
    units.map_values(|u: (Seq<char>, UnitModel)| u.1.variables).flatten()
}

/// Whether the map leads from the id of each variable to the last one with that id, and from nothing
/// else.
pub open spec fn keeps_last(vars: Seq<VariableModel>, map: Map<u64, VariableModel>) -> bool {
    &&& forall|k: int|
        0 <= k < vars.len() ==> map.dom().contains((#[trigger] vars[k]).id)
    &&& forall|k: int|
        0 <= k < vars.len() && (forall|j: int|
            k < j < vars.len() ==> (#[trigger] vars[j]).id != vars[k].id) ==> map[(
        #[trigger] vars[k]).id] == vars[k]
    &&& forall|id: u64| #[trigger]
        map.dom().contains(id) ==> exists|k: int| 0 <= k < vars.len() && (#[trigger] vars[k]).id == id
}

proof fn lemma_keep_one(vars: Seq<VariableModel>, map: Map<u64, VariableModel>, var: VariableModel)
    requires
        keeps_last(vars, map),
    ensures
        keeps_last(vars.push(var), map.insert(var.id, var)),
{
    let all = vars.push(var);
    let after = map.insert(var.id, var);
    assert forall|k: int| 0 <= k < all.len() implies after.dom().contains(
        (#[trigger] all[k]).id,
    ) by {
        if k < vars.len() {
            assert(all[k] == vars[k]);
        }
    }
    assert forall|k: int|
        0 <= k < all.len() && (forall|j: int|
            k < j < all.len() ==> (#[trigger] all[j]).id != all[k].id) implies after[(
    #[trigger] all[k]).id] == all[k] by {
        if k < vars.len() {
            assert(all[vars.len() as int].id != all[k].id);
            assert(all[k] == vars[k]);
            assert forall|j: int| k < j < vars.len() implies (#[trigger] vars[j]).id
                != vars[k].id by {
                assert(all[j] == vars[j]);
            }
        }
    }
    assert forall|id: u64| #[trigger] after.dom().contains(id) implies exists|k: int|
        0 <= k < all.len() && (#[trigger] all[k]).id == id by {
        if id == var.id {
            assert(all[vars.len() as int].id == id);
        } else {
            assert(map.dom().contains(id));
            let k = choose|k: int| 0 <= k < vars.len() && (#[trigger] vars[k]).id == id;
            assert(all[k].id == id);
        }
    }
}

proof fn lemma_keep_more(
    before: Seq<VariableModel>,
    map: Map<u64, VariableModel>,
    vars: Seq<VariableModel>,
    n: nat,
)
    requires
        n <= vars.len(),
        keeps_last(before, map),
    ensures
        keeps_last(before + vars.take(n as int), with_variables(map, vars, n)),
    decreases n,
{
    if n == 0 {
        assert(before + vars.take(0) =~= before);
    } else {
        lemma_keep_more(before, map, vars, (n - 1) as nat);
        let so_far = before + vars.take(n - 1);
        lemma_keep_one(so_far, with_variables(map, vars, (n - 1) as nat), vars[n - 1]);
        assert(before + vars.take(n as int) =~= so_far.push(vars[n - 1]));
    }
}

/// The variables of a run are found by their ids; of those with one id, the last one of the last
/// contract counts.
pub proof fn law_variables_are_found_by_id(units: Seq<(Seq<char>, UnitModel)>)
    ensures
        keeps_last(all_variables(units), unit_variables(units, units.len())),
{
    lemma_units_keep(units, units.len());
    assert(units.take(units.len() as int) =~= units);
}

proof fn lemma_units_keep(units: Seq<(Seq<char>, UnitModel)>, n: nat)
    requires
        n <= units.len(),
    ensures
        keeps_last(all_variables(units.take(n as int)), unit_variables(units, n)),
    decreases n,
{
    let f = |u: (Seq<char>, UnitModel)| u.1.variables;
    let lists = units.take(n as int).map_values(f);
    if n == 0 {
        assert(lists =~= Seq::empty());
    } else {
        let vars = units[n - 1].1.variables;
        lemma_units_keep(units, (n - 1) as nat);
        let before = all_variables(units.take(n - 1));
        lemma_keep_more(before, unit_variables(units, (n - 1) as nat), vars, vars.len());
        assert(vars.take(vars.len() as int) =~= vars);
        assert(lists.drop_last() =~= units.take(n - 1).map_values(f));
        assert(lists.last() == vars);
        lists.lemma_flatten_and_flatten_alt_are_equivalent();
        lists.drop_last().lemma_flatten_and_flatten_alt_are_equivalent();
    }
}

} // verus!

//! The compiler's syntax tree, with the attributes that the debugger reads.

use vstd::prelude::*;

verus! {

/// What a node of the syntax tree stands for.
#[derive(Clone, Copy, Debug, PartialEq, Eq, Structural)]
pub enum NodeType {
    // Expressions
    Assignment,
    BinaryOperation,
    Conditional,
    ElementaryTypeNameExpression,
    FunctionCall,
    FunctionCallOptions,
    Identifier,
    IndexAccess,
    IndexRangeAccess,
    Literal,
    MemberAccess,
    NewExpression,
    TupleExpression,
    UnaryOperation,
    // Statements
    Block,
    Break,
    Continue,
    DoWhileStatement,
    EmitStatement,
    ExpressionStatement,
    ForStatement,
    IfStatement,
    InlineAssembly,
    PlaceholderStatement,
    Return,
    RevertStatement,
    TryStatement,
    UncheckedBlock,
    VariableDeclarationStatement,
    VariableDeclaration,
    WhileStatement,
    // Definitions
    ContractDefinition,
    FunctionDefinition,
    EventDefinition,
    ErrorDefinition,
    ModifierDefinition,
    StructDefinition,
    EnumDefinition,
    UserDefinedValueTypeDefinition,
    // Directives
    PragmaDirective,
    ImportDirective,
    UsingForDirective,
    // Misc
    SourceUnit,
    InheritanceSpecifier,
    ElementaryTypeName,
    FunctionTypeName,
    ParameterList,
    TryCatchClause,
    ModifierInvocation,
    /// Inline assembly and node types that the compiler's later versions add.
    Other,
}

/// Where a node stands in its source file, in bytes.
#[derive(Clone, Copy, Debug, PartialEq, Eq, Structural)]
pub struct LowFidelitySourceLocation {
    pub start: usize,
    pub length: Option<usize>,
}

/// A node of the syntax tree. An attribute that a node does not have, or has in another form,
/// is absent.
#[derive(Debug, PartialEq)]
pub struct Node {
    pub id: Option<usize>,
    pub node_type: NodeType,
    pub src: LowFidelitySourceLocation,
    /// Child nodes for some node types.
    pub nodes: Vec<Node>,
    /// Body node for some node types.
    pub body: Option<Box<Node>>,
    pub name: Option<String>,
    /// The kind of a function: `"constructor"`, `"function"` and so on.
    pub kind: Option<String>,
    pub state_variable: Option<bool>,
    pub storage_location: Option<String>,
    pub referenced_declaration: Option<i32>,
    pub declared_type: Option<TypeNode>,
    pub expression: Option<Box<Node>>,
    pub true_body: Option<Box<Node>>,
    /// The `else` branch: a block, another `if`, or a single statement.
    pub false_body: Option<Box<Node>>,
    pub condition: Option<Box<Node>>,
    pub initial_value: Option<Box<Node>>,
    pub left_expression: Option<Box<Node>>,
    pub right_expression: Option<Box<Node>>,
    pub right_hand_side: Option<Box<Node>>,
    pub sub_expression: Option<Box<Node>>,
    pub statements: Option<Vec<Node>>,
    pub arguments: Option<Vec<Node>>,
    pub declarations: Option<Vec<Node>>,
    pub parameters: Option<Vec<Node>>,
    pub members: Option<Vec<Node>>,
    /// Child nodes under all other attributes.
    pub others: Vec<Node>,
}

/// What a type name stands for.
#[derive(Clone, Copy, Debug, PartialEq, Eq, Structural)]
pub enum TypeNodeType {
    UserDefinedTypeName,
    ElementaryTypeName,
    Mapping,
    ArrayTypeName,
    Literal,
}

/// A type name in the syntax tree.
#[derive(Debug, PartialEq)]
pub struct TypeNode {
    pub node_type: TypeNodeType,
    pub name: Option<String>,
    pub value: Option<String>,
    pub referenced_declaration: Option<usize>,
    pub key_type: Option<Box<TypeNode>>,
    pub value_type: Option<Box<TypeNode>>,
    pub base_type: Option<Box<TypeNode>>,
    pub length: Option<Box<TypeNode>>,
}

/// The syntax tree of one source file.
#[derive(Debug, PartialEq)]
pub struct Ast {
    pub absolute_path: String,
    pub nodes: Vec<Node>,
}

impl Node {
    /// A node without attributes.
    pub fn new(node_type: NodeType, src: LowFidelitySourceLocation) -> (r: Node)
        ensures
            r.node_type == node_type,
            r.src == src,
            r.id is None,
            r.nodes@.len() == 0,
            r.body is None,
            r.name is None,
            r.kind is None,
            r.state_variable is None,
            r.storage_location is None,
            r.referenced_declaration is None,
            r.declared_type is None,
            r.expression is None,
            r.true_body is None,
            r.false_body is None,
            r.condition is None,
            r.initial_value is None,
            r.left_expression is None,
            r.right_expression is None,
            r.right_hand_side is None,
            r.sub_expression is None,
            r.statements is None,
            r.arguments is None,
            r.declarations is None,
            r.parameters is None,
            r.members is None,
            r.others@.len() == 0,
    {
        Node {
            id: None,
            node_type,
            src,
            nodes: Vec::new(),
            body: None,
            name: None,
            kind: None,
            state_variable: None,
            storage_location: None,
            referenced_declaration: None,
            declared_type: None,
            expression: None,
            true_body: None,
            false_body: None,
            condition: None,
            initial_value: None,
            left_expression: None,
            right_expression: None,
            right_hand_side: None,
            sub_expression: None,
            statements: None,
            arguments: None,
            declarations: None,
            parameters: None,
            members: None,
            others: Vec::new(),
        }
    }
}

impl TypeNode {
    /// A type name without attributes.
    pub fn new(node_type: TypeNodeType) -> (r: TypeNode)
        ensures
            r.node_type == node_type,
            r.name is None,
            r.value is None,
            r.referenced_declaration is None,
            r.key_type is None,
            r.value_type is None,
            r.base_type is None,
            r.length is None,
    {
        TypeNode {
            node_type,
            name: None,
            value: None,
            referenced_declaration: None,
            key_type: None,
            value_type: None,
            base_type: None,
            length: None,
        }
    }
}

/// The nodes of type `target` in `node`: the node itself first, then those in each of its children.
pub open spec fn nodes_of_type(node: Node, target: NodeType) -> Seq<Node> {
    nodes_in(node, target, true)
}

/// The nodes of type `target` in the first `n` of `nodes`, in order.
pub open spec fn all_of_type(nodes: Seq<Node>, n: nat, target: NodeType) -> Seq<Node> {
    all_in(nodes, n, target, true)
}

/// The node itself, if it is of the type.
pub open spec fn own(node: Node, target: NodeType) -> Seq<Node> {
    if node.node_type == target {
        seq![node]
    } else {
        Seq::empty()
    }
}

/// The nodes of type `target` in `node`: the node itself first, then those in its children. Without
/// `with_members`, those in parameters and in the members of structs are left out.
pub open spec fn nodes_in(node: Node, target: NodeType, with_members: bool) -> Seq<Node>
    decreases node, 0nat,
{
    let inside = own(node, target)
        + all_in(node.nodes@, node.nodes@.len(), target, with_members)
        + child_in(node.body, target, with_members)
        + list_in(node.declarations, target, with_members)
        + list_in(node.statements, target, with_members)
        + child_in(node.expression, target, with_members)
        + child_in(node.condition, target, with_members)
        + child_in(node.true_body, target, with_members)
        + child_in(node.false_body, target, with_members)
        + child_in(node.initial_value, target, with_members)
        + child_in(node.left_expression, target, with_members)
        + child_in(node.right_expression, target, with_members)
        + child_in(node.right_hand_side, target, with_members)
        + child_in(node.sub_expression, target, with_members)
        + list_in(node.arguments, target, with_members)
        + all_in(node.others@, node.others@.len(), target, with_members);
    if with_members {
        inside + list_in(node.parameters, target, with_members) + list_in(
            node.members,
            target,
            with_members,
        )
    } else {
        inside
    }
}

/// The nodes of type `target` in a child, where there is one.
pub open spec fn child_in(child: Option<Box<Node>>, target: NodeType, with_members: bool) -> Seq<
    Node,
>
    decreases child, 0nat,
{
    match child {
        Some(c) => nodes_in(*c, target, with_members),
        None => Seq::empty(),
    }
}

/// The nodes of type `target` in a list of children, where there is one.
pub open spec fn list_in(list: Option<Vec<Node>>, target: NodeType, with_members: bool) -> Seq<Node>
    decreases list, 0nat,
{
    match list {
        Some(l) => all_in(l@, l@.len(), target, with_members),
        None => Seq::empty(),
    }
}

/// The nodes of type `target` in the first `n` of `nodes`, in order.
pub open spec fn all_in(nodes: Seq<Node>, n: nat, target: NodeType, with_members: bool) -> Seq<Node>
    decreases nodes, n,
{
    if n == 0 || n > nodes.len() {
        Seq::empty()
    } else {
        all_in(nodes, (n - 1) as nat, target, with_members) + nodes_in(
            nodes[n - 1],
            target,
            with_members,
        )
    }
}

/// The nodes that `refs` point to.
pub open spec fn pointed(refs: Seq<&Node>) -> Seq<Node> {
    refs.map_values(|r: &Node| *r)
}

/// Collects all nodes of one type under `node`, itself included, each before those below it.
pub fn visit_nodes<'a>(node: &'a Node, target_type: NodeType, found: &mut Vec<&'a Node>)
    ensures
        pointed(final(found)@) == pointed(old(found)@) + nodes_of_type(*node, target_type),
{
    visit_node(node, target_type, true, found);
}

fn visit_node<'a>(
    node: &'a Node,
    target_type: NodeType,
    with_members: bool,
    found: &mut Vec<&'a Node>,
)
    ensures
        pointed(final(found)@) == pointed(old(found)@) + nodes_in(*node, target_type, with_members),
    decreases node, 0nat,
{
    let ghost start = pointed(found@);
    if node.node_type == target_type {
        found.push(node);
    }
    let ghost mut done: Seq<Node> = own(*node, target_type);
    assert(pointed(found@) =~= start + done);
    visit_all(&node.nodes, target_type, with_members, found);
    proof {
        done = lemma_joined_on(
            start,
            done,
            all_in(node.nodes@, node.nodes@.len(), target_type, with_members),
        );
    }
    visit_child(&node.body, target_type, with_members, found);
    proof {
        done = lemma_joined_on(start, done, child_in(node.body, target_type, with_members));
    }
    visit_list(&node.declarations, target_type, with_members, found);
    proof {
        done = lemma_joined_on(start, done, list_in(node.declarations, target_type, with_members));
    }
    visit_list(&node.statements, target_type, with_members, found);
    proof {
        done = lemma_joined_on(start, done, list_in(node.statements, target_type, with_members));
    }
    visit_child(&node.expression, target_type, with_members, found);
    proof {
        done = lemma_joined_on(start, done, child_in(node.expression, target_type, with_members));
    }
    visit_child(&node.condition, target_type, with_members, found);
    proof {
        done = lemma_joined_on(start, done, child_in(node.condition, target_type, with_members));
    }
    visit_child(&node.true_body, target_type, with_members, found);
    proof {
        done = lemma_joined_on(start, done, child_in(node.true_body, target_type, with_members));
    }
    visit_child(&node.false_body, target_type, with_members, found);
    proof {
        done = lemma_joined_on(start, done, child_in(node.false_body, target_type, with_members));
    }
    visit_child(&node.initial_value, target_type, with_members, found);
    proof {
        done = lemma_joined_on(
            start,
            done,
            child_in(node.initial_value, target_type, with_members),
        );
    }
    visit_child(&node.left_expression, target_type, with_members, found);
    proof {
        done = lemma_joined_on(
            start,
            done,
            child_in(node.left_expression, target_type, with_members),
        );
    }
    visit_child(&node.right_expression, target_type, with_members, found);
    proof {
        done = lemma_joined_on(
            start,
            done,
            child_in(node.right_expression, target_type, with_members),
        );
    }
    visit_child(&node.right_hand_side, target_type, with_members, found);
    proof {
        done = lemma_joined_on(
            start,
            done,
            child_in(node.right_hand_side, target_type, with_members),
        );
    }
    visit_child(&node.sub_expression, target_type, with_members, found);
    proof {
        done = lemma_joined_on(
            start,
            done,
            child_in(node.sub_expression, target_type, with_members),
        );
    }
    visit_list(&node.arguments, target_type, with_members, found);
    proof {
        done = lemma_joined_on(start, done, list_in(node.arguments, target_type, with_members));
    }
    visit_all(&node.others, target_type, with_members, found);
    proof {
        done = lemma_joined_on(
            start,
            done,
            all_in(node.others@, node.others@.len(), target_type, with_members),
        );
    }
    if with_members {
        visit_list(&node.parameters, target_type, with_members, found);
        proof {
            done = lemma_joined_on(
                start,
                done,
                list_in(node.parameters, target_type, with_members),
            );
        }
        visit_list(&node.members, target_type, with_members, found);
        proof {
            done = lemma_joined_on(start, done, list_in(node.members, target_type, with_members));
        }
    }
}

proof fn lemma_joined_on(start: Seq<Node>, done: Seq<Node>, more: Seq<Node>) -> (r: Seq<Node>)
    ensures
        r == done + more,
        (start + done) + more == start + r,
{
    assert((start + done) + more =~= start + (done + more));
    done + more
}

fn visit_child<'a>(
    child: &'a Option<Box<Node>>,
    target_type: NodeType,
    with_members: bool,
    found: &mut Vec<&'a Node>,
)
    ensures
        pointed(final(found)@) == pointed(old(found)@) + child_in(
            *child,
            target_type,
            with_members,
        ),
    decreases child, 0nat,
{
    match child {
        Some(c) => visit_node(c, target_type, with_members, found),
        None => {
            assert(pointed(found@) + Seq::<Node>::empty() =~= pointed(found@));
        },
    }
}

fn visit_list<'a>(
    list: &'a Option<Vec<Node>>,
    target_type: NodeType,
    with_members: bool,
    found: &mut Vec<&'a Node>,
)
    ensures
        pointed(final(found)@) == pointed(old(found)@) + list_in(*list, target_type, with_members),
    decreases list, 0nat,
{
    match list {
        Some(l) => visit_all(l, target_type, with_members, found),
        None => {
            assert(pointed(found@) + Seq::<Node>::empty() =~= pointed(found@));
        },
    }
}

fn visit_all<'a>(
    nodes: &'a Vec<Node>,
    target_type: NodeType,
    with_members: bool,
    found: &mut Vec<&'a Node>,
)
    ensures
        pointed(final(found)@) == pointed(old(found)@) + all_in(
            nodes@,
            nodes@.len(),
            target_type,
            with_members,
        ),
    decreases nodes, 1nat,
{
    let ghost start = pointed(found@);
    let mut i: usize = 0;
    assert(pointed(found@) =~= start + Seq::<Node>::empty());
    while i < nodes.len()
        invariant
            i <= nodes@.len(),
            pointed(found@) == start + all_in(nodes@, i as nat, target_type, with_members),
            decreases_to!(nodes => nodes@),
        decreases nodes@.len() - i,
    {
        visit_node(&nodes[i], target_type, with_members, found);
        proof {
            lemma_joined_on(
                start,
                all_in(nodes@, i as nat, target_type, with_members),
                nodes_in(nodes@[i as int], target_type, with_members),
            );
        }
        i = i + 1;
    }
}

/// All nodes of one type in the whole tree, each before those below it.
pub fn visit_ast_nodes<'a>(ast: &'a Ast, target_type: NodeType) -> (r: Vec<&'a Node>)
    ensures
        pointed(r@) == all_of_type(ast.nodes@, ast.nodes@.len(), target_type),
{
    let mut found: Vec<&'a Node> = Vec::new();
    visit_all(&ast.nodes, target_type, true, &mut found);
    assert(pointed(found@) =~= all_of_type(ast.nodes@, ast.nodes@.len(), target_type));
    found
}

/// The variables that the tree declares, without parameters and the members of structs.
pub open spec fn variables_of(ast: Ast) -> Seq<Node> {
    all_in(ast.nodes@, ast.nodes@.len(), NodeType::VariableDeclaration, false)
}

/// The variables that the tree declares, without parameters and the members of structs.
pub fn visit_variables<'a>(ast: &'a Ast) -> (r: Vec<&'a Node>)
    ensures
        pointed(r@) == variables_of(*ast),
{
    let mut found: Vec<&'a Node> = Vec::new();
    visit_all(&ast.nodes, NodeType::VariableDeclaration, false, &mut found);
    assert(pointed(found@) =~= variables_of(*ast));
    found
}

} // verus!

use solstice::artifacts::{BytecodeObject, CompactBytecode};
use solstice::ast::{
    visit_ast_nodes, visit_nodes, Ast, LowFidelitySourceLocation, Node, NodeType, TypeNode,
    TypeNodeType,
};
use solstice::extraction::{
    extract_non_state_variables, extract_state_variables, parse_variable_declaration_type,
    DataLocation, LocatedVariable,
};
use solstice::types::{Type, TypeArray, TypeMapping, TypeTuple};

fn node(node_type: NodeType, start: usize, length: usize) -> Node {
    Node::new(node_type, LowFidelitySourceLocation { start, length: Some(length) })
}

fn elementary(name: &str) -> TypeNode {
    let mut t = TypeNode::new(TypeNodeType::ElementaryTypeName);
    t.name = Some(name.to_string());
    t
}

fn struct_name(id: usize) -> TypeNode {
    let mut t = TypeNode::new(TypeNodeType::UserDefinedTypeName);
    t.referenced_declaration = Some(id);
    t
}

fn array_of(base: TypeNode, length: Option<&str>) -> TypeNode {
    let mut t = TypeNode::new(TypeNodeType::ArrayTypeName);
    t.base_type = Some(Box::new(base));
    t.length = length.map(|l| {
        let mut literal = TypeNode::new(TypeNodeType::Literal);
        literal.value = Some(l.to_string());
        Box::new(literal)
    });
    t
}

fn variable(name: &str, typ: TypeNode) -> Node {
    let mut n = node(NodeType::VariableDeclaration, 10, 5);
    n.name = Some(name.to_string());
    n.declared_type = Some(typ);
    n
}

fn definition(id: usize, members: Vec<Node>) -> Node {
    let mut n = node(NodeType::StructDefinition, 0, 1);
    n.id = Some(id);
    n.members = Some(members);
    n
}

fn ast(children: Vec<Node>) -> Ast {
    let mut contract = node(NodeType::ContractDefinition, 0, 100);
    contract.nodes = children;
    Ast { absolute_path: "A.sol".to_string(), nodes: vec![contract] }
}

fn parsed(name: &str) -> Option<Type> {
    parse_variable_declaration_type(&elementary(name), &vec![])
}

#[test]
fn reads_elementary_type_names() {
    assert_eq!(parsed("address"), Some(Type::Address));
    assert_eq!(parsed("bool"), Some(Type::Bool));
    assert_eq!(parsed("string"), Some(Type::String));
    assert_eq!(parsed("bytes"), Some(Type::Bytes));
    assert_eq!(parsed("bytes1"), Some(Type::FixedBytes(1)));
    assert_eq!(parsed("bytes32"), Some(Type::FixedBytes(32)));
    assert_eq!(parsed("int256"), Some(Type::Int(Some(256))));
    assert_eq!(parsed("uint8"), Some(Type::Uint(Some(8))));
}

#[test]
fn refuses_unknown_type_names() {
    assert_eq!(parsed("bytes0"), None);
    assert_eq!(parsed("bytes33"), None);
    assert_eq!(parsed("bytesx"), None);
    assert_eq!(parsed("int"), None);
    assert_eq!(parsed("uint"), None);
    assert_eq!(parsed("fixed"), None);
    assert_eq!(parsed(""), None);
    let literal = TypeNode::new(TypeNodeType::Literal);
    assert_eq!(parse_variable_declaration_type(&literal, &vec![]), None);
}

#[test]
fn reads_nested_types() {
    let mut mapping = TypeNode::new(TypeNodeType::Mapping);
    mapping.key_type = Some(Box::new(elementary("address")));
    mapping.value_type = Some(Box::new(array_of(elementary("bool"), Some("3"))));
    assert_eq!(
        parse_variable_declaration_type(&mapping, &vec![]),
        Some(Type::Mapping(TypeMapping {
            key: Box::new(Type::Address),
            value: Box::new(Type::Array(TypeArray { ty: Box::new(Type::Bool), size: Some(3) })),
        }))
    );
    assert_eq!(
        parse_variable_declaration_type(&array_of(elementary("bool"), None), &vec![]),
        Some(Type::Array(TypeArray { ty: Box::new(Type::Bool), size: None }))
    );
    assert_eq!(
        parse_variable_declaration_type(&array_of(elementary("bool"), Some("x")), &vec![]),
        None
    );
}

#[test]
fn expands_structs() {
    let inner = definition(1, vec![variable("a", elementary("bool"))]);
    let outer = definition(2, vec![variable("b", struct_name(1)), variable("c", elementary("int8"))]);
    let structs = vec![&inner, &outer];
    assert_eq!(
        parse_variable_declaration_type(&struct_name(2), &structs),
        Some(Type::Tuple(TypeTuple {
            types: vec![
                (
                    "b".to_string(),
                    Type::Tuple(TypeTuple { types: vec![("a".to_string(), Type::Bool)] })
                ),
                ("c".to_string(), Type::Int(Some(8))),
            ]
        }))
    );
    assert_eq!(parse_variable_declaration_type(&struct_name(3), &structs), None);
}

#[test]
fn a_struct_that_holds_itself_has_no_type() {
    let own = definition(1, vec![variable("next", array_of(struct_name(1), None))]);
    assert_eq!(parse_variable_declaration_type(&struct_name(1), &vec![&own]), None);
    let a = definition(1, vec![variable("b", struct_name(2))]);
    let b = definition(2, vec![variable("a", struct_name(1))]);
    assert_eq!(parse_variable_declaration_type(&struct_name(1), &vec![&a, &b]), None);
}

#[test]
fn structs_are_nested_as_deep_as_there_are_structs() {
    let a = definition(1, vec![variable("x", struct_name(2))]);
    let b = definition(2, vec![variable("y", struct_name(3))]);
    let c = definition(3, vec![variable("z", elementary("bool"))]);
    let structs = vec![&a, &b, &c];
    assert!(parse_variable_declaration_type(&struct_name(1), &structs).is_some());
}

#[test]
fn finds_state_variables() {
    let tree = ast(vec![
        variable("first", elementary("uint256")),
        definition(4, vec![variable("inside", elementary("bool"))]),
        variable("second", struct_name(4)),
    ]);
    assert_eq!(
        extract_state_variables(&tree),
        Some(vec![
            ("first".to_string(), Type::Uint(Some(256))),
            (
                "second".to_string(),
                Type::Tuple(TypeTuple { types: vec![("inside".to_string(), Type::Bool)] })
            ),
        ])
    );
    assert_eq!(extract_state_variables(&ast(vec![variable("x", elementary("?"))])), None);
    let mut unnamed = definition(4, vec![]);
    unnamed.id = None;
    assert_eq!(extract_state_variables(&ast(vec![unnamed])), None);
}

fn code(object: BytecodeObject, map: Option<&str>) -> CompactBytecode {
    CompactBytecode { object, source_map: map.map(|m| m.to_string()) }
}

fn located_ast(location: &str) -> Ast {
    let mut local = variable("v", elementary("bool"));
    local.storage_location = Some(location.to_string());
    let mut statement = node(NodeType::VariableDeclarationStatement, 10, 6);
    statement.declarations = Some(vec![local]);
    let mut body = node(NodeType::Block, 5, 20);
    body.statements = Some(vec![statement]);
    let mut function = node(NodeType::FunctionDefinition, 2, 30);
    function.body = Some(Box::new(body));
    ast(vec![function])
}

#[test]
fn finds_local_variables_by_program_counter() {
    // PUSH1 0, POP, STOP
    let bytes = BytecodeObject::Bytecode(vec![0x60, 0x00, 0x50, 0x00]);
    let map = "0:100:0:-:0;10:5;10:5";
    let found =
        extract_non_state_variables(&located_ast("memory"), &code(bytes, Some(map))).unwrap();
    assert_eq!(found.len(), 1);
    assert_eq!(
        found.get(&2),
        Some(&LocatedVariable {
            name: "v".to_string(),
            typ: Type::Bool,
            location: DataLocation::Memory,
        })
    );
}

#[test]
fn knows_where_variables_are_kept() {
    for (text, location) in [
        ("storage", Some(DataLocation::Storage)),
        ("default", Some(DataLocation::Stack)),
        ("calldata", None),
    ] {
        let bytes = BytecodeObject::Bytecode(vec![0x00]);
        let found = extract_non_state_variables(&located_ast(text), &code(bytes, Some("10:5:0:-:0")));
        assert_eq!(found.map(|v| v[&0].location), location);
    }
}

#[test]
fn needs_linked_code_with_a_source_map() {
    let tree = located_ast("memory");
    let bytes = || BytecodeObject::Bytecode(vec![0x00]);
    assert!(extract_non_state_variables(&tree, &code(bytes(), None)).is_none());
    assert!(extract_non_state_variables(&tree, &code(bytes(), Some("x:y"))).is_none());
    let unlinked = BytecodeObject::Unlinked("60__$x$__".to_string());
    assert!(extract_non_state_variables(&tree, &code(unlinked, Some("10:5:0:-:0"))).is_none());
    // no instruction belongs to the declaration
    assert!(extract_non_state_variables(&tree, &code(bytes(), Some("1:5:0:-:0"))).is_none());
}

#[test]
fn visits_nodes_in_order() {
    let tree = located_ast("memory");
    let blocks = visit_ast_nodes(&tree, NodeType::Block);
    assert_eq!(blocks.len(), 1);
    assert_eq!(blocks[0].src.start, 5);
    let variables = visit_ast_nodes(&tree, NodeType::VariableDeclaration);
    assert_eq!(variables[0].name, Some("v".to_string()));
    assert!(visit_ast_nodes(&tree, NodeType::Literal).is_empty());
}

/// A function `f(uint p) { if (..) { bool v; } else { bool w; } }` beside a struct with one member.
fn branching_ast() -> Ast {
    let local = |name: &str, start: usize| {
        let mut local = variable(name, elementary("bool"));
        local.src.start = start;
        local.storage_location = Some("default".to_string());
        let mut statement = node(NodeType::VariableDeclarationStatement, start, 6);
        statement.declarations = Some(vec![local]);
        let mut block = node(NodeType::Block, start - 1, 8);
        block.statements = Some(vec![statement]);
        Box::new(block)
    };
    let mut branch = node(NodeType::IfStatement, 20, 30);
    branch.condition = Some(Box::new(node(NodeType::Literal, 21, 4)));
    branch.true_body = Some(local("v", 30));
    branch.false_body = Some(local("w", 40));
    let mut body = node(NodeType::Block, 15, 40);
    body.statements = Some(vec![branch]);
    let mut list = node(NodeType::ParameterList, 5, 8);
    list.parameters = Some(vec![variable("p", elementary("uint256"))]);
    let mut function = node(NodeType::FunctionDefinition, 2, 60);
    function.others = vec![list];
    function.body = Some(Box::new(body));
    ast(vec![definition(4, vec![variable("inside", elementary("bool"))]), function])
}

#[test]
fn visits_nodes_under_every_attribute() {
    let tree = branching_ast();
    let names: Vec<&str> = visit_ast_nodes(&tree, NodeType::VariableDeclaration)
        .into_iter()
        .map(|v| v.name.as_deref().unwrap())
        .collect();
    assert_eq!(names, ["inside", "v", "w", "p"]);
    let blocks: Vec<usize> =
        visit_ast_nodes(&tree, NodeType::Block).into_iter().map(|b| b.src.start).collect();
    // the body of the function before the blocks in it
    assert_eq!(blocks, [15, 29, 39]);
    assert_eq!(visit_ast_nodes(&tree, NodeType::Literal).len(), 1);
    assert_eq!(visit_ast_nodes(&tree, NodeType::ParameterList).len(), 1);
}

#[test]
fn visits_the_node_itself_and_each_kind_of_child_once() {
    let leaf = |start: usize| node(NodeType::Literal, start, 1);
    let mut root = leaf(0);
    root.nodes = vec![leaf(1)];
    root.body = Some(Box::new(leaf(2)));
    root.declarations = Some(vec![leaf(3)]);
    root.statements = Some(vec![leaf(4)]);
    root.expression = Some(Box::new(leaf(5)));
    root.condition = Some(Box::new(leaf(6)));
    root.true_body = Some(Box::new(leaf(7)));
    root.false_body = Some(Box::new(leaf(8)));
    root.initial_value = Some(Box::new(leaf(9)));
    root.left_expression = Some(Box::new(leaf(10)));
    root.right_expression = Some(Box::new(leaf(11)));
    root.right_hand_side = Some(Box::new(leaf(12)));
    root.sub_expression = Some(Box::new(leaf(13)));
    root.arguments = Some(vec![leaf(14)]);
    root.others = vec![leaf(15)];
    root.parameters = Some(vec![leaf(16)]);
    root.members = Some(vec![leaf(17)]);
    let mut found = Vec::new();
    visit_nodes(&root, NodeType::Literal, &mut found);
    let starts: Vec<usize> = found.into_iter().map(|n| n.src.start).collect();
    assert_eq!(starts, (0..18).collect::<Vec<usize>>());
}

#[test]
fn finds_variables_in_branches_but_no_parameters_or_members() {
    let bytes = BytecodeObject::Bytecode(vec![0x60, 0x00, 0x50, 0x00]);
    let map = "0:100:0:-:0;30:5;40:5";
    let found = extract_non_state_variables(&branching_ast(), &code(bytes, Some(map))).unwrap();
    assert_eq!(found.len(), 2);
    assert_eq!(found[&2].name, "v");
    assert_eq!(found[&3].name, "w");
}

#[test]
fn type_names_that_were_written_are_read() {
    use_written(Type::Address, "address");
    use_written(Type::FixedBytes(9), "bytes9");
    use_written(Type::Int(Some(128)), "int128");
    use_written(Type::Uint(Some(16)), "uint16");
}

fn use_written(ty: Type, name: &str) {
    let mut generator = solstice::generator::ContractGenerator::new(Type::Bool);
    assert_eq!(generator.encode_argument("a", &ty), name);
    assert_eq!(parsed(name), Some(ty));
}

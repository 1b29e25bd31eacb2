use solstice::ast::{LowFidelitySourceLocation, Node, NodeType};
use solstice::debug_info::{Block, DebugUnit, InstructionKind};
use solstice::ic_pc::IcPcMap;
use solstice::source_map::{Jump, SourceElement};
use solstice::trace::{
    build_trace, CallTraceStep, ContractsDump, DebugNode, DebuggerContext, StepKind,
};
use solstice::visitor::StatementVisitor;

const SOURCE: &str = "contract D {
  function h() public {
    if (a) { x = 1; } else if (b) { x = 2; } else { k(); }
    while (c) { x = 3; }
    do { x = 4; } while (d);
  }
  function k() public { x = 5; }
}
";

const H_BODY: &str = "{
    if (a) { x = 1; } else if (b) { x = 2; } else { k(); }
    while (c) { x = 3; }
    do { x = 4; } while (d);
  }";

const K: &str = "function k() public { x = 5; }";

fn h() -> String {
    format!("function h() public {}", H_BODY)
}

fn place(text: &str) -> LowFidelitySourceLocation {
    LowFidelitySourceLocation {
        start: SOURCE.find(text).unwrap(),
        length: Some(text.len()),
    }
}

// a condition, without the parentheses around it
fn condition(text: &str) -> LowFidelitySourceLocation {
    let around = place(text);
    LowFidelitySourceLocation {
        start: around.start + 1,
        length: Some(text.len() - 2),
    }
}

fn block(text: &str, statements: Vec<Node>) -> Node {
    let mut b = Node::new(NodeType::Block, place(text));
    b.statements = Some(statements);
    b
}

fn statement(text: &str) -> Node {
    Node::new(NodeType::ExpressionStatement, place(text))
}

fn with_condition(node_type: NodeType, text: &str, under: &str) -> Node {
    let mut n = Node::new(node_type, place(text));
    n.condition = Some(Box::new(Node::new(NodeType::Identifier, condition(under))));
    n
}

fn calling_k() -> Node {
    let mut callee = Node::new(NodeType::Identifier, place("k"));
    callee.referenced_declaration = Some(7);
    let mut call = Node::new(NodeType::FunctionCall, place("k()"));
    call.expression = Some(Box::new(callee));
    let mut s = statement("k()");
    s.expression = Some(Box::new(call));
    s
}

fn branch() -> Node {
    let mut inner =
        with_condition(NodeType::IfStatement, "if (b) { x = 2; } else { k(); }", "(b)");
    inner.true_body = Some(Box::new(block("{ x = 2; }", vec![statement("x = 2")])));
    inner.false_body = Some(Box::new(block("{ k(); }", vec![calling_k()])));
    let mut outer = with_condition(
        NodeType::IfStatement,
        "if (a) { x = 1; } else if (b) { x = 2; } else { k(); }",
        "(a)",
    );
    outer.true_body = Some(Box::new(block("{ x = 1; }", vec![statement("x = 1")])));
    outer.false_body = Some(Box::new(inner));
    outer
}

fn function(name: &str, text: &str, body: Node) -> Node {
    let mut f = Node::new(NodeType::FunctionDefinition, place(text));
    f.name = Some(name.to_string());
    f.kind = Some("function".to_string());
    f.body = Some(Box::new(body));
    f
}

fn described(statements: Vec<Node>) -> DebugUnit {
    let e = |at: LowFidelitySourceLocation, jump: Jump| SourceElement {
        offset: at.start as u32,
        length: at.length.unwrap() as u32,
        jump,
    };
    let map = vec![
        e(place(&h()), Jump::Regular),       // 0: h is entered
        e(condition("(a)"), Jump::Regular),  // 1
        e(place("x = 1"), Jump::Regular),    // 2
        e(condition("(b)"), Jump::Regular),  // 3
        e(place("x = 2"), Jump::Regular),    // 4
        e(place("k()"), Jump::In),           // 5: k is called
        e(place(K), Jump::Regular),          // 6: k is entered
        e(place("x = 5"), Jump::Regular),    // 7
        e(place(K), Jump::Out),              // 8: k is left
        e(place("k()"), Jump::Regular),      // 9
        e(condition("(c)"), Jump::Regular),  // 10
        e(place("x = 3"), Jump::Regular),    // 11
        e(place("x = 4"), Jump::Regular),    // 12
        e(condition("(d)"), Jump::Regular),  // 13
        e(place(&h()), Jump::Out),           // 14: h is left
    ];
    let pcs = IcPcMap::new(&vec![0x5b; map.len()]);
    let mut visitor = StatementVisitor::with_code(
        (map, pcs),
        (vec![], IcPcMap::new(&[])),
        "/p/D.sol".to_string(),
        SOURCE.to_string(),
    );
    let mut c = Node::new(NodeType::ContractDefinition, place(SOURCE.trim_end()));
    c.nodes = vec![
        function("h", &h(), block(H_BODY, statements)),
        function("k", K, block("{ x = 5; }", vec![statement("x = 5")])),
    ];
    visitor.visit_contract(&c).unwrap();
    visitor.into_debug_unit()
}

fn starts(scopes: &Vec<Block>) -> Vec<usize> {
    scopes.iter().map(|s| s.location.start_offset).collect()
}

fn condition_pcs(scopes: &Vec<Block>) -> Vec<Option<usize>> {
    scopes.iter().map(|s| s.condition.map(|c| c.pc)).collect()
}

fn start(text: &str) -> usize {
    place(text).start
}

#[test]
fn both_bodies_of_a_branch_are_scopes() {
    let mut b = with_condition(NodeType::IfStatement, "if (b) { x = 2; } else { k(); }", "(b)");
    b.true_body = Some(Box::new(block("{ x = 2; }", vec![statement("x = 2")])));
    b.false_body = Some(Box::new(block("{ k(); }", vec![calling_k()])));
    let u = described(vec![b]);
    let root = &u.functions[0].root_block;
    assert!(root.instructions.is_empty());
    assert_eq!(starts(&root.scopes), vec![start("{ x = 2; }"), start("{ k(); }")]);
    assert_eq!(condition_pcs(&root.scopes), vec![Some(3), None]);
    let other: Vec<(usize, InstructionKind)> =
        root.scopes[1].instructions.iter().map(|i| (i.pc, i.kind)).collect();
    assert_eq!(
        other,
        vec![(9, InstructionKind::Statement), (5, InstructionKind::FunctionCall)]
    );
}

#[test]
fn an_else_if_goes_on_like_another_branch() {
    let u = described(vec![branch()]);
    let root = &u.functions[0].root_block;
    assert!(root.instructions.is_empty());
    assert_eq!(
        starts(&root.scopes),
        vec![start("{ x = 1; }"), start("{ x = 2; }"), start("{ k(); }")]
    );
    assert_eq!(condition_pcs(&root.scopes), vec![Some(1), Some(3), None]);
}

#[test]
fn a_branch_without_else_has_one_scope() {
    let mut b = branch();
    b.false_body = None;
    let u = described(vec![b]);
    assert_eq!(starts(&u.functions[0].root_block.scopes), vec![start("{ x = 1; }")]);
}

#[test]
fn bodies_of_loops_are_scopes() {
    let mut w = with_condition(NodeType::WhileStatement, "while (c) { x = 3; }", "(c)");
    w.body = Some(Box::new(block("{ x = 3; }", vec![statement("x = 3")])));
    let mut d = with_condition(NodeType::DoWhileStatement, "do { x = 4; } while (d)", "(d)");
    d.body = Some(Box::new(block("{ x = 4; }", vec![statement("x = 4")])));
    let mut f = with_condition(NodeType::ForStatement, "while (c) { x = 3; }", "(c)");
    f.body = Some(Box::new(block("{ x = 3; }", vec![statement("x = 3")])));
    let u = described(vec![w, d, f]);
    let root = &u.functions[0].root_block;
    assert!(root.instructions.is_empty());
    assert_eq!(
        starts(&root.scopes),
        vec![start("{ x = 3; }"), start("{ x = 4; }"), start("{ x = 3; }")]
    );
    assert_eq!(condition_pcs(&root.scopes), vec![Some(10), Some(13), Some(10)]);
    assert_eq!(root.scopes[1].instructions[0].pc, 12);
}

#[test]
fn follows_a_call_out_of_an_else_body() {
    let units = vec![("D".to_string(), described(vec![branch()]))];
    let step = |pc: usize| CallTraceStep {
        pc,
        contract: [1; 20],
        memory: Some(vec![]),
        stack: Some(vec![]),
    };
    let context = DebuggerContext {
        debug_arena: vec![DebugNode {
            kind: "CALL".to_string(),
            steps: [0, 1, 3, 5, 6, 7, 8, 9, 14].iter().map(|pc| step(*pc)).collect(),
        }],
        contracts: ContractsDump {
            identified_contracts: vec![([1; 20], "D".to_string())],
        },
    };
    let trace = build_trace(&context, &units).unwrap();
    let entered = |name: &str| StepKind::FunctionDefinition(name.to_string());
    let kinds: Vec<&StepKind> = trace.steps.iter().map(|s| &s.kind).collect();
    assert_eq!(
        kinds,
        vec![
            &entered("h"),
            &StepKind::Statement,
            &StepKind::Statement,
            &StepKind::FunctionCall,
            &entered("k"),
            &StepKind::Statement,
            &StepKind::Statement,
        ]
    );
    let calls: Vec<Vec<usize>> = trace.steps.iter().map(|s| s.call_trace.clone()).collect();
    assert_eq!(calls, vec![vec![], vec![], vec![], vec![], vec![], vec![4], vec![]]);
    assert_eq!(trace.steps[6].location.start_offset, start("k()"));
}

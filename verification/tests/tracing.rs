use solstice::artifacts::{
    BytecodeError, BytecodeObject, CompactBytecode, CompilerOutput, ContractOutput, SourceOutput,
};
use solstice::ast::{Ast, LowFidelitySourceLocation, Node, NodeType};
use solstice::debug_info::{DebugUnit, InstructionKind};
use solstice::ic_pc::{make_map, IcPcMap};
use solstice::lines::position;
use solstice::source_map::{after_return, first_match, last_match, last_return, Jump, SourceElement};
use solstice::trace::{
    build_trace, example1, CallTraceStep, ContractsDump, DebugNode, DebugTrace, DebuggerContext,
    StepKind, TraceError,
};
use solstice::units::{
    generate_debug_units, holds_artifacts, is_artifact, Artifact, CompactDeployedBytecode, UnitError,
};
use solstice::visitor::{StatementVisitor, VisitError};

const SOURCE: &str = "contract C {
  uint x;
  constructor() { x = 9; }
  function f() public {
    uint y = g();
    if (y > 1) { x = 2; }
    x = y;
  }
  function g() public { x = 3; }
}
";

fn place(text: &str) -> LowFidelitySourceLocation {
    LowFidelitySourceLocation {
        start: SOURCE.find(text).unwrap(),
        length: Some(text.len()),
    }
}

fn node(node_type: NodeType, text: &str) -> Node {
    Node::new(node_type, place(text))
}

fn statement(text: &str) -> Node {
    node(NodeType::ExpressionStatement, text)
}

fn block(text: &str, statements: Vec<Node>) -> Node {
    let mut b = node(NodeType::Block, text);
    b.statements = Some(statements);
    b
}

fn function(name: &str, kind: &str, text: &str, body: Node) -> Node {
    let mut f = node(NodeType::FunctionDefinition, text);
    f.name = Some(name.to_string());
    f.kind = Some(kind.to_string());
    f.parameters = Some(vec![]);
    f.body = Some(Box::new(body));
    f
}

const WHOLE: &str = "contract C {
  uint x;
  constructor() { x = 9; }
  function f() public {
    uint y = g();
    if (y > 1) { x = 2; }
    x = y;
  }
  function g() public { x = 3; }
}";

const F: &str = "function f() public {
    uint y = g();
    if (y > 1) { x = 2; }
    x = y;
  }";

const F_BODY: &str = "{
    uint y = g();
    if (y > 1) { x = 2; }
    x = y;
  }";

const G: &str = "function g() public { x = 3; }";

fn contract() -> Node {
    let mut state = node(NodeType::VariableDeclaration, "uint x");
    state.name = Some("x".to_string());
    state.id = Some(1);
    state.state_variable = Some(true);

    let mut callee = node(NodeType::Identifier, "g");
    callee.referenced_declaration = Some(20);
    let mut call = node(NodeType::FunctionCall, "g()");
    call.expression = Some(Box::new(callee));
    let mut local = node(NodeType::VariableDeclaration, "uint y");
    local.name = Some("y".to_string());
    let mut declaration = node(NodeType::VariableDeclarationStatement, "uint y = g()");
    declaration.id = Some(2);
    declaration.declarations = Some(vec![local]);
    declaration.initial_value = Some(Box::new(call));

    let mut branch = node(NodeType::IfStatement, "if (y > 1) { x = 2; }");
    branch.condition = Some(Box::new(node(NodeType::BinaryOperation, "y > 1")));
    branch.true_body = Some(Box::new(block("{ x = 2; }", vec![statement("x = 2")])));

    let f_body = block(F_BODY, vec![declaration, branch, statement("x = y")]);
    let g_body = block("{ x = 3; }", vec![statement("x = 3")]);
    let start_body = block("{ x = 9; }", vec![statement("x = 9")]);

    let mut c = node(NodeType::ContractDefinition, WHOLE);
    c.name = Some("C".to_string());
    c.nodes = vec![
        state,
        function("", "constructor", "constructor() { x = 9; }", start_body),
        function("f", "function", F, f_body),
        function("g", "function", G, g_body),
    ];
    c
}

fn element(text: &str, jump: &str) -> String {
    let at = place(text);
    format!("{}:{}:0:{}:0", at.start, at.length.unwrap(), jump)
}

// one instruction of one byte for each element of the source map
fn code(elements: Vec<String>) -> CompactBytecode {
    CompactBytecode {
        object: BytecodeObject::Bytecode(vec![0x5b; elements.len()]),
        source_map: Some(elements.join(";")),
    }
}

fn runtime() -> CompactBytecode {
    code(vec![
        element(WHOLE, "-"),
        element(F, "-"),
        element(WHOLE, "o"),
        element(F, "-"),       // 3: f is entered
        element("g()", "i"),   // 4: g is called
        element(G, "-"),       // 5: g is entered behind no return
        element("x = 3", "-"), // 6
        element(G, "o"),       // 7: g is left
        element("uint y = g()", "-"), // 8
        element("y > 1", "-"), // 9
        element("x = 2", "-"), // 10
        element("x = y", "-"), // 11
        element(F, "o"),       // 12: f is left
    ])
}

fn creation() -> CompactBytecode {
    code(vec![
        element("constructor() { x = 9; }", "-"),
        element("x = 9", "-"),
        element(WHOLE, "-"),
        element(WHOLE, "-"),
    ])
}

fn unit() -> DebugUnit {
    let mut visitor =
        StatementVisitor::new(&runtime(), &creation(), "/p/C.sol".to_string(), SOURCE.to_string())
            .unwrap();
    visitor.visit_contract(&contract()).unwrap();
    visitor.into_debug_unit()
}

fn visit(c: Node) -> Result<(), VisitError> {
    let mut visitor =
        StatementVisitor::new(&runtime(), &creation(), "/p/C.sol".to_string(), SOURCE.to_string())
            .unwrap();
    visitor.visit_contract(&c)
}

#[test]
fn counts_lines_and_columns() {
    assert_eq!(position("ab\ncd", 0), Some((0, 0)));
    assert_eq!(position("ab\ncd", 2), Some((1, 2)));
    assert_eq!(position("ab\ncd", 3), Some((1, 0)));
    assert_eq!(position("ab\ncd", 4), Some((2, 1)));
    assert_eq!(position("ab", 3), None);
    assert_eq!(position("\u{e9}", 1), None);
}

#[test]
fn maps_instructions_to_program_counters() {
    // PUSH2, ADD, PUSH1, STOP
    let bytes = [0x61, 0, 0, 0x01, 0x60, 0, 0x00];
    let map = IcPcMap::new(&bytes);
    assert_eq!(map.get(0), Some(0));
    assert_eq!(map.get(1), Some(3));
    assert_eq!(map.get(2), Some(4));
    assert_eq!(map.get(3), Some(6));
    assert_eq!(map.get(4), None);
    let back = make_map::<true>(&bytes);
    for ic in 0..4 {
        assert_eq!(back[&map.get(ic).unwrap()], ic);
    }
    // data may be cut off
    assert_eq!(make_map::<false>(&[0x7f, 1]).len(), 1);
}

#[test]
fn finds_elements_of_a_source_map() {
    let e = |offset: u32, jump: Jump| SourceElement { offset, length: 2, jump };
    let map = vec![
        e(1, Jump::Regular),
        e(5, Jump::Out),
        e(1, Jump::Out),
        e(1, Jump::Regular),
    ];
    assert_eq!(first_match(&map, 1, 2), Some(0));
    assert_eq!(last_match(&map, 1, 2), Some(3));
    assert_eq!(last_return(&map, 1, 2), Some(2));
    assert_eq!(after_return(&map, 1, 2), Some(2));
    assert_eq!(first_match(&map, 1, 3), None);
    assert_eq!(after_return(&map, 5, 2), None);
}

#[test]
fn describes_a_contract() {
    let u = unit();
    assert_eq!(u.path, "/p/C.sol");
    let names: Vec<&str> = u.functions.iter().map(|f| f.name.as_str()).collect();
    assert_eq!(names, vec!["", "f", "g"]);
    let vars: Vec<(&str, u64, bool)> =
        u.variables.iter().map(|v| (v.name.as_str(), v.id, v.state_variable)).collect();
    assert_eq!(vars, vec![("x", 1, true), ("y", 2, false)]);

    let start = &u.functions[0];
    assert_eq!((start.entry_pc, start.exit_pc), (0, 3));
    assert_eq!(start.root_block.instructions[0].pc, 1);

    let f = &u.functions[1];
    assert_eq!((f.entry_pc, f.exit_pc), (3, 12));
    let kinds: Vec<(usize, InstructionKind)> =
        f.root_block.instructions.iter().map(|i| (i.pc, i.kind)).collect();
    assert_eq!(
        kinds,
        vec![
            (8, InstructionKind::VariableDeclaration(2)),
            (4, InstructionKind::FunctionCall),
            (11, InstructionKind::Statement),
        ]
    );
    assert_eq!(f.root_block.variables, vec![2]);
    assert_eq!(f.root_block.scopes.len(), 1);
    let scope = &f.root_block.scopes[0];
    assert_eq!(scope.condition.map(|c| c.pc), Some(9));
    assert_eq!(scope.instructions[0].pc, 10);
    // the call is placed at the statement around it
    assert_eq!(f.root_block.instructions[1].location, f.root_block.instructions[0].location);
    let at = f.root_block.instructions[2].location;
    assert_eq!((at.line, at.column, at.end_line, at.end_column), (7, 4, Some(7), Some(9)));

    let g = &u.functions[2];
    assert_eq!((g.entry_pc, g.exit_pc), (5, 7));
}

#[test]
fn calls_of_builtins_are_skipped() {
    let mut c = contract();
    let declaration = &mut c.nodes[2].body.as_mut().unwrap().statements.as_mut().unwrap()[0];
    let call = declaration.initial_value.as_mut().unwrap();
    call.expression.as_mut().unwrap().referenced_declaration = Some(-18);
    let mut visitor =
        StatementVisitor::new(&runtime(), &creation(), String::new(), SOURCE.to_string()).unwrap();
    visitor.visit_contract(&c).unwrap();
    let u = visitor.into_debug_unit();
    assert_eq!(u.functions[1].root_block.instructions.len(), 2);
}

#[test]
fn locates_instructions_with_their_scope() {
    let u = unit();
    let (found, vars) = u.get_location_at_pc(8);
    assert_eq!(found.map(|i| i.pc), Some(8));
    assert_eq!(vars, vec![1, 2]);
    let (found, vars) = u.get_location_at_pc(6);
    assert_eq!(found.map(|i| i.pc), Some(6));
    assert_eq!(vars, vec![1]);
    let (found, vars) = u.get_location_at_pc(9);
    assert_eq!(found.map(|i| i.pc), Some(9));
    assert_eq!(vars, vec![1, 2]);
    let (found, vars) = u.get_location_at_pc(100);
    assert_eq!((found, vars), (None, vec![]));
}

#[test]
fn says_why_a_contract_cannot_be_described() {
    let mut c = contract();
    c.nodes[2].kind = None;
    assert_eq!(visit(c), Err(VisitError::MissingKind));
    let mut c = contract();
    c.nodes[2].name = None;
    assert_eq!(visit(c), Err(VisitError::MissingName));
    let mut c = contract();
    c.nodes[0].id = None;
    assert_eq!(visit(c), Err(VisitError::MissingId));
    let mut c = contract();
    c.nodes[0].src.start = SOURCE.len() + 1;
    assert_eq!(visit(c), Err(VisitError::OutsideSource));
    let mut c = contract();
    c.nodes[2].body.as_mut().unwrap().statements.as_mut().unwrap()[0].declarations = None;
    assert_eq!(visit(c), Err(VisitError::MissingDeclaration));
    let mut c = contract();
    c.nodes[2].src = place("x = y");
    assert_eq!(visit(c), Err(VisitError::MissingExit));
    let mut c = contract();
    c.nodes[1].src = place("x = y");
    assert_eq!(visit(c), Err(VisitError::MissingEntry));
    let mut c = contract();
    c.nodes.push(node(NodeType::EnumDefinition, "uint x"));
    assert_eq!(visit(c), Err(VisitError::NotHandled(NodeType::EnumDefinition)));
    let mut c = contract();
    c.nodes.push(node(NodeType::EventDefinition, "uint x"));
    c.nodes.push(node(NodeType::StructDefinition, "uint x"));
    assert_eq!(visit(c), Ok(()));
}

#[test]
fn needs_code_with_a_source_map() {
    let none = CompactBytecode {
        object: BytecodeObject::Bytecode(vec![]),
        source_map: None,
    };
    let made = StatementVisitor::new(&none, &creation(), String::new(), String::new());
    assert_eq!(made.err(), Some(BytecodeError::MissingSourceMap));
    let bad = CompactBytecode {
        object: BytecodeObject::Bytecode(vec![]),
        source_map: Some("a:b".to_string()),
    };
    let made = StatementVisitor::new(&runtime(), &bad, String::new(), String::new());
    assert_eq!(made.err(), Some(BytecodeError::MalformedSourceMap));
    let open = CompactBytecode {
        object: BytecodeObject::Unlinked("__$a$__".to_string()),
        source_map: Some("1:2:0:-:0".to_string()),
    };
    let made = StatementVisitor::new(&open, &creation(), String::new(), String::new());
    assert_eq!(made.err(), Some(BytecodeError::Unlinked));
}

fn artifact() -> Artifact {
    Artifact {
        ast: Some(Ast { absolute_path: "C.sol".to_string(), nodes: vec![contract()] }),
        deployed_bytecode: Some(CompactDeployedBytecode { bytecode: Some(runtime()) }),
        bytecode: Some(creation()),
        path: "/p/C.sol".to_string(),
        source: Some(SOURCE.to_string()),
    }
}

#[test]
fn collects_the_contracts_of_a_project() {
    let bare = Artifact {
        ast: None,
        deployed_bytecode: None,
        bytecode: None,
        path: String::new(),
        source: None,
    };
    let units = generate_debug_units(&vec![bare, artifact()], None).unwrap();
    assert_eq!(units.len(), 1);
    assert_eq!(units[0].0, "C");
    assert_eq!(units[0].1.functions.len(), 3);
    let others = vec!["D".to_string()];
    assert!(generate_debug_units(&vec![artifact()], Some(&others)).unwrap().is_empty());
}

#[test]
fn says_why_a_project_cannot_be_described() {
    let mut a = artifact();
    a.bytecode = None;
    assert_eq!(generate_debug_units(&vec![a], None).err(), Some(UnitError::MissingBytecode));
    let mut a = artifact();
    a.ast.as_mut().unwrap().nodes[0].name = None;
    assert_eq!(generate_debug_units(&vec![a], None).err(), Some(UnitError::MissingName));
    let mut a = artifact();
    a.source = None;
    assert_eq!(generate_debug_units(&vec![a], None).err(), Some(UnitError::MissingSource));
    let mut a = artifact();
    a.bytecode.as_mut().unwrap().source_map = None;
    assert_eq!(
        generate_debug_units(&vec![a], None).err(),
        Some(UnitError::Bytecode(BytecodeError::MissingSourceMap))
    );
    let mut a = artifact();
    a.source = Some(String::new());
    assert_eq!(
        generate_debug_units(&vec![a], None).err(),
        Some(UnitError::Visit(VisitError::OutsideSource))
    );
}

fn step(pc: usize) -> CallTraceStep {
    let mut top = [0u8; 32];
    top[31] = pc as u8;
    CallTraceStep {
        pc,
        contract: [7; 20],
        memory: Some(vec![1, 2]),
        stack: Some(vec![top]),
    }
}

fn context(pcs: Vec<usize>) -> DebuggerContext {
    DebuggerContext {
        debug_arena: vec![DebugNode {
            kind: "CALL".to_string(),
            steps: pcs.into_iter().map(step).collect(),
        }],
        contracts: ContractsDump {
            identified_contracts: vec![([7; 20], "C".to_string())],
        },
    }
}

fn trace() -> DebugTrace {
    example1(&context(vec![3, 4, 5, 6, 7, 8, 9, 10, 11, 12]), &vec![artifact()]).unwrap()
}

#[test]
fn follows_a_run() {
    let t = trace();
    let kinds: Vec<&StepKind> = t.steps.iter().map(|s| &s.kind).collect();
    assert_eq!(
        kinds,
        vec![
            &StepKind::FunctionDefinition("f".to_string()),
            &StepKind::FunctionCall,
            &StepKind::FunctionDefinition("g".to_string()),
            &StepKind::Statement,
            &StepKind::Statement,
            &StepKind::Statement,
            &StepKind::Statement,
            &StepKind::Statement,
        ]
    );
    assert_eq!(t.steps[3].call_trace, vec![2]);
    assert!(t.steps[4].call_trace.is_empty());
    assert_eq!(t.steps[3].memory, vec![1, 2]);
    // the lowest byte of a word comes first
    assert_eq!(t.steps[3].stack[0][0], 6);
    assert_eq!(t.steps[3].stack[0][31], 0);
    assert_eq!(t.variables.len(), 2);
    assert_eq!(t.indx, 0);
}

#[test]
fn steps_of_unknown_contracts_are_skipped() {
    let mut c = context(vec![3, 11, 12]);
    c.debug_arena[0].steps[1].contract = [8; 20];
    let t = example1(&c, &vec![artifact()]).unwrap();
    assert_eq!(t.steps.len(), 1);
}

#[test]
fn says_why_a_run_cannot_be_followed() {
    let units = vec![("C".to_string(), unit())];
    let error = |c: &DebuggerContext| build_trace(c, &units).err();
    assert_eq!(error(&context(vec![])), Some(TraceError::NoSteps));
    let mut c = context(vec![3]);
    c.debug_arena[0].steps[0].memory = None;
    assert_eq!(error(&c), Some(TraceError::MissingMemory));
    let mut c = context(vec![3]);
    c.debug_arena[0].steps[0].stack = None;
    assert_eq!(error(&c), Some(TraceError::MissingStack));
    assert_eq!(error(&context(vec![3, 5])), Some(TraceError::EntryWithoutCall));
    assert_eq!(error(&context(vec![12])), Some(TraceError::ExitWithoutCall));
    assert_eq!(error(&context(vec![11])), Some(TraceError::CallWithoutEntry));
    assert_eq!(error(&context(vec![3, 4, 5, 12])), Some(TraceError::ExitOfOtherFunction));
    assert_eq!(error(&context(vec![3, 4, 5, 6])), Some(TraceError::UnfinishedCall));
    let mut a = artifact();
    a.source = None;
    assert_eq!(
        example1(&context(vec![3]), &vec![a]).err(),
        Some(TraceError::Units(UnitError::MissingSource))
    );
}

#[test]
fn walks_through_a_run() {
    let mut t = trace();
    assert!(t.next());
    assert_eq!(t.indx, 1);
    // function definitions are passed over
    assert!(t.next());
    assert_eq!(t.indx, 3);
    let frames = t.trace().stack_frames;
    assert_eq!(frames.len(), 2);
    assert_eq!(frames[0].location, t.steps[2].location);
    assert_eq!(frames[1].location, t.steps[3].location);
    assert_eq!(frames[1].path, "/p/C.sol");
    assert!(t.prev());
    assert_eq!(t.indx, 1);
    assert!(!t.prev());
    assert_eq!(t.indx, 0);
    for _ in 0..20 {
        t.next();
    }
    assert_eq!(t.indx, 7);
    assert!(!t.next());
}

#[test]
fn stepping_back_undoes_a_step() {
    let mut t = trace();
    t.next();
    for _ in 0..5 {
        let before = t.indx;
        assert!(t.next());
        assert!(t.prev());
        assert_eq!(t.indx, before);
        t.next();
    }
}

#[test]
fn shows_the_variables_in_scope() {
    let mut t = trace();
    assert!(t.scope().is_empty());
    for _ in 0..3 {
        t.next();
    }
    let names: Vec<String> = t.scope().into_iter().map(|v| v.name).collect();
    assert_eq!(names, vec!["x".to_string(), "y".to_string()]);
}

#[test]
fn outputs_hand_out_their_code() {
    let output = CompilerOutput::new(
        ContractOutput {
            bin: vec![1],
            bin_runtime: vec![2],
            srcmap: "s".to_string(),
            srcmap_runtime: "r".to_string(),
        },
        SourceOutput {
            ast: Ast { absolute_path: String::new(), nodes: vec![] },
        },
    );
    let deployed = output.compact_deployed_bytecode();
    assert_eq!(deployed.object, BytecodeObject::Bytecode(vec![1]));
    assert_eq!(deployed.source_map, Some("r".to_string()));
    let runtime = output.compact_bytecode();
    assert_eq!(runtime.object, BytecodeObject::Bytecode(vec![2]));
    assert_eq!(runtime.source_map, Some("r".to_string()));
    assert_eq!(output.bytecode(), vec![1]);
}

#[test]
fn artifacts_are_json_files_in_directories() {
    assert!(holds_artifacts("Counter.sol", true));
    assert!(!holds_artifacts("Counter.sol", false));
    assert!(!holds_artifacts("build-info", true));
    assert!(is_artifact(Some("json")));
    assert!(!is_artifact(Some("jsonc")));
    assert!(!is_artifact(None));
}

#[test]
fn code_without_a_readable_source_map_is_refused() {
    let linked = BytecodeObject::Bytecode(vec![0x60, 0x01, 0x00]);
    let element = SourceElement { offset: 3, length: 4, jump: Jump::Regular };
    let (map, pcs) = linked.mapped(Some(vec![element])).unwrap();
    assert_eq!(map, vec![element]);
    assert_eq!(pcs.get(0), Some(0));
    assert_eq!(pcs.get(1), Some(2));
    assert!(matches!(linked.mapped(None), Err(BytecodeError::MalformedSourceMap)));
    let unlinked = BytecodeObject::Unlinked("60__$lib$__".to_string());
    assert!(matches!(unlinked.mapped(Some(vec![element])), Err(BytecodeError::Unlinked)));
    assert!(matches!(unlinked.mapped(None), Err(BytecodeError::MalformedSourceMap)));
}

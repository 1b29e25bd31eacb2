use solstice::builder::Builder;
use solstice::caches::{FileCache, GlobalCache};
use solstice::definitions::{
    DefinitionIndex, DefinitionType, FieldOwner, Position, Range, StructType, Table,
};
use solstice::diagnostics::{diagnostics, Severity};
use solstice::documents::ContentChange;
use solstice::hover_text::{get_constants, make_code_block};
use solstice::namespace::{
    ArithmeticOp, Base, BytesType, CallArgs, CompilerMessage, ConstantValue, ConstructorAnnotations,
    Contract, EnumDecl, EventDecl, Expression, FunctionDecl, Identifier, Level, LocalVariable, Loc,
    Namespace, Note, Parameter, Prototype, SolidityType, SourceFile, StateVariable, Statement,
    StructDecl, Symtable, TypeShape, VarScope,
};
use solstice::queries::{get_range_exclusive, goto_definition, Files, UnknownDefinition};

const PATH: &str = "/w/a.sol";

// ten bytes in each line
fn file() -> SourceFile {
    SourceFile {
        path: PATH.to_string(),
        line_starts: (1..100).map(|i| i * 10).collect(),
        cache_no: Some(0),
    }
}

fn loc(start: usize, end: usize) -> Loc {
    Loc::File(0, start, end)
}

fn name(text: &str, at: Loc) -> Identifier {
    Identifier { loc: at, name: text.to_string() }
}

fn plain(text: &str) -> SolidityType {
    SolidityType { text: text.to_string(), shape: TypeShape::Other }
}

fn shaped(text: &str, shape: TypeShape) -> SolidityType {
    SolidityType { text: text.to_string(), shape }
}

fn parameter(text: &str, at: Loc, ty: SolidityType) -> Parameter {
    Parameter {
        loc: at,
        id: Some(name(text, at)),
        ty,
        ty_loc: None,
        indexed: false,
    }
}

fn empty() -> Namespace {
    Namespace {
        files: vec![file()],
        enums: vec![],
        structs: vec![],
        builtin_structs: vec![],
        events: vec![],
        contracts: vec![],
        functions: vec![],
        constants: vec![],
        var_constants: vec![],
        hover_overrides: vec![],
        diagnostics: vec![],
    }
}

fn function(text: &str, at: Loc, body: Vec<Statement>) -> FunctionDecl {
    FunctionDecl {
        tags: String::new(),
        loc: at,
        ty: "function".to_string(),
        id: name(text, at),
        contract_no: None,
        params: vec![],
        returns: vec![],
        is_accessor: false,
        annotations: ConstructorAnnotations { bump: None, seeds: vec![], space: None, payer: None },
        body,
        symtable: Symtable { vars: vec![], arguments: vec![], returns: vec![], scopes: vec![] },
    }
}

fn built(ns: &Namespace) -> (Vec<FileCache>, GlobalCache) {
    Builder::new(ns).build().unwrap()
}

fn shown(cache: &FileCache, offset: u32) -> Option<String> {
    cache.hover(offset / 10, offset % 10).map(|h| h.contents)
}

fn range(start: u32, end: u32) -> Range {
    Range {
        start: Position { line: start / 10, character: start % 10 },
        end: Position { line: end / 10, character: end % 10 },
    }
}

fn index(def_type: DefinitionType) -> DefinitionIndex {
    DefinitionIndex::at(PATH, def_type)
}

fn with_expression(expr: Expression) -> FileCache {
    let mut ns = empty();
    ns.functions.push(function("f", loc(5, 5), vec![Statement::Expression { expr }]));
    let (mut caches, _) = built(&ns);
    caches.remove(0)
}

#[test]
fn offsets_and_positions() {
    let f = file();
    assert_eq!(f.offset_to_line_column(0), (0, 0));
    assert_eq!(f.offset_to_line_column(10), (1, 0));
    assert_eq!(f.offset_to_line_column(25), (2, 5));
    assert_eq!(f.get_offset(2, 5), Some(25));
    assert_eq!(f.get_offset(0, 7), Some(7));
    assert_eq!(f.get_offset(200, 0), None);
    assert_eq!(get_range_exclusive(12, 15, &f), range(12, 14));
    for offset in [0usize, 9, 10, 11, 500, 5000] {
        let (line, column) = f.offset_to_line_column(offset);
        assert_eq!(f.get_offset(line, column), Some(offset));
    }
}

#[test]
fn constants_are_written_out() {
    let bytes = |ty: BytesType| ConstantValue::BytesLiteral { ty, value: vec![0x41, 0xff] };
    assert_eq!(get_constants(&bytes(BytesType::Bytes)), Some("hex\"41ff\"".to_string()));
    assert_eq!(get_constants(&bytes(BytesType::DynamicBytes)), Some("hex\"41ff\"".to_string()));
    assert_eq!(get_constants(&bytes(BytesType::String)), Some("\"A\u{fffd}\"".to_string()));
    assert_eq!(get_constants(&bytes(BytesType::Other)), None);
    let number = |is_integer: bool| ConstantValue::NumberLiteral { is_integer, value: "7".to_string() };
    assert_eq!(get_constants(&number(true)), Some("7".to_string()));
    assert_eq!(get_constants(&number(false)), None);
    assert_eq!(get_constants(&ConstantValue::Other), None);
    assert_eq!(make_code_block("x"), "```solidity\nx\n```");
}

#[test]
fn enums_are_defined() {
    let mut ns = empty();
    ns.enums.push(EnumDecl {
        tags: "about E".to_string(),
        id: name("E", loc(5, 5)),
        contract: None,
        values: vec![("A".to_string(), loc(11, 11)), ("B".to_string(), loc(13, 13))],
    });
    let (caches, global) = built(&ns);
    assert_eq!(shown(&caches[0], 13), Some("```solidity\nenum E.B 1\n```".to_string()));
    assert_eq!(shown(&caches[0], 5), Some("about E".to_string()));
    assert_eq!(shown(&caches[0], 6), None);
    assert_eq!(global.definitions.get(&index(DefinitionType::Enum(0))), Some(&range(5, 5)));
    let b = index(DefinitionType::Variant(0, 1));
    assert_eq!(global.definitions.get(&b), Some(&range(13, 13)));
    assert_eq!(global.types.get(&b), Some(&index(DefinitionType::Enum(0))));
    let members = global.properties.get(&index(DefinitionType::Enum(0))).unwrap();
    assert_eq!(members, &vec![("A".to_string(), None), ("B".to_string(), None)]);
    assert_eq!(
        caches[0].top_level_code_objects,
        vec![("E".to_string(), Some(index(DefinitionType::Enum(0))))]
    );
    // each definition is a reference to itself
    assert_eq!(caches[0].reference(1, 3), Some(b));
}

#[test]
fn structs_are_defined() {
    let mut ns = empty();
    let mut field = parameter("e", loc(23, 23), shaped("enum E", TypeShape::Enum(0)));
    field.ty_loc = Some(loc(21, 21));
    ns.enums.push(EnumDecl {
        tags: String::new(),
        id: name("E", loc(5, 5)),
        contract: None,
        values: vec![],
    });
    ns.structs.push(StructDecl {
        tags: "about S".to_string(),
        id: name("S", loc(15, 15)),
        loc: loc(14, 29),
        contract: None,
        fields: vec![field],
    });
    let (caches, global) = built(&ns);
    assert_eq!(shown(&caches[0], 23), Some("```solidity\nenum E e\n```".to_string()));
    assert_eq!(caches[0].reference(2, 1), Some(index(DefinitionType::Enum(0))));
    let owner = FieldOwner::Struct(StructType::UserDefined(0));
    let field = index(DefinitionType::Field(owner, 0));
    assert_eq!(global.definitions.get(&field), Some(&range(23, 23)));
    assert_eq!(global.types.get(&field), Some(&index(DefinitionType::Enum(0))));
    let s = index(DefinitionType::Struct(StructType::UserDefined(0)));
    assert_eq!(
        global.properties.get(&s),
        Some(&vec![("e".to_string(), Some(index(DefinitionType::Enum(0))))])
    );
}

#[test]
fn fields_of_structs_and_events_are_different_objects() {
    let mut ns = empty();
    ns.structs.push(StructDecl {
        tags: String::new(),
        id: name("S", loc(5, 5)),
        loc: loc(4, 12),
        contract: None,
        fields: vec![parameter(
            "s",
            loc(7, 7),
            shaped("struct S", TypeShape::Struct(StructType::UserDefined(0))),
        )],
    });
    ns.events.push(EventDecl {
        tags: String::new(),
        id: name("E", loc(15, 15)),
        contract: None,
        fields: vec![parameter("e", loc(17, 17), plain("uint8"))],
        anonymous: false,
    });
    let (caches, global) = built(&ns);
    let of_struct =
        index(DefinitionType::Field(FieldOwner::Struct(StructType::UserDefined(0)), 0));
    let of_event = index(DefinitionType::Field(FieldOwner::Event(0), 0));
    assert_eq!(global.definitions.get(&of_struct), Some(&range(7, 7)));
    assert_eq!(global.definitions.get(&of_event), Some(&range(17, 17)));
    let s = index(DefinitionType::Struct(StructType::UserDefined(0)));
    assert_eq!(global.types.get(&of_struct), Some(&s));
    assert_eq!(global.types.get(&of_event), None);
    assert_eq!(caches[0].reference(0, 7), Some(of_struct));
    assert_eq!(caches[0].reference(1, 7), Some(of_event));
}

#[test]
fn structs_of_the_language_are_skipped() {
    let mut ns = empty();
    ns.structs.push(StructDecl {
        tags: String::new(),
        id: name("S", Loc::Builtin),
        loc: Loc::Builtin,
        contract: None,
        fields: vec![],
    });
    let (_, global) = built(&ns);
    assert_eq!(global.definitions.len(), 0);
}

#[test]
fn functions_are_defined() {
    let mut ns = empty();
    let mut f = function("f", loc(5, 5), vec![]);
    f.tags = "about f".to_string();
    f.params = vec![parameter("p", loc(7, 7), plain("uint256"))];
    f.returns = vec![parameter("r", loc(9, 9), plain("bool"))];
    f.symtable = Symtable {
        vars: vec![
            (3, LocalVariable { name: "p".to_string(), ty: plain("uint256"), slice: false }),
            (4, LocalVariable { name: "r".to_string(), ty: plain("bool"), slice: false }),
        ],
        arguments: vec![Some(3)],
        returns: vec![4],
        scopes: vec![VarScope {
            loc: Some(loc(5, 40)),
            names: vec![("p".to_string(), 3), ("gone".to_string(), 8)],
        }],
    };
    ns.functions.push(f);
    let (caches, global) = built(&ns);
    assert_eq!(shown(&caches[0], 7), Some("```solidity\nuint256\n```".to_string()));
    assert_eq!(
        global.definitions.get(&index(DefinitionType::Variable(3))),
        Some(&range(7, 7))
    );
    assert_eq!(
        global.definitions.get(&index(DefinitionType::Variable(4))),
        Some(&range(9, 9))
    );
    assert_eq!(caches[0].scope_names, vec![vec![("p".to_string(), None)]]);
    assert_eq!(
        caches[0].top_level_code_objects,
        vec![("f".to_string(), Some(index(DefinitionType::Function(0))))]
    );
}

#[test]
fn functions_that_the_compiler_made_are_skipped() {
    let mut ns = empty();
    let mut accessor = function("a", Loc::Implicit, vec![]);
    accessor.is_accessor = true;
    ns.functions.push(accessor);
    ns.functions.push(function("b", Loc::Builtin, vec![]));
    let (caches, global) = built(&ns);
    assert_eq!(global.definitions.len(), 0);
    assert!(caches[0].top_level_code_objects.is_empty());
}

#[test]
fn annotations_are_looked_at() {
    let mut ns = empty();
    let mut f = function("f", loc(5, 5), vec![]);
    f.annotations.bump = Some(Expression::BoolLiteral { loc: loc(21, 22) });
    f.annotations.seeds = vec![Expression::BoolLiteral { loc: loc(31, 32) }];
    f.annotations.space = Some(Expression::BoolLiteral { loc: loc(41, 42) });
    f.annotations.payer = Some((loc(51, 52), "alice".to_string()));
    ns.functions.push(f);
    let (caches, _) = built(&ns);
    for offset in [21, 31, 41] {
        assert_eq!(shown(&caches[0], offset), Some("```solidity\nbool\n```".to_string()));
    }
    assert_eq!(shown(&caches[0], 51), Some("payer account: alice".to_string()));
}

fn number(at: Loc) -> Expression {
    Expression::NumberLiteral { loc: at, ty: plain("uint8"), value: Some(1) }
}

#[test]
fn arithmetic_is_described() {
    let cases = vec![
        (ArithmeticOp::Add { unchecked: false }, " uint8 addition"),
        (ArithmeticOp::Add { unchecked: true }, "unchecked  uint8 addition"),
        (ArithmeticOp::Subtract { unchecked: false }, " uint8 subtraction"),
        (ArithmeticOp::Multiply { unchecked: true }, "unchecked  uint8 multiply"),
        (ArithmeticOp::Divide, "uint8 divide"),
        (ArithmeticOp::Modulo, "uint8 modulo"),
        (ArithmeticOp::Power { unchecked: false }, " uint8power"),
    ];
    for (op, text) in cases {
        let cache = with_expression(Expression::Arithmetic {
            loc: loc(20, 29),
            ty: plain("uint8"),
            op,
            left: Box::new(number(loc(21, 21))),
            right: Box::new(number(loc(28, 28))),
        });
        assert_eq!(shown(&cache, 25), Some(text.to_string()));
        // the operands are shorter than the whole
        assert_eq!(shown(&cache, 21), Some("```solidity\nuint8\n```".to_string()));
        assert_eq!(shown(&cache, 28), Some("```solidity\nuint8\n```".to_string()));
    }
}

#[test]
fn enum_values_refer_to_their_variant() {
    let cache = with_expression(Expression::NumberLiteral {
        loc: loc(20, 22),
        ty: shaped("enum E", TypeShape::Enum(2)),
        value: Some(3),
    });
    assert_eq!(
        cache.reference(2, 1),
        Some(DefinitionIndex::from(DefinitionType::Variant(2, 3)))
    );
    let mut ns = empty();
    let expr = Expression::NumberLiteral {
        loc: loc(20, 22),
        ty: shaped("enum E", TypeShape::Enum(2)),
        value: None,
    };
    ns.functions.push(function("f", loc(5, 5), vec![Statement::Expression { expr }]));
    assert!(Builder::new(&ns).build().is_none());
}

#[test]
fn variables_are_described() {
    let mut ns = empty();
    let expr = Expression::Variable { loc: loc(20, 22), ty: plain("bytes"), var_no: 1 };
    let mut f = function("f", loc(5, 5), vec![Statement::Return { expr: Some(expr) }]);
    f.symtable.vars =
        vec![(1, LocalVariable { name: "data".to_string(), ty: plain("bytes"), slice: true })];
    ns.functions.push(f);
    let (caches, _) = built(&ns);
    assert_eq!(
        shown(&caches[0], 20),
        Some("```solidity\nbytes data\nreadonly: compiled to slice\n\n```".to_string())
    );
    assert_eq!(
        caches[0].reference(2, 0),
        Some(DefinitionIndex::from(DefinitionType::Variable(1)))
    );
}

#[test]
fn builtins_are_described() {
    let cache = with_expression(Expression::Builtin {
        loc: loc(20, 22),
        prototype: Some(Prototype {
            ret: vec!["bool".to_string(), "bytes".to_string()],
            name: "call".to_string(),
            params: vec!["uint".to_string()],
            doc: "Calls".to_string(),
        }),
        args: vec![],
    });
    assert_eq!(
        shown(&cache, 20),
        Some("Calls\n\n```solidity\n[built-in] bool bytes call (uint)\n```".to_string())
    );
    let cache = with_expression(Expression::Builtin { loc: loc(20, 22), prototype: None, args: vec![] });
    assert_eq!(shown(&cache, 20), Some("```solidity\n[built-in]   \n```".to_string()));
}

#[test]
fn calls_are_described() {
    let mut ns = empty();
    let call = Expression::InternalFunctionCall {
        function: Box::new(Expression::InternalFunction { id: vec![loc(20, 21)], function_no: 1 }),
        args: vec![number(loc(23, 23))],
    };
    ns.functions.push(function("f", loc(5, 5), vec![Statement::Expression { expr: call }]));
    let mut g = function("g", loc(35, 35), vec![]);
    g.tags = "about g".to_string();
    g.params = vec![parameter("p", loc(37, 37), plain("uint8"))];
    g.returns = vec![parameter("", loc(38, 38), plain("bool")), parameter("q", loc(39, 39), plain("int8"))];
    ns.functions.push(g);
    let (caches, _) = built(&ns);
    assert_eq!(
        shown(&caches[0], 20),
        Some("about g\n\n```solidity\nfunction g(uint8 p) returns (bool, int8 q)\n\n```".to_string())
    );
    assert_eq!(caches[0].reference(2, 0), Some(index(DefinitionType::Function(1))));
    assert_eq!(shown(&caches[0], 23), Some("```solidity\nuint8\n```".to_string()));
}

#[test]
fn call_arguments_are_looked_at() {
    let none = CallArgs { gas: None, value: None, salt: None, seeds: None };
    let cache = with_expression(Expression::ExternalFunctionCallRaw {
        address: Box::new(number(loc(20, 20))),
        args: Box::new(number(loc(22, 22))),
        call_args: CallArgs { value: Some(Box::new(number(loc(24, 24)))), ..none },
    });
    for offset in [20, 22, 24] {
        assert!(shown(&cache, offset).is_some());
    }
}

#[test]
fn events_are_described() {
    let mut ns = empty();
    let mut field = parameter("who", loc(15, 17), plain("address"));
    field.indexed = true;
    ns.events.push(EventDecl {
        tags: "about Sent".to_string(),
        id: name("Sent", loc(11, 14)),
        contract: None,
        fields: vec![field, parameter("n", loc(19, 19), plain("uint8"))],
        anonymous: true,
    });
    let emit = Statement::Emit { event_no: 0, event_loc: loc(30, 33), args: vec![number(loc(35, 35))] };
    ns.functions.push(function("f", loc(5, 5), vec![emit]));
    let (caches, _) = built(&ns);
    assert_eq!(
        shown(&caches[0], 30),
        Some(
            "about Sent\n\n```solidity\nevent Sent {\n\taddress indexed who,\n\tuint8 n\n} anonymous\n```"
                .to_string()
        )
    );
    assert_eq!(caches[0].reference(3, 0), Some(index(DefinitionType::Event(0))));
    assert_eq!(shown(&caches[0], 11), Some("about Sent".to_string()));
}

fn contract(text: &str, at: usize, functions: Vec<usize>) -> Contract {
    Contract {
        tags: format!("about {}", text),
        loc: loc(at, at + 9),
        id: name(text, loc(at + 1, at + 1)),
        bases: vec![],
        variables: vec![],
        functions,
        virtual_functions: vec![],
    }
}

#[test]
fn contracts_are_defined() {
    let mut ns = empty();
    ns.functions.push(function("run", loc(101, 103), vec![]));
    ns.functions.push(function("run", loc(111, 113), vec![]));
    let parent = contract("P", 20, vec![0]);
    let mut child = contract("C", 40, vec![1]);
    child.bases.push(Base { loc: loc(45, 45), contract_no: 0 });
    child.virtual_functions.push(vec![0, 1]);
    child.variables.push(StateVariable {
        tags: String::new(),
        name: "total".to_string(),
        loc: loc(60, 70),
        ty: plain("uint256"),
        initializer: Some(number(loc(68, 68))),
    });
    ns.contracts = vec![parent, child];
    let (caches, global) = built(&ns);
    assert_eq!(shown(&caches[0], 41), Some("about C".to_string()));
    assert_eq!(shown(&caches[0], 45), Some("```solidity\ncontract P\n```".to_string()));
    assert_eq!(caches[0].reference(4, 5), Some(index(DefinitionType::Contract(0))));
    // the name of a variable is shown, not its declaration
    assert_eq!(shown(&caches[0], 64), Some("```solidity\nuint256 total\n```".to_string()));
    assert_eq!(shown(&caches[0], 65), None);
    assert_eq!(shown(&caches[0], 68), Some("```solidity\nuint8\n```".to_string()));
    assert_eq!(
        global.declarations.get(&index(DefinitionType::Function(1))),
        Some(&vec![index(DefinitionType::Function(0))])
    );
    assert_eq!(
        global.implementations.get(&index(DefinitionType::Contract(1))),
        Some(&vec![index(DefinitionType::Function(1))])
    );
    assert_eq!(
        global.properties.get(&index(DefinitionType::Contract(1))),
        Some(&vec![("run".to_string(), None), ("total".to_string(), None)])
    );
    assert!(global
        .definitions
        .get(&index(DefinitionType::NonLocalVariable(Some(1), 0)))
        .is_some());
}

#[test]
fn texts_can_be_overridden() {
    let mut ns = empty();
    let expr = Expression::BoolLiteral { loc: loc(20, 22) };
    ns.functions.push(function("f", loc(5, 5), vec![Statement::Expression { expr }]));
    ns.hover_overrides.push((Loc::File(0, 20, 23), "better".to_string()));
    let (caches, _) = built(&ns);
    assert_eq!(shown(&caches[0], 20), Some("better".to_string()));
}

#[test]
fn namespaces_must_hold_what_they_refer_to() {
    let mut ns = empty();
    ns.functions.push(function("f", Loc::File(7, 1, 1), vec![]));
    assert!(Builder::new(&ns).build().is_none());
    let mut ns = empty();
    let expr = Expression::InternalFunction { id: vec![loc(1, 1)], function_no: 9 };
    ns.functions.push(function("f", loc(5, 5), vec![Statement::Expression { expr }]));
    assert!(Builder::new(&ns).build().is_none());
}

#[test]
fn statements_are_traversed() {
    let at = |n: usize| Expression::BoolLiteral { loc: loc(n, n) };
    let run = |n: usize| Statement::Expression { expr: at(n) };
    let mut ns = empty();
    ns.functions.push(function(
        "f",
        loc(5, 5),
        vec![
            Statement::Block { statements: vec![run(20)] },
            Statement::If { cond: at(22), then_stmt: vec![run(24)], else_stmt: vec![run(26)] },
            Statement::While { cond: at(28), body: vec![run(30)] },
            Statement::For {
                init: vec![run(32)],
                cond: Some(at(34)),
                next: Some(at(36)),
                body: vec![run(38)],
            },
            Statement::DoWhile { body: vec![run(40)], cond: at(42) },
            Statement::Delete { expr: at(44) },
            Statement::Revert { args: vec![at(46)] },
            Statement::Continue,
            Statement::Break,
            Statement::Return { expr: None },
            Statement::Underscore,
            Statement::Assembly,
        ],
    ));
    let (caches, _) = built(&ns);
    for offset in (20..=46).step_by(2) {
        assert!(shown(&caches[0], offset).is_some());
    }
}

#[test]
fn declarations_are_described() {
    let mut ns = empty();
    ns.var_constants.push((
        loc(20, 30),
        ConstantValue::NumberLiteral { is_integer: true, value: "5".to_string() },
    ));
    let declaration = Statement::VariableDecl {
        loc: loc(20, 30),
        var_no: 2,
        param: parameter("n", loc(22, 24), plain("uint8")),
        expr: Some(number(loc(28, 28))),
    };
    ns.functions.push(function("f", loc(5, 5), vec![declaration]));
    let (caches, global) = built(&ns);
    assert_eq!(shown(&caches[0], 22), Some("```solidity\nuint8 n = 5\n```".to_string()));
    assert_eq!(
        global.definitions.get(&index(DefinitionType::Variable(2))),
        Some(&range(22, 24))
    );
}

#[test]
fn later_knowledge_counts() {
    let mut table: Table<u8> = Table::new();
    let key = index(DefinitionType::Enum(0));
    table.insert(key.copy(), 1);
    table.insert(index(DefinitionType::Enum(1)), 2);
    table.insert(key.copy(), 3);
    assert_eq!(table.get(&key), Some(&3));
    assert_eq!(table.len(), 2);
    let mut other: Table<u8> = Table::new();
    other.insert(key.copy(), 4);
    table.extend(other);
    assert_eq!(table.get(&key), Some(&4));
    assert_eq!(table.get(&index(DefinitionType::Enum(7))), None);
}

fn project() -> (Files, GlobalCache) {
    let mut ns = empty();
    let call = Expression::InternalFunctionCall {
        function: Box::new(Expression::InternalFunction { id: vec![loc(50, 55)], function_no: 0 }),
        args: vec![],
    };
    ns.functions.push(function("test_a", loc(21, 26), vec![]));
    ns.functions.push(function("g", loc(41, 41), vec![Statement::Expression { expr: call }]));
    let mut files = Files::new();
    let mut global = GlobalCache::new();
    assert_eq!(files.parse_file(&mut global, &ns), Some(vec![]));
    (files, global)
}

#[test]
fn finds_definitions() {
    let (files, global) = project();
    let cache = files.cache(PATH).unwrap();
    let reference = cache.reference(5, 2).unwrap();
    let location = goto_definition(&global, &reference).unwrap();
    assert_eq!(location.path, PATH);
    assert_eq!(location.range, range(21, 26));
    assert!(goto_definition(&global, &index(DefinitionType::Event(4))).is_none());
    assert!(files.cache("/w/b.sol").is_none());
}

#[test]
fn finds_references() {
    let (files, global) = project();
    let test = index(DefinitionType::Function(0));
    let all = files.references(&global, &test, true).unwrap().unwrap();
    let ranges: Vec<Range> = all.iter().map(|l| l.range).collect();
    assert_eq!(ranges, vec![range(21, 26), range(50, 55)]);
    let used = files.references(&global, &test, false).unwrap().unwrap();
    assert_eq!(used.len(), 1);
    assert_eq!(used[0].range, range(50, 55));
    let unknown = index(DefinitionType::Event(4));
    assert_eq!(files.references(&global, &unknown, true), Ok(None));
}

#[test]
fn offers_to_run_tests() {
    let (files, global) = project();
    let lenses = files.cache(PATH).unwrap().code_lens(&global, PATH).unwrap();
    assert_eq!(lenses.len(), 2);
    assert_eq!(lenses[0].title, "run test");
    assert_eq!(lenses[0].command, "sol.test.file");
    assert_eq!(lenses[0].arguments, vec![PATH.to_string(), "test_a".to_string()]);
    assert_eq!(lenses[0].range, range(21, 26));
    assert_eq!(lenses[1].title, "debug test");
    assert_eq!(lenses[1].command, "sol.debug.file");
    assert_eq!(
        files.cache(PATH).unwrap().code_lens(&GlobalCache::new(), PATH),
        Err(UnknownDefinition)
    );
}

#[test]
fn the_shortest_range_is_found() {
    let cache = with_expression(Expression::Arithmetic {
        loc: loc(20, 39),
        ty: plain("uint8"),
        op: ArithmeticOp::Divide,
        left: Box::new(Expression::Arithmetic {
            loc: loc(20, 30),
            ty: plain("uint8"),
            op: ArithmeticOp::Modulo,
            left: Box::new(number(loc(20, 22))),
            right: Box::new(number(loc(25, 30))),
        }),
        right: Box::new(number(loc(35, 39))),
    });
    let hover = cache.hover(2, 1).unwrap();
    assert_eq!(hover.contents, "```solidity\nuint8\n```");
    assert_eq!(hover.range, range(20, 22));
    assert_eq!(shown(&cache, 24), Some("uint8 modulo".to_string()));
    assert_eq!(shown(&cache, 32), Some("uint8 divide".to_string()));
    assert_eq!(cache.hover(1000, 0), None);
}

#[test]
fn open_documents_are_kept() {
    let mut files = Files::new();
    files.did_open("a".to_string(), "one\n".to_string());
    let change = ContentChange { range: Some(range(0, 3)), text: "two".to_string() };
    assert!(files.did_change("a", &vec![change]));
    assert_eq!(files.text_buffers, vec![("a".to_string(), "two\n".to_string())]);
    files.did_save("a", "three".to_string());
    assert_eq!(files.text_buffers, vec![("a".to_string(), "three".to_string())]);
    files.did_save("b", "four".to_string());
    assert_eq!(files.text_buffers.len(), 1);
    files.did_open("a".to_string(), "five".to_string());
    assert_eq!(files.text_buffers, vec![("a".to_string(), "five".to_string())]);
}

fn message(at: Loc, level: Level, notes: Vec<Note>) -> CompilerMessage {
    CompilerMessage { loc: at, level, message: "m".to_string(), notes }
}

#[test]
fn tells_of_compiler_messages() {
    let mut ns = empty();
    let mut library = file();
    library.path = "/w/lib.sol".to_string();
    ns.files.push(library);
    ns.diagnostics = vec![
        message(loc(12, 14), Level::Info, vec![]),
        message(loc(12, 14), Level::Debug, vec![]),
        message(Loc::File(1, 12, 14), Level::Error, vec![]),
        message(loc(22, 24), Level::Warning, vec![]),
        message(
            loc(32, 34),
            Level::Error,
            vec![Note { loc: Loc::File(1, 2, 4), message: "see".to_string() }],
        ),
    ];
    let found = diagnostics(&ns).unwrap();
    let severities: Vec<Severity> = found.iter().map(|d| d.severity).collect();
    assert_eq!(severities, vec![Severity::Information, Severity::Warning, Severity::Error]);
    assert_eq!(found[0].range, range(12, 14));
    assert_eq!(found[0].related_information, None);
    let related = found[2].related_information.as_ref().unwrap();
    assert_eq!(related[0].message, "see");
    assert_eq!(related[0].location.path, "/w/lib.sol");
    assert_eq!(related[0].location.range, range(2, 4));
}

#[test]
fn messages_need_a_place() {
    let mut ns = empty();
    ns.diagnostics = vec![message(Loc::Builtin, Level::Error, vec![])];
    assert_eq!(diagnostics(&ns), None);
    let mut files = Files::new();
    let mut global = GlobalCache::new();
    assert_eq!(files.parse_file(&mut global, &ns), None);
    assert!(files.caches.is_empty());
    ns.diagnostics = vec![message(
        loc(1, 2),
        Level::Error,
        vec![Note { loc: Loc::File(5, 1, 2), message: String::new() }],
    )];
    assert_eq!(diagnostics(&ns), None);
    // without messages no file has to be there
    ns.diagnostics = vec![];
    ns.files = vec![];
    assert_eq!(diagnostics(&ns), Some(vec![]));
}

#[test]
fn the_first_file_that_was_read_is_the_one_asked_for() {
    let mut ns = empty();
    let mut unread = file();
    unread.cache_no = None;
    ns.files.insert(0, unread);
    ns.diagnostics = vec![
        message(loc(1, 2), Level::Error, vec![]),
        message(Loc::File(1, 1, 2), Level::Error, vec![]),
    ];
    assert_eq!(diagnostics(&ns).unwrap().len(), 1);
}

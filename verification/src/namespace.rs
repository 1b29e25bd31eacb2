//! A compiled namespace: the code objects of a set of source files, with the texts that the
//! compiler renders for them.

use vstd::prelude::*;
use vstd::slice::slice_to_vec;

use crate::definitions::{DefinitionType, FieldOwner, Position, Range, StructType};

verus! {

/// Where something stands in the source files, in bytes: a file number, a start and an end.
#[derive(Clone, Copy, Debug, PartialEq, Eq, Structural)]
pub enum Loc {
    Builtin,
    CommandLine,
    Implicit,
    Codegen,
    File(usize, usize, usize),
}

/// The file, the start and the exclusive end of a location in a file.
pub open spec fn span(loc: Loc) -> Option<(usize, usize, usize)> {
    match loc {
        Loc::File(file_no, start, end) if end < usize::MAX => Some(
            (file_no, start, (end + 1) as usize),
        ),
        _ => None,
    }
}

impl Loc {
    /// The file, the start and the exclusive end, where this is a location in a file.
    pub fn span(&self) -> (r: Option<(usize, usize, usize)>)
        ensures
            r == span(*self),
    {
        match *self {
            Loc::File(file_no, start, end) => {
                if end < usize::MAX {
                    Some((file_no, start, end + 1))
                } else {
                    None
                }
            },
            _ => None,
        }
    }
}

/// A name with its location.
#[derive(Debug, PartialEq)]
pub struct Identifier {
    pub loc: Loc,
    pub name: String,
}

/// What a type is made of.
#[derive(Debug, PartialEq)]
pub enum TypeShape {
    Enum(usize),
    Struct(StructType),
    Array(Box<SolidityType>),
    Ref(Box<SolidityType>),
    StorageRef(Box<SolidityType>),
    Contract(usize),
    UserType(usize),
    DynamicBytes,
    /// Every other type.
    Other,
}

/// A type with its rendered text.
#[derive(Debug, PartialEq)]
pub struct SolidityType {
    pub text: String,
    pub shape: TypeShape,
}

/// A parameter, a return value, or a field of a struct or an event.
#[derive(Debug, PartialEq)]
pub struct Parameter {
    pub loc: Loc,
    pub id: Option<Identifier>,
    pub ty: SolidityType,
    pub ty_loc: Option<Loc>,
    pub indexed: bool,
}

#[derive(Debug, PartialEq)]
pub struct EnumDecl {
    /// The rendered documentation tags.
    pub tags: String,
    pub id: Identifier,
    /// The name of the contract around it.
    pub contract: Option<String>,
    pub values: Vec<(String, Loc)>,
}

#[derive(Debug, PartialEq)]
pub struct StructDecl {
    /// The rendered documentation tags.
    pub tags: String,
    pub id: Identifier,
    pub loc: Loc,
    /// The name of the contract around it.
    pub contract: Option<String>,
    pub fields: Vec<Parameter>,
}

#[derive(Debug, PartialEq)]
pub struct EventDecl {
    /// The rendered documentation tags.
    pub tags: String,
    pub id: Identifier,
    /// The number of the contract around it.
    pub contract: Option<usize>,
    pub fields: Vec<Parameter>,
    pub anonymous: bool,
}

/// A variable of a contract, or a constant outside of all contracts.
#[derive(Debug, PartialEq)]
pub struct StateVariable {
    /// The rendered documentation tags.
    pub tags: String,
    pub name: String,
    pub loc: Loc,
    pub ty: SolidityType,
    pub initializer: Option<Expression>,
}

#[derive(Debug, PartialEq)]
pub struct Base {
    pub loc: Loc,
    pub contract_no: usize,
}

#[derive(Debug, PartialEq)]
pub struct Contract {
    /// The rendered documentation tags.
    pub tags: String,
    pub loc: Loc,
    pub id: Identifier,
    pub bases: Vec<Base>,
    pub variables: Vec<StateVariable>,
    /// The numbers of its functions.
    pub functions: Vec<usize>,
    /// For each function that can be overridden, the functions that override each other, the one
    /// of this contract last.
    pub virtual_functions: Vec<Vec<usize>>,
}

/// A variable of a function.
#[derive(Debug, PartialEq)]
pub struct LocalVariable {
    pub name: String,
    pub ty: SolidityType,
    /// Whether it is compiled to a slice.
    pub slice: bool,
}

/// A scope of a function, with the numbers of the variables that it names.
#[derive(Debug, PartialEq)]
pub struct VarScope {
    pub loc: Option<Loc>,
    pub names: Vec<(String, usize)>,
}

/// The variables of a function.
#[derive(Debug, PartialEq)]
pub struct Symtable {
    pub vars: Vec<(usize, LocalVariable)>,
    pub arguments: Vec<Option<usize>>,
    pub returns: Vec<usize>,
    pub scopes: Vec<VarScope>,
}

/// The expressions in the annotations of a constructor, and its payer.
#[derive(Debug, PartialEq)]
pub struct ConstructorAnnotations {
    pub bump: Option<Expression>,
    pub seeds: Vec<Expression>,
    pub space: Option<Expression>,
    pub payer: Option<(Loc, String)>,
}

#[derive(Debug, PartialEq)]
pub struct FunctionDecl {
    /// The rendered documentation tags.
    pub tags: String,
    pub loc: Loc,
    /// What is declared: `function`, `constructor`, `modifier` and so on.
    pub ty: String,
    pub id: Identifier,
    pub contract_no: Option<usize>,
    pub params: Vec<Parameter>,
    pub returns: Vec<Parameter>,
    pub is_accessor: bool,
    pub annotations: ConstructorAnnotations,
    pub body: Vec<Statement>,
    pub symtable: Symtable,
}

/// A source file. `line_starts` holds the offset of each line but the first, `cache_no` the place
/// of its text among the texts that were read.
#[derive(Debug, PartialEq)]
pub struct SourceFile {
    pub path: String,
    pub line_starts: Vec<usize>,
    pub cache_no: Option<usize>,
}

/// What kind of bytes a constant holds.
#[derive(Clone, Copy, Debug, PartialEq, Eq, Structural)]
pub enum BytesType {
    Bytes,
    DynamicBytes,
    String,
    Other,
}

/// The value of a constant expression.
#[allow(inconsistent_fields)]
#[derive(Debug, PartialEq)]
pub enum ConstantValue {
    BytesLiteral { ty: BytesType, value: Vec<u8> },
    /// A number as it is written; only those of an integer type are shown.
    NumberLiteral { is_integer: bool, value: String },
    Other,
}

/// How severe a message of the compiler is.
#[derive(Clone, Copy, Debug, PartialEq, Eq, Structural)]
pub enum Level {
    Debug,
    Info,
    Warning,
    Error,
}

#[derive(Debug, PartialEq)]
pub struct Note {
    pub loc: Loc,
    pub message: String,
}

/// A message of the compiler.
#[derive(Debug, PartialEq)]
pub struct CompilerMessage {
    pub loc: Loc,
    pub level: Level,
    pub message: String,
    pub notes: Vec<Note>,
}

#[derive(Debug, PartialEq)]
pub struct Namespace {
    pub files: Vec<SourceFile>,
    pub enums: Vec<EnumDecl>,
    pub structs: Vec<StructDecl>,
    /// The structs of the language itself: those of account infos, account metas and external
    /// functions, in this order.
    pub builtin_structs: Vec<StructDecl>,
    pub events: Vec<EventDecl>,
    pub contracts: Vec<Contract>,
    pub functions: Vec<FunctionDecl>,
    /// Constants outside of all contracts.
    pub constants: Vec<StateVariable>,
    pub var_constants: Vec<(Loc, ConstantValue)>,
    pub hover_overrides: Vec<(Loc, String)>,
    pub diagnostics: Vec<CompilerMessage>,
}

#[derive(Clone, Copy, Debug, PartialEq, Eq, Structural)]
pub enum ArithmeticOp {
    Add { unchecked: bool },
    Subtract { unchecked: bool },
    Multiply { unchecked: bool },
    Divide,
    Modulo,
    Power { unchecked: bool },
}

#[derive(Clone, Copy, Debug, PartialEq, Eq, Structural)]
pub enum BinaryOp {
    BitwiseOr,
    BitwiseAnd,
    BitwiseXor,
    ShiftLeft,
    ShiftRight,
    Or,
    And,
    Equal,
    More,
    MoreEqual,
    Less,
    LessEqual,
    NotEqual,
    Assign,
}

#[derive(Clone, Copy, Debug, PartialEq, Eq, Structural)]
pub enum UnaryOp {
    Load,
    StorageLoad,
    ZeroExt,
    SignExt,
    Trunc,
    Cast,
    BytesCast,
    PreIncrement,
    PreDecrement,
    PostIncrement,
    PostDecrement,
    Not,
    BitwiseNot,
    Negate,
}

/// The declaration of a function of the language itself, with its types rendered.
#[derive(Debug, PartialEq)]
pub struct Prototype {
    pub ret: Vec<String>,
    pub name: String,
    pub params: Vec<String>,
    pub doc: String,
}

#[derive(Debug, PartialEq)]
pub struct CallArgs {
    pub gas: Option<Box<Expression>>,
    pub value: Option<Box<Expression>>,
    pub salt: Option<Box<Expression>>,
    pub seeds: Option<Box<Expression>>,
}

#[derive(Debug, PartialEq)]
pub enum StringLocation {
    CompileTime,
    RunTime(Box<Expression>),
}

#[allow(inconsistent_fields)]
#[derive(Debug, PartialEq)]
pub enum Expression {
    BoolLiteral { loc: Loc },
    BytesLiteral { loc: Loc, ty: SolidityType },
    /// `value` is absent where it does not fit.
    NumberLiteral { loc: Loc, ty: SolidityType, value: Option<u64> },
    /// `id` holds the locations of the parts of the struct's name.
    StructLiteral { id: Vec<Loc>, ty: SolidityType, values: Vec<(Option<Loc>, Expression)> },
    ArrayLiteral { values: Vec<Expression> },
    ConstArrayLiteral { values: Vec<Expression> },
    Arithmetic {
        loc: Loc,
        ty: SolidityType,
        op: ArithmeticOp,
        left: Box<Expression>,
        right: Box<Expression>,
    },
    Binary { op: BinaryOp, left: Box<Expression>, right: Box<Expression> },
    Variable { loc: Loc, ty: SolidityType, var_no: usize },
    ConstantVariable { loc: Loc, ty: SolidityType, contract_no: Option<usize>, var_no: usize },
    StorageVariable { loc: Loc, ty: SolidityType, contract_no: usize, var_no: usize },
    Unary { op: UnaryOp, expr: Box<Expression> },
    ConditionalOperator {
        cond: Box<Expression>,
        true_option: Box<Expression>,
        false_option: Box<Expression>,
    },
    Subscript { array: Box<Expression>, index: Box<Expression> },
    /// `expr_ty` is the type of `expr`.
    StructMember {
        loc: Loc,
        ty: SolidityType,
        expr: Box<Expression>,
        expr_ty: SolidityType,
        field: usize,
    },
    AllocDynamicBytes { loc: Loc, ty: SolidityType, length: Box<Expression> },
    StorageArrayLength { array: Box<Expression> },
    StringCompare { left: StringLocation, right: StringLocation },
    /// `id` holds the locations of the parts of the function's name.
    InternalFunction { id: Vec<Loc>, function_no: usize },
    InternalFunctionCall { function: Box<Expression>, args: Vec<Expression> },
    ExternalFunction { loc: Loc, address: Box<Expression>, function_no: usize },
    ExternalFunctionCall { function: Box<Expression>, args: Vec<Expression>, call_args: CallArgs },
    ExternalFunctionCallRaw {
        address: Box<Expression>,
        args: Box<Expression>,
        call_args: CallArgs,
    },
    Constructor { args: Vec<Expression>, call_args: CallArgs },
    Builtin { loc: Loc, prototype: Option<Prototype>, args: Vec<Expression> },
    FormatString { format: Vec<Expression> },
    List { list: Vec<Expression> },
    /// An expression without anything to look up.
    Other,
}

#[derive(Debug, PartialEq)]
pub enum DestructureField {
    Nothing,
    Expression(Expression),
    VariableDecl(usize, Parameter),
}

#[derive(Debug, PartialEq)]
pub struct TryStatement {
    pub expr: Expression,
    /// The statements of each clause for an error.
    pub errors: Vec<Vec<Statement>>,
    /// The statements of the clause for all errors.
    pub catch_all: Option<Vec<Statement>>,
    pub ok_stmt: Vec<Statement>,
}

#[allow(inconsistent_fields)]
#[derive(Debug, PartialEq)]
pub enum Statement {
    Block { statements: Vec<Statement> },
    VariableDecl { loc: Loc, var_no: usize, param: Parameter, expr: Option<Expression> },
    If { cond: Expression, then_stmt: Vec<Statement>, else_stmt: Vec<Statement> },
    While { cond: Expression, body: Vec<Statement> },
    For {
        init: Vec<Statement>,
        cond: Option<Expression>,
        next: Option<Expression>,
        body: Vec<Statement>,
    },
    DoWhile { body: Vec<Statement>, cond: Expression },
    Expression { expr: Expression },
    Delete { expr: Expression },
    Destructure { fields: Vec<DestructureField>, expr: Expression },
    Continue,
    Break,
    Return { expr: Option<Expression> },
    Revert { args: Vec<Expression> },
    Emit { event_no: usize, event_loc: Loc, args: Vec<Expression> },
    TryCatch { try_stmt: TryStatement },
    Underscore,
    Assembly,
}

/// The code object that a type refers to: that of the elements of an array or of the target of a
/// reference.
pub open spec fn type_definition(ty: SolidityType) -> Option<DefinitionType>
    decreases ty,
{
    match ty.shape {
        TypeShape::Enum(id) => Some(DefinitionType::Enum(id)),
        TypeShape::Struct(st) => Some(DefinitionType::Struct(st)),
        TypeShape::Array(elem) => type_definition(*elem),
        TypeShape::Ref(target) => type_definition(*target),
        TypeShape::StorageRef(target) => type_definition(*target),
        TypeShape::Contract(id) => Some(DefinitionType::Contract(id)),
        TypeShape::UserType(id) => Some(DefinitionType::UserType(id)),
        TypeShape::DynamicBytes => Some(DefinitionType::DynamicBytes),
        TypeShape::Other => None,
    }
}

/// The code object that a type refers to.
pub fn get_type_definition(ty: &SolidityType) -> (r: Option<DefinitionType>)
    ensures
        r == type_definition(*ty),
    decreases ty,
{
    match &ty.shape {
        TypeShape::Enum(id) => Some(DefinitionType::Enum(*id)),
        TypeShape::Struct(st) => Some(DefinitionType::Struct(*st)),
        TypeShape::Array(elem) => get_type_definition(elem),
        TypeShape::Ref(target) => get_type_definition(target),
        TypeShape::StorageRef(target) => get_type_definition(target),
        TypeShape::Contract(id) => Some(DefinitionType::Contract(*id)),
        TypeShape::UserType(id) => Some(DefinitionType::UserType(*id)),
        TypeShape::DynamicBytes => Some(DefinitionType::DynamicBytes),
        TypeShape::Other => None,
    }
}

/// The type as the owner of a field.
pub open spec fn field_owner(ty: SolidityType) -> FieldOwner {
    match ty.shape {
        TypeShape::Struct(st) => FieldOwner::Struct(st),
        _ => FieldOwner::Other,
    }
}

/// The target of a reference, or the type itself.
pub open spec fn dereferenced(ty: SolidityType) -> SolidityType {
    match ty.shape {
        TypeShape::Ref(target) => *target,
        TypeShape::StorageRef(target) => *target,
        _ => ty,
    }
}

impl SolidityType {
    pub fn field_owner(&self) -> (r: FieldOwner)
        ensures
            r == field_owner(*self),
    {
        match &self.shape {
            TypeShape::Struct(st) => FieldOwner::Struct(*st),
            _ => FieldOwner::Other,
        }
    }

    /// The target of a reference, or the type itself.
    pub fn deref_any(&self) -> (r: &SolidityType)
        ensures
            *r == dereferenced(*self),
    {
        match &self.shape {
            TypeShape::Ref(target) => target,
            TypeShape::StorageRef(target) => target,
            _ => self,
        }
    }
}

/// How many of the first `n` lines start at or before an offset.
pub open spec fn lines_before(line_starts: Seq<usize>, offset: usize, n: nat) -> nat
    decreases n,
{
    if n == 0 || n > line_starts.len() {
        0
    } else if line_starts[n - 1] <= offset {
        n
    } else {
        lines_before(line_starts, offset, (n - 1) as nat)
    }
}

/// The line and the column of an offset, both counted from zero.
pub open spec fn line_column(line_starts: Seq<usize>, offset: usize) -> (nat, nat) {
    let line = lines_before(line_starts, offset, line_starts.len());
    if line > 0 {
        (line, (offset - line_starts[line - 1]) as nat)
    } else {
        (0, offset as nat)
    }
}

/// The position of an offset.
pub open spec fn position_of_offset(line_starts: Seq<usize>, offset: usize) -> Position {
    let (line, column) = line_column(line_starts, offset);
    Position { line: line as usize as u32, character: column as usize as u32 }
}

/// The range from one offset to another.
pub open spec fn range_of(line_starts: Seq<usize>, start: usize, end: usize) -> Range {
    Range {
        start: position_of_offset(line_starts, start),
        end: position_of_offset(line_starts, end),
    }
}

/// The offset of a place in a line; nothing where there is no such line or the offset is too large.
pub open spec fn offset_of(line_starts: Seq<usize>, line: usize, column: usize) -> Option<usize> {
    if line == 0 {
        Some(column)
    } else if line <= line_starts.len() && line_starts[line - 1] + column <= usize::MAX {
        Some((line_starts[line - 1] + column) as usize)
    } else {
        None
    }
}

impl SourceFile {
    /// The same file once more.
    pub fn copy(&self) -> (r: SourceFile)
        ensures
            r.path@ == self.path@,
            r.line_starts@ == self.line_starts@,
            r.cache_no == self.cache_no,
    {
        SourceFile {
            path: self.path.clone(),
            line_starts: slice_to_vec(self.line_starts.as_slice()),
            cache_no: self.cache_no,
        }
    }

    /// The line and the column of an offset.
    pub fn offset_to_line_column(&self, offset: usize) -> (r: (usize, usize))
        ensures
            r.0 == line_column(self.line_starts@, offset).0,
            r.1 == line_column(self.line_starts@, offset).1,
            r.0 <= self.line_starts@.len(),
    {
        proof {
            lemma_lines_before(self.line_starts@, offset, self.line_starts@.len());
        }
        let mut line: usize = self.line_starts.len();
        while line > 0 && self.line_starts[line - 1] > offset
            invariant
                line <= self.line_starts@.len(),
                lines_before(self.line_starts@, offset, self.line_starts@.len()) == lines_before(
                    self.line_starts@,
                    offset,
                    line as nat,
                ),
            decreases line,
        {
            line = line - 1;
        }
        if line > 0 {
            (line, offset - self.line_starts[line - 1])
        } else {
            (0, offset)
        }
    }

    /// The offset of a place in a line.
    pub fn get_offset(&self, line: usize, column: usize) -> (r: Option<usize>)
        ensures
            r == offset_of(self.line_starts@, line, column),
    {
        if line == 0 {
            Some(column)
        } else if line <= self.line_starts.len() {
            let start: usize = self.line_starts[line - 1];
            if column <= usize::MAX - start {
                Some(start + column)
            } else {
                None
            }
        } else {
            None
        }
    }

    /// The range from one offset to another.
    pub fn get_range(&self, start: usize, end: usize) -> (r: Range)
        ensures
            r == range_of(self.line_starts@, start, end),
    {
        let (line, column) = self.offset_to_line_column(start);
        let from = Position { line: line as u32, character: column as u32 };
        let (line, column) = self.offset_to_line_column(end);
        let to = Position { line: line as u32, character: column as u32 };
        Range { start: from, end: to }
    }
}

proof fn lemma_lines_before(line_starts: Seq<usize>, offset: usize, n: nat)
    requires
        n <= line_starts.len(),
    ensures
        lines_before(line_starts, offset, n) <= n,
        lines_before(line_starts, offset, n) > 0 ==> line_starts[lines_before(
            line_starts,
            offset,
            n,
        ) - 1] <= offset,
    decreases n,
{
    if n > 0 && line_starts[n - 1] > offset {
        lemma_lines_before(line_starts, offset, (n - 1) as nat);
    }
}

/// The offset of the position of an offset is the offset again.
pub proof fn law_offsets_come_back(line_starts: Seq<usize>, offset: usize)
    requires
        line_starts.len() <= usize::MAX,
    ensures
        offset_of(
            line_starts,
            line_column(line_starts, offset).0 as usize,
            line_column(line_starts, offset).1 as usize,
        ) == Some(offset),
{
    lemma_lines_before(line_starts, offset, line_starts.len());
}

} // verus!

//! Collects what a language server looks up: the texts shown on hover, the code objects
//! that source ranges refer to, and where code objects are defined.

use vstd::prelude::*;
use vstd::string::StringExecFns;

use crate::definitions::{
    definition_models, key_place, lemma_key_place, optional_definition, unplaced, with_pair,
    Definition, DefinitionIndex, DefinitionType, Range, StructType, Table,
};
use crate::hover_text::{
    arithmetic_text, builtin_text, code_block, constant_suffix, constant_suffix_text, expanded,
    expanded_ty, find_local, function_text, local_variable, make_code_block, readonly_suffix,
    render_arithmetic, render_builtin, render_contract_prefix, render_function, render_readonly,
};
use crate::namespace::{
    dereferenced, field_owner, get_type_definition, range_of, span, type_definition, Expression,
    LocalVariable, Loc, Namespace, Parameter, SolidityType, SourceFile, StringLocation, TypeShape,
};

verus! {

/// A text shown for a source range.
#[derive(Debug, PartialEq)]
pub struct HoverEntry {
    pub start: usize,
    pub stop: usize,
    pub val: String,
}

/// A source range that refers to a code object.
#[derive(Debug, PartialEq)]
pub struct ReferenceEntry {
    pub start: usize,
    pub stop: usize,
    pub val: DefinitionIndex,
}

/// A named thing with the code object that its type refers to.
pub type NamedObject = (String, Option<DefinitionIndex>);

/// A source range with the code objects that it names.
#[derive(Debug, PartialEq)]
pub struct ScopeEntry {
    pub start: usize,
    pub stop: usize,
    pub val: Vec<NamedObject>,
}

/// A [`HoverEntry`] of a file.
pub struct HoverModel {
    pub file_no: usize,
    pub start: usize,
    pub stop: usize,
    pub val: Seq<char>,
}

/// A [`ReferenceEntry`] of a file.
pub struct ReferenceModel {
    pub file_no: usize,
    pub start: usize,
    pub stop: usize,
    pub val: Definition,
}

/// A [`ScopeEntry`] of a file.
pub struct ScopeModel {
    pub file_no: usize,
    pub start: usize,
    pub stop: usize,
    pub val: Seq<(Seq<char>, Option<Definition>)>,
}

/// Named things with the code objects that they stand for.
pub type NamesModel = Seq<(Seq<char>, Option<Definition>)>;

/// What has been collected.
pub struct Built {
    pub hovers: Seq<HoverModel>,
    pub references: Seq<ReferenceModel>,
    pub scopes: Seq<ScopeModel>,
    pub top_level: Seq<(usize, (Seq<char>, Option<Definition>))>,
    pub definitions: Seq<(Definition, Range)>,
    pub types: Seq<(Definition, Definition)>,
    pub declarations: Seq<(Definition, Seq<Definition>)>,
    pub implementations: Seq<(Definition, Seq<Definition>)>,
    pub properties: Seq<(Definition, NamesModel)>,
}

/// A text is shown for a location. Nothing is collected any more once a text or a location
/// in a file was missing.
#[verifier::opaque]
pub open spec fn hovered(b: Option<Built>, loc: Loc, text: Option<Seq<char>>) -> Option<Built> {
    match (b, span(loc), text) {
        (Some(built), Some((file_no, start, stop)), Some(val)) => Some(
            Built {
                hovers: built.hovers.push(HoverModel { file_no, start, stop, val }),
                ..built
            },
        ),
        _ => None,
    }
}

/// A location refers to a code object.
#[verifier::opaque]
pub open spec fn referred(b: Option<Built>, loc: Loc, def: DefinitionType) -> Option<Built> {
    match (b, span(loc)) {
        (Some(built), Some((file_no, start, stop))) => Some(
            Built {
                references: built.references.push(
                    ReferenceModel { file_no, start, stop, val: unplaced(def) },
                ),
                ..built
            },
        ),
        _ => None,
    }
}

/// A text is shown for a range of the file in which another location lies.
#[verifier::opaque]
pub open spec fn hovered_in(b: Option<Built>, file_loc: Loc, loc: Loc, text: Seq<char>) -> Option<
    Built,
> {
    match (b, file_loc, span(loc)) {
        (Some(built), Loc::File(file_no, _, _), Some((_, start, stop))) => Some(
            Built {
                hovers: built.hovers.push(HoverModel { file_no, start, stop, val: text }),
                ..built
            },
        ),
        _ => None,
    }
}

/// A text is shown for `len` bytes from the start of a location on.
#[verifier::opaque]
pub open spec fn hovered_start(b: Option<Built>, loc: Loc, len: nat, text: Seq<char>) -> Option<
    Built,
> {
    match (b, loc) {
        (Some(built), Loc::File(file_no, start, _)) if start + len <= usize::MAX => Some(
            Built {
                hovers: built.hovers.push(
                    HoverModel { file_no, start, stop: (start + len) as usize, val: text },
                ),
                ..built
            },
        ),
        _ => None,
    }
}

/// The file of the namespace in which a location lies.
pub open spec fn file_at(ns: Namespace, loc: Loc) -> Option<SourceFile> {
    match loc {
        Loc::File(file_no, _, _) if file_no < ns.files@.len() => Some(ns.files@[file_no as int]),
        _ => None,
    }
}

/// A code object is defined at a location in the file in which `file_loc` lies.
#[verifier::opaque]
pub open spec fn defined_in(
    ns: Namespace,
    b: Option<Built>,
    file_loc: Loc,
    loc: Loc,
    def: DefinitionType,
) -> Option<Built> {
    match (b, file_at(ns, file_loc), loc) {
        (Some(built), Some(file), Loc::File(_, start, end)) => Some(
            Built {
                definitions: with_pair(
                    built.definitions,
                    Definition { path: file.path@, def },
                    range_of(file.line_starts@, start, end),
                ),
                ..built
            },
        ),
        _ => None,
    }
}

/// A code object is defined at a location.
pub open spec fn defined(ns: Namespace, b: Option<Built>, loc: Loc, def: DefinitionType) -> Option<
    Built,
> {
    defined_in(ns, b, loc, loc, def)
}

/// A code object has these members.
#[verifier::opaque]
pub open spec fn has_members(
    ns: Namespace,
    b: Option<Built>,
    file_loc: Loc,
    def: DefinitionType,
    names: NamesModel,
) -> Option<Built> {
    match (b, file_at(ns, file_loc)) {
        (Some(built), Some(file)) => Some(
            Built {
                properties: with_pair(
                    built.properties,
                    Definition { path: file.path@, def },
                    names,
                ),
                ..built
            },
        ),
        _ => None,
    }
}

/// A contract implements these functions.
#[verifier::opaque]
pub open spec fn implements(
    ns: Namespace,
    b: Option<Built>,
    file_loc: Loc,
    def: DefinitionType,
    functions: Seq<Definition>,
) -> Option<Built> {
    match (b, file_at(ns, file_loc)) {
        (Some(built), Some(file)) => Some(
            Built {
                implementations: with_pair(
                    built.implementations,
                    Definition { path: file.path@, def },
                    functions,
                ),
                ..built
            },
        ),
        _ => None,
    }
}

/// A function overrides these functions.
#[verifier::opaque]
pub open spec fn overrides(
    ns: Namespace,
    b: Option<Built>,
    file_loc: Loc,
    def: DefinitionType,
    functions: Seq<Definition>,
) -> Option<Built> {
    match (b, file_at(ns, file_loc)) {
        (Some(built), Some(file)) => Some(
            Built {
                declarations: with_pair(
                    built.declarations,
                    Definition { path: file.path@, def },
                    functions,
                ),
                ..built
            },
        ),
        _ => None,
    }
}

/// A range of the file in which `file_loc` lies names these things.
#[verifier::opaque]
pub open spec fn scoped(b: Option<Built>, file_loc: Loc, loc: Loc, names: NamesModel) -> Option<
    Built,
> {
    match (b, file_loc, span(loc)) {
        (Some(built), Loc::File(file_no, _, _), Some((_, start, stop))) => Some(
            Built {
                scopes: built.scopes.push(ScopeModel { file_no, start, stop, val: names }),
                ..built
            },
        ),
        _ => None,
    }
}

/// The file in which `file_loc` lies names something at its top level.
#[verifier::opaque]
pub open spec fn at_top_level(
    b: Option<Built>,
    file_loc: Loc,
    name: Seq<char>,
    object: Option<Definition>,
) -> Option<Built> {
    match (b, file_loc) {
        (Some(built), Loc::File(file_no, _, _)) => Some(
            Built { top_level: built.top_level.push((file_no, (name, object))), ..built },
        ),
        _ => None,
    }
}

/// A code object in the file of a location is of a type, which is noted where the type is a code
/// object itself.
#[verifier::opaque]
pub open spec fn typed(
    ns: Namespace,
    b: Option<Built>,
    loc: Loc,
    def: DefinitionType,
    ty: Option<DefinitionType>,
) -> Option<Built> {
    match (b, file_at(ns, loc), ty) {
        (Some(built), Some(file), Some(t)) => Some(
            Built {
                types: with_pair(
                    built.types,
                    Definition { path: file.path@, def },
                    unplaced(t),
                ),
                ..built
            },
        ),
        (Some(built), Some(_), None) => b,
        _ => None,
    }
}

/// A variable is defined where its name stands.
pub open spec fn variable_defined(
    ns: Namespace,
    b: Option<Built>,
    param: Parameter,
    var_no: usize,
) -> Option<Built> {
    match param.id {
        Some(id) => {
            let def = DefinitionType::Variable(var_no);
            typed(ns, defined(ns, b, id.loc, def), id.loc, def, type_definition(param.ty))
        },
        None => b,
    }
}

/// The type of a parameter is referred to where it is written.
pub open spec fn parameter_type_referred(b: Option<Built>, param: Parameter) -> Option<Built> {
    match param.ty_loc {
        Some(loc) => type_referred(b, loc, param.ty),
        None => b,
    }
}

/// A location refers to the code object of a type, where it has one.
pub open spec fn type_referred(b: Option<Built>, loc: Loc, ty: SolidityType) -> Option<Built> {
    match type_definition(ty) {
        Some(def) => referred(b, loc, def),
        None => b,
    }
}

pub open spec fn last_loc(locs: Seq<Loc>) -> Option<Loc> {
    if locs.len() > 0 {
        Some(locs.last())
    } else {
        None
    }
}

/// What is shown for a use of a local variable.
pub open spec fn variable_text(vars: Seq<(usize, LocalVariable)>, ty: SolidityType, var_no: usize) -> Seq<
    char,
> {
    let var = local_variable(vars, var_no, 0);
    let name = match var {
        Some(v) => v.name@,
        None => ""@,
    };
    code_block(ty.text@ + " "@ + name + readonly_suffix(var))
}

/// The name of a constant, with that of its contract before it.
pub open spec fn constant_name(ns: Namespace, contract_no: Option<usize>, var_no: usize) -> Option<
    (Seq<char>, Seq<char>),
> {
    match contract_no {
        Some(n) => if n < ns.contracts@.len() && var_no < ns.contracts@[n as int].variables@.len() {
            Some(
                (
                    ns.contracts@[n as int].id.name@ + "."@,
                    ns.contracts@[n as int].variables@[var_no as int].name@,
                ),
            )
        } else {
            None
        },
        None => if var_no < ns.constants@.len() {
            Some((""@, ns.constants@[var_no as int].name@))
        } else {
            None
        },
    }
}

/// What is shown for a use of a constant.
pub open spec fn constant_use(
    ns: Namespace,
    loc: Loc,
    ty: SolidityType,
    contract_no: Option<usize>,
    var_no: usize,
) -> Option<Seq<char>> {
    match constant_name(ns, contract_no, var_no) {
        None => None,
        Some((contract, name)) => Some(
            code_block(ty.text@ + " constant "@ + contract + name + constant_suffix(ns, loc)),
        ),
    }
}

/// What is shown for a use of a state variable.
pub open spec fn storage_use(ns: Namespace, ty: SolidityType, contract_no: usize, var_no: usize) -> Option<
    Seq<char>,
> {
    if contract_no < ns.contracts@.len() && var_no
        < ns.contracts@[contract_no as int].variables@.len() {
        let contract = ns.contracts@[contract_no as int];
        Some(
            code_block(
                ty.text@ + " "@ + contract.id.name@ + "."@
                    + contract.variables@[var_no as int].name@,
            ),
        )
    } else {
        None
    }
}

/// What is shown for a use of a function.
pub open spec fn function_use(ns: Namespace, function_no: usize) -> Option<Seq<char>> {
    if function_no < ns.functions@.len() {
        function_text(ns, ns.functions@[function_no as int])
    } else {
        None
    }
}

/// What is collected from an expression.
pub open spec fn expression_built(
    ns: Namespace,
    vars: Seq<(usize, LocalVariable)>,
    e: Expression,
    b: Option<Built>,
) -> Option<Built>
    decreases e, 0nat,
{
    match e {
        Expression::BoolLiteral { loc } => hovered(b, loc, Some(code_block("bool"@))),
        Expression::BytesLiteral { loc, ty } => hovered(b, loc, expanded(ns, ty)),
        Expression::NumberLiteral { loc, ty, value } => {
            let with_variant = match ty.shape {
                TypeShape::Enum(id) => match value {
                    Some(v) => referred(b, loc, DefinitionType::Variant(id, v as usize)),
                    None => None,
                },
                _ => b,
            };
            hovered(with_variant, loc, Some(code_block(ty.text@)))
        },
        Expression::StructLiteral { id, ty, values } => {
            let with_struct = match ty.shape {
                TypeShape::Struct(StructType::UserDefined(n)) => match last_loc(id@) {
                    Some(loc) => referred(
                        b,
                        loc,
                        DefinitionType::Struct(StructType::UserDefined(n)),
                    ),
                    None => None,
                },
                _ => b,
            };
            fields_built(ns, vars, ty, values@, values@.len(), with_struct)
        },
        Expression::ArrayLiteral { values } => expressions_built(
            ns,
            vars,
            values@,
            values@.len(),
            b,
        ),
        Expression::ConstArrayLiteral { values } => expressions_built(
            ns,
            vars,
            values@,
            values@.len(),
            b,
        ),
        Expression::Arithmetic { loc, ty, op, left, right } => {
            let shown = hovered(b, loc, Some(arithmetic_text(op, ty.text@)));
            expression_built(ns, vars, *right, expression_built(ns, vars, *left, shown))
        },
        Expression::Binary { op, left, right } => expression_built(
            ns,
            vars,
            *right,
            expression_built(ns, vars, *left, b),
        ),
        Expression::Variable { loc, ty, var_no } => referred(
            hovered(b, loc, Some(variable_text(vars, ty, var_no))),
            loc,
            DefinitionType::Variable(var_no),
        ),
        Expression::ConstantVariable { loc, ty, contract_no, var_no } => referred(
            hovered(b, loc, constant_use(ns, loc, ty, contract_no, var_no)),
            loc,
            DefinitionType::NonLocalVariable(contract_no, var_no),
        ),
        Expression::StorageVariable { loc, ty, contract_no, var_no } => referred(
            hovered(b, loc, storage_use(ns, ty, contract_no, var_no)),
            loc,
            DefinitionType::NonLocalVariable(Some(contract_no), var_no),
        ),
        Expression::Unary { op, expr } => expression_built(ns, vars, *expr, b),
        Expression::ConditionalOperator { cond, true_option, false_option } => {
            let with_cond = expression_built(ns, vars, *cond, b);
            let with_true = expression_built(ns, vars, *true_option, with_cond);
            expression_built(ns, vars, *false_option, with_true)
        },
        Expression::Subscript { array, index } => expression_built(
            ns,
            vars,
            *index,
            expression_built(ns, vars, *array, b),
        ),
        Expression::StructMember { loc, ty, expr, expr_ty, field } => {
            let inner = expression_built(ns, vars, *expr, b);
            let shown = hovered(inner, loc, Some(code_block(ty.text@)));
            match dereferenced(expr_ty).shape {
                TypeShape::Struct(StructType::UserDefined(_)) => referred(
                    shown,
                    loc,
                    DefinitionType::Field(field_owner(dereferenced(expr_ty)), field),
                ),
                _ => shown,
            }
        },
        Expression::AllocDynamicBytes { loc, ty, length } => expression_built(
            ns,
            vars,
            *length,
            type_referred(b, loc, ty),
        ),
        Expression::StorageArrayLength { array } => expression_built(ns, vars, *array, b),
        Expression::StringCompare { left, right } => string_built(
            ns,
            vars,
            right,
            string_built(ns, vars, left, b),
        ),
        Expression::InternalFunction { id, function_no } => match last_loc(id@) {
            None => None,
            Some(loc) => referred(
                hovered(b, loc, function_use(ns, function_no)),
                loc,
                DefinitionType::Function(function_no),
            ),
        },
        Expression::InternalFunctionCall { function, args } => {
            let called = if *function is InternalFunction {
                expression_built(ns, vars, *function, b)
            } else {
                b
            };
            expressions_built(ns, vars, args@, args@.len(), called)
        },
        Expression::ExternalFunction { loc, address, function_no } => expression_built(
            ns,
            vars,
            *address,
            referred(
                hovered(b, loc, function_use(ns, function_no)),
                loc,
                DefinitionType::Function(function_no),
            ),
        ),
        Expression::ExternalFunctionCall { function, args, call_args } => {
            let called = if *function is ExternalFunction {
                expression_built(ns, vars, *function, b)
            } else {
                b
            };
            let with_args = expressions_built(ns, vars, args@, args@.len(), called);
            let with_value = optional_built(ns, vars, call_args.value, with_args);
            optional_built(ns, vars, call_args.gas, with_value)
        },
        Expression::ExternalFunctionCallRaw { address, args, call_args } => {
            let with_args = expression_built(ns, vars, *args, b);
            let with_address = expression_built(ns, vars, *address, with_args);
            let with_value = optional_built(ns, vars, call_args.value, with_address);
            optional_built(ns, vars, call_args.gas, with_value)
        },
        Expression::Constructor { args, call_args } => {
            let with_gas = optional_built(ns, vars, call_args.gas, b);
            let with_args = expressions_built(ns, vars, args@, args@.len(), with_gas);
            let with_value = optional_built(ns, vars, call_args.value, with_args);
            let with_salt = optional_built(ns, vars, call_args.salt, with_value);
            optional_built(ns, vars, call_args.seeds, with_salt)
        },
        Expression::Builtin { loc, prototype, args } => expressions_built(
            ns,
            vars,
            args@,
            args@.len(),
            hovered(b, loc, Some(builtin_text(prototype))),
        ),
        Expression::FormatString { format } => expressions_built(
            ns,
            vars,
            format@,
            format@.len(),
            b,
        ),
        Expression::List { list } => expressions_built(ns, vars, list@, list@.len(), b),
        Expression::Other => b,
    }
}

/// What is collected from the first `n` expressions, one after the other.
pub open spec fn expressions_built(
    ns: Namespace,
    vars: Seq<(usize, LocalVariable)>,
    es: Seq<Expression>,
    n: nat,
    b: Option<Built>,
) -> Option<Built>
    decreases es, n,
{
    if n == 0 || n > es.len() {
        b
    } else {
        expression_built(
            ns,
            vars,
            es[n - 1],
            expressions_built(ns, vars, es, (n - 1) as nat, b),
        )
    }
}

/// What is collected from the first `n` fields of a struct literal: the value of each, and its
/// name, where it is given.
pub open spec fn fields_built(
    ns: Namespace,
    vars: Seq<(usize, LocalVariable)>,
    ty: SolidityType,
    values: Seq<(Option<Loc>, Expression)>,
    n: nat,
    b: Option<Built>,
) -> Option<Built>
    decreases values, n,
{
    if n == 0 || n > values.len() {
        b
    } else {
        let before = fields_built(ns, vars, ty, values, (n - 1) as nat, b);
        let with_value = expression_built(ns, vars, values[n - 1].1, before);
        match values[n - 1].0 {
            Some(loc) => referred(
                with_value,
                loc,
                DefinitionType::Field(field_owner(ty), (n - 1) as usize),
            ),
            None => with_value,
        }
    }
}

pub open spec fn optional_built(
    ns: Namespace,
    vars: Seq<(usize, LocalVariable)>,
    o: Option<Box<Expression>>,
    b: Option<Built>,
) -> Option<Built>
    decreases o, 0nat,
{
    match o {
        Some(e) => expression_built(ns, vars, *e, b),
        None => b,
    }
}

pub open spec fn string_built(
    ns: Namespace,
    vars: Seq<(usize, LocalVariable)>,
    s: StringLocation,
    b: Option<Built>,
) -> Option<Built>
    decreases s, 0nat,
{
    match s {
        StringLocation::RunTime(e) => expression_built(ns, vars, *e, b),
        StringLocation::CompileTime => b,
    }
}

pub open spec fn hover_models(hovers: Seq<(usize, HoverEntry)>) -> Seq<HoverModel> {
    hovers.map_values(
        |h: (usize, HoverEntry)|
            HoverModel { file_no: h.0, start: h.1.start, stop: h.1.stop, val: h.1.val@ },
    )
}

pub open spec fn reference_models(references: Seq<(usize, ReferenceEntry)>) -> Seq<ReferenceModel> {
    references.map_values(
        |r: (usize, ReferenceEntry)|
            ReferenceModel { file_no: r.0, start: r.1.start, stop: r.1.stop, val: r.1.val@ },
    )
}

pub open spec fn named_models(names: Seq<NamedObject>) -> NamesModel {
    names.map_values(|n: NamedObject| (n.0@, optional_definition(n.1)))
}

pub open spec fn scope_models(scopes: Seq<(usize, ScopeEntry)>) -> Seq<ScopeModel> {
    scopes.map_values(
        |s: (usize, ScopeEntry)|
            ScopeModel {
                file_no: s.0,
                start: s.1.start,
                stop: s.1.stop,
                val: named_models(s.1.val@),
            },
    )
}

pub open spec fn top_level_models(objects: Seq<(usize, NamedObject)>) -> Seq<
    (usize, (Seq<char>, Option<Definition>)),
> {
    objects.map_values(|o: (usize, NamedObject)| (o.0, (o.1.0@, optional_definition(o.1.1))))
}

pub open spec fn type_models(types: Seq<(Definition, DefinitionIndex)>) -> Seq<
    (Definition, Definition),
> {
    types.map_values(|t: (Definition, DefinitionIndex)| (t.0, t.1@))
}

pub open spec fn list_models(lists: Seq<(Definition, Vec<DefinitionIndex>)>) -> Seq<
    (Definition, Seq<Definition>),
> {
    lists.map_values(
        |l: (Definition, Vec<DefinitionIndex>)| (l.0, definition_models(l.1@)),
    )
}

pub open spec fn property_models(properties: Seq<(Definition, Vec<NamedObject>)>) -> Seq<
    (Definition, NamesModel),
> {
    properties.map_values(|p: (Definition, Vec<NamedObject>)| (p.0, named_models(p.1@)))
}

/// Traverses a namespace and collects what is looked up in it.
pub struct Builder<'a> {
    // `usize` is the file number that the entry belongs to
    hovers: Vec<(usize, HoverEntry)>,
    references: Vec<(usize, ReferenceEntry)>,
    scopes: Vec<(usize, ScopeEntry)>,
    top_level_code_objects: Vec<(usize, NamedObject)>,
    definitions: Table<Range>,
    types: Table<DefinitionIndex>,
    declarations: Table<Vec<DefinitionIndex>>,
    implementations: Table<Vec<DefinitionIndex>>,
    properties: Table<Vec<NamedObject>>,
    ns: &'a Namespace,
    // whether everything that was needed has been found so far
    complete: bool,
}

impl<'a> Builder<'a> {
    /// The namespace that is traversed.
    pub closed spec fn namespace(self) -> Namespace {
        *self.ns
    }

    /// What has been collected so far, unless something was missing.
    #[verifier::opaque]
    pub closed spec fn built(self) -> Option<Built> {
        if self.complete {
            Some(
                Built {
                    hovers: hover_models(self.hovers@),
                    references: reference_models(self.references@),
                    scopes: scope_models(self.scopes@),
                    top_level: top_level_models(self.top_level_code_objects@),
                    definitions: self.definitions.pairs(),
                    types: type_models(self.types.pairs()),
                    declarations: list_models(self.declarations.pairs()),
                    implementations: list_models(self.implementations.pairs()),
                    properties: property_models(self.properties.pairs()),
                },
            )
        } else {
            None
        }
    }

    /// A builder that has collected nothing.
    pub fn new(ns: &'a Namespace) -> (r: Builder<'a>)
        ensures
            r.namespace() == *ns,
            r.built() == Some(nothing_built()),
    {
        proof {
            reveal(Builder::built);
        }
        let r = Builder {
            hovers: Vec::new(),
            references: Vec::new(),
            scopes: Vec::new(),
            top_level_code_objects: Vec::new(),
            definitions: Table::new(),
            types: Table::new(),
            declarations: Table::new(),
            implementations: Table::new(),
            properties: Table::new(),
            ns,
            complete: true,
        };
        let ghost built = r.built()->Some_0;
        assert(built.hovers =~= nothing_built().hovers);
        assert(built.references =~= nothing_built().references);
        assert(built.scopes =~= nothing_built().scopes);
        assert(built.top_level =~= nothing_built().top_level);
        assert(built.definitions =~= nothing_built().definitions);
        assert(built.types =~= nothing_built().types);
        assert(built.declarations =~= nothing_built().declarations);
        assert(built.implementations =~= nothing_built().implementations);
        assert(built.properties =~= nothing_built().properties);
        r
    }

    pub(crate) fn ns(&self) -> (r: &'a Namespace)
        ensures
            *r == self.namespace(),
    {
        self.ns
    }

    pub(crate) fn fail(&mut self)
        ensures
            final(self).built() is None,
            final(self).namespace() == old(self).namespace(),
    {
        proof {
            reveal(Builder::built);
        }
        self.complete = false;
    }

    pub(crate) fn hover(&mut self, loc: &Loc, text: String)
        ensures
            final(self).built() == hovered(old(self).built(), *loc, Some(text@)),
            final(self).namespace() == old(self).namespace(),
    {
        proof {
            reveal(Builder::built);
            reveal(hovered);
        }
        match loc.span() {
            Some((file_no, start, stop)) => {
                let ghost before = hover_models(self.hovers@);
                let ghost val = text@;
                self.hovers.push((file_no, HoverEntry { start, stop, val: text }));
                assert(hover_models(self.hovers@) =~= before.push(
                    HoverModel { file_no, start, stop, val },
                ));
            },
            None => {
                self.complete = false;
            },
        }
    }

    pub(crate) fn hover_some(&mut self, loc: &Loc, text: Option<String>)
        ensures
            final(self).built() == hovered(
                old(self).built(),
                *loc,
                match text {
                    Some(t) => Some(t@),
                    None => None,
                },
            ),
            final(self).namespace() == old(self).namespace(),
    {
        proof {
            reveal(hovered);
        }
        match text {
            Some(text) => self.hover(loc, text),
            None => self.fail(),
        }
    }

    pub(crate) fn refer(&mut self, loc: &Loc, def: DefinitionType)
        ensures
            final(self).built() == referred(old(self).built(), *loc, def),
            final(self).namespace() == old(self).namespace(),
    {
        proof {
            reveal(Builder::built);
            reveal(referred);
        }
        match loc.span() {
            Some((file_no, start, stop)) => {
                let ghost before = reference_models(self.references@);
                let val = DefinitionIndex::from(def);
                self.references.push((file_no, ReferenceEntry { start, stop, val }));
                assert(reference_models(self.references@) =~= before.push(
                    ReferenceModel { file_no, start, stop, val: unplaced(def) },
                ));
            },
            None => {
                self.complete = false;
            },
        }
    }

    pub(crate) fn refer_type(&mut self, loc: &Loc, ty: &SolidityType)
        ensures
            final(self).built() == type_referred(old(self).built(), *loc, *ty),
            final(self).namespace() == old(self).namespace(),
    {
        if let Some(def) = get_type_definition(ty) {
            self.refer(loc, def);
        }
    }

    pub(crate) fn hover_in(&mut self, file_loc: &Loc, loc: &Loc, text: String)
        ensures
            final(self).built() == hovered_in(old(self).built(), *file_loc, *loc, text@),
            final(self).namespace() == old(self).namespace(),
    {
        proof {
            reveal(Builder::built);
            reveal(hovered_in);
        }
        match (file_loc, loc.span()) {
            (Loc::File(file_no, _, _), Some((_, start, stop))) => {
                let ghost before = hover_models(self.hovers@);
                let ghost val = text@;
                self.hovers.push((*file_no, HoverEntry { start, stop, val: text }));
                assert(hover_models(self.hovers@) =~= before.push(
                    HoverModel { file_no: *file_no, start, stop, val },
                ));
            },
            _ => {
                self.complete = false;
            },
        }
    }

    pub(crate) fn hover_start(&mut self, loc: &Loc, len: usize, text: String)
        ensures
            final(self).built() == hovered_start(old(self).built(), *loc, len as nat, text@),
            final(self).namespace() == old(self).namespace(),
    {
        proof {
            reveal(Builder::built);
            reveal(hovered_start);
        }
        match *loc {
            Loc::File(file_no, start, _) => {
                if len <= usize::MAX - start {
                    let ghost before = hover_models(self.hovers@);
                    let ghost val = text@;
                    let stop: usize = start + len;
                    self.hovers.push((file_no, HoverEntry { start, stop, val: text }));
                    assert(hover_models(self.hovers@) =~= before.push(
                        HoverModel { file_no, start, stop, val },
                    ));
                } else {
                    self.complete = false;
                }
            },
            _ => {
                self.complete = false;
            },
        }
    }

    /// The file in which a location lies.
    pub(crate) fn file_of(&self, loc: &Loc) -> (r: Option<&'a SourceFile>)
        ensures
            match file_at(self.namespace(), *loc) {
                Some(file) => r == Some(&file),
                None => r is None,
            },
    {
        match *loc {
            Loc::File(file_no, _, _) => {
                if file_no < self.ns.files.len() {
                    Some(&self.ns.files[file_no])
                } else {
                    None
                }
            },
            _ => None,
        }
    }

    pub(crate) fn define_in(&mut self, file_loc: &Loc, loc: &Loc, def: DefinitionType)
        ensures
            final(self).built() == defined_in(
                old(self).namespace(),
                old(self).built(),
                *file_loc,
                *loc,
                def,
            ),
            final(self).namespace() == old(self).namespace(),
    {
        proof {
            reveal(Builder::built);
            reveal(defined_in);
        }
        match (self.file_of(file_loc), *loc) {
            (Some(file), Loc::File(_, start, end)) => {
                let index = DefinitionIndex::at(file.path.as_str(), def);
                let range = file.get_range(start, end);
                self.definitions.insert(index, range);
            },
            _ => {
                self.complete = false;
            },
        }
    }

    pub(crate) fn define(&mut self, loc: &Loc, def: DefinitionType)
        ensures
            final(self).built() == defined(
                old(self).namespace(),
                old(self).built(),
                *loc,
                def,
            ),
            final(self).namespace() == old(self).namespace(),
    {
        self.define_in(loc, loc, def);
    }

    pub(crate) fn set_type(&mut self, loc: &Loc, def: DefinitionType, ty: Option<DefinitionType>)
        ensures
            final(self).built() == typed(
                old(self).namespace(),
                old(self).built(),
                *loc,
                def,
                ty,
            ),
            final(self).namespace() == old(self).namespace(),
    {
        proof {
            reveal(Builder::built);
            reveal(typed);
        }
        match self.file_of(loc) {
            Some(file) => {
                if let Some(t) = ty {
                    let index = DefinitionIndex::at(file.path.as_str(), def);
                    let value = DefinitionIndex::from(t);
                    proof {
                        lemma_mapped_put(
                            self.types.pairs(),
                            |v: DefinitionIndex| v@,
                            index@,
                            value,
                        );
                        lemma_type_models(self.types.pairs());
                        lemma_type_models(with_pair(self.types.pairs(), index@, value));
                    }
                    self.types.insert(index, value);
                }
            },
            None => {
                self.complete = false;
            },
        }
    }

    pub(crate) fn set_members(&mut self, file_loc: &Loc, def: DefinitionType, names: Vec<NamedObject>)
        ensures
            final(self).built() == has_members(
                old(self).namespace(),
                old(self).built(),
                *file_loc,
                def,
                named_models(names@),
            ),
            final(self).namespace() == old(self).namespace(),
    {
        proof {
            reveal(Builder::built);
            reveal(has_members);
        }
        match self.file_of(file_loc) {
            Some(file) => {
                let index = DefinitionIndex::at(file.path.as_str(), def);
                proof {
                    lemma_mapped_put(
                        self.properties.pairs(),
                        |v: Vec<NamedObject>| named_models(v@),
                        index@,
                        names,
                    );
                    lemma_property_models(self.properties.pairs());
                    lemma_property_models(with_pair(self.properties.pairs(), index@, names));
                }
                self.properties.insert(index, names);
            },
            None => {
                self.complete = false;
            },
        }
    }

    pub(crate) fn set_implementations(
        &mut self,
        file_loc: &Loc,
        def: DefinitionType,
        functions: Vec<DefinitionIndex>,
    )
        ensures
            final(self).built() == implements(
                old(self).namespace(),
                old(self).built(),
                *file_loc,
                def,
                definition_models(functions@),
            ),
            final(self).namespace() == old(self).namespace(),
    {
        proof {
            reveal(Builder::built);
            reveal(implements);
        }
        match self.file_of(file_loc) {
            Some(file) => {
                let index = DefinitionIndex::at(file.path.as_str(), def);
                proof {
                    lemma_mapped_put(
                        self.implementations.pairs(),
                        |v: Vec<DefinitionIndex>| definition_models(v@),
                        index@,
                        functions,
                    );
                    lemma_list_models(self.implementations.pairs());
                    lemma_list_models(
                        with_pair(self.implementations.pairs(), index@, functions),
                    );
                }
                self.implementations.insert(index, functions);
            },
            None => {
                self.complete = false;
            },
        }
    }

    pub(crate) fn set_declarations(
        &mut self,
        file_loc: &Loc,
        def: DefinitionType,
        functions: Vec<DefinitionIndex>,
    )
        ensures
            final(self).built() == overrides(
                old(self).namespace(),
                old(self).built(),
                *file_loc,
                def,
                definition_models(functions@),
            ),
            final(self).namespace() == old(self).namespace(),
    {
        proof {
            reveal(Builder::built);
            reveal(overrides);
        }
        match self.file_of(file_loc) {
            Some(file) => {
                let index = DefinitionIndex::at(file.path.as_str(), def);
                proof {
                    lemma_mapped_put(
                        self.declarations.pairs(),
                        |v: Vec<DefinitionIndex>| definition_models(v@),
                        index@,
                        functions,
                    );
                    lemma_list_models(self.declarations.pairs());
                    lemma_list_models(with_pair(self.declarations.pairs(), index@, functions));
                }
                self.declarations.insert(index, functions);
            },
            None => {
                self.complete = false;
            },
        }
    }

    pub(crate) fn add_scope(&mut self, file_loc: &Loc, loc: &Loc, names: Vec<NamedObject>)
        ensures
            final(self).built() == scoped(
                old(self).built(),
                *file_loc,
                *loc,
                named_models(names@),
            ),
            final(self).namespace() == old(self).namespace(),
    {
        proof {
            reveal(Builder::built);
            reveal(scoped);
        }
        match (file_loc, loc.span()) {
            (Loc::File(file_no, _, _), Some((_, start, stop))) => {
                let ghost before = scope_models(self.scopes@);
                let ghost val = named_models(names@);
                self.scopes.push((*file_no, ScopeEntry { start, stop, val: names }));
                assert(scope_models(self.scopes@) =~= before.push(
                    ScopeModel { file_no: *file_no, start, stop, val },
                ));
            },
            _ => {
                self.complete = false;
            },
        }
    }

    pub(crate) fn add_top_level(
        &mut self,
        file_loc: &Loc,
        name: String,
        object: Option<DefinitionIndex>,
    )
        ensures
            final(self).built() == at_top_level(
                old(self).built(),
                *file_loc,
                name@,
                optional_definition(object),
            ),
            final(self).namespace() == old(self).namespace(),
    {
        proof {
            reveal(Builder::built);
            reveal(at_top_level);
        }
        match *file_loc {
            Loc::File(file_no, _, _) => {
                let ghost before = top_level_models(self.top_level_code_objects@);
                let ghost added = (file_no, (name@, optional_definition(object)));
                self.top_level_code_objects.push((file_no, (name, object)));
                assert(top_level_models(self.top_level_code_objects@) =~= before.push(added));
            },
            _ => {
                self.complete = false;
            },
        }
    }

    pub(crate) fn define_variable(&mut self, param: &Parameter, var_no: usize)
        ensures
            final(self).built() == variable_defined(
                old(self).namespace(),
                old(self).built(),
                *param,
                var_no,
            ),
            final(self).namespace() == old(self).namespace(),
    {
        if let Some(id) = &param.id {
            self.define(&id.loc, DefinitionType::Variable(var_no));
            self.set_type(
                &id.loc,
                DefinitionType::Variable(var_no),
                get_type_definition(&param.ty),
            );
        }
    }

    pub(crate) fn refer_parameter_type(&mut self, param: &Parameter)
        ensures
            final(self).built() == parameter_type_referred(old(self).built(), *param),
            final(self).namespace() == old(self).namespace(),
    {
        if let Some(loc) = &param.ty_loc {
            self.refer_type(loc, &param.ty);
        }
    }

    fn use_function(&mut self, loc: &Loc, function_no: usize)
        ensures
            final(self).built() == referred(
                hovered(
                    old(self).built(),
                    *loc,
                    function_use(old(self).namespace(), function_no),
                ),
                *loc,
                DefinitionType::Function(function_no),
            ),
            final(self).namespace() == old(self).namespace(),
    {
        proof {
            reveal(hovered);
            reveal(referred);
        }
        if function_no < self.ns.functions.len() {
            let text = render_function(self.ns, &self.ns.functions[function_no]);
            self.hover_some(loc, text);
            self.refer(loc, DefinitionType::Function(function_no));
        } else {
            self.fail();
        }
    }

    fn use_constant(
        &mut self,
        loc: &Loc,
        ty: &SolidityType,
        contract_no: Option<usize>,
        var_no: usize,
    )
        ensures
            final(self).built() == hovered(
                old(self).built(),
                *loc,
                constant_use(old(self).namespace(), *loc, *ty, contract_no, var_no),
            ),
            final(self).namespace() == old(self).namespace(),
    {
        proof {
            reveal(hovered);
        }
        let ns: &Namespace = self.ns;
        let name: &String = match contract_no {
            Some(n) => {
                if n < ns.contracts.len() && var_no < ns.contracts[n].variables.len() {
                    &ns.contracts[n].variables[var_no].name
                } else {
                    self.fail();
                    return ;
                }
            },
            None => {
                if var_no < ns.constants.len() {
                    &ns.constants[var_no].name
                } else {
                    self.fail();
                    return ;
                }
            },
        };
        let contract: String = match render_contract_prefix(ns, contract_no) {
            Some(text) => text,
            None => {
                self.fail();
                return ;
            },
        };
        let mut val = ty.text.clone();
        val.append(" constant ");
        val.append(contract.as_str());
        val.append(name.as_str());
        let constant = constant_suffix_text(ns, loc);
        val.append(constant.as_str());
        let block = make_code_block(val.as_str());
        self.hover(loc, block);
    }

    // Collects from an expression and from what it is made of.
    pub(crate) fn expression(&mut self, expr: &Expression, vars: &Vec<(usize, LocalVariable)>)
        ensures
            final(self).built() == expression_built(
                old(self).namespace(),
                vars@,
                *expr,
                old(self).built(),
            ),
            final(self).namespace() == old(self).namespace(),
        decreases expr, 1nat,
    {
        match expr {
            Expression::BoolLiteral { .. }
            | Expression::BytesLiteral { .. }
            | Expression::NumberLiteral { .. }
            | Expression::StructLiteral { .. } => self.literal(expr, vars),
            Expression::Variable { .. }
            | Expression::ConstantVariable { .. }
            | Expression::StorageVariable { .. } => self.variable(expr, vars),
            Expression::ArrayLiteral { values } => self.expressions(values, vars),
            Expression::ConstArrayLiteral { values } => self.expressions(values, vars),
            Expression::Arithmetic { loc, ty, op, left, right } => {
                self.hover(loc, render_arithmetic(*op, ty.text.as_str()));
                self.expression(left, vars);
                self.expression(right, vars);
            },
            Expression::Binary { op: _, left, right } => {
                self.expression(left, vars);
                self.expression(right, vars);
            },
            Expression::Unary { op: _, expr } => self.expression(expr, vars),
            Expression::ConditionalOperator { cond, true_option, false_option } => {
                self.expression(cond, vars);
                self.expression(true_option, vars);
                self.expression(false_option, vars);
            },
            Expression::Subscript { array, index } => {
                self.expression(array, vars);
                self.expression(index, vars);
            },
            Expression::StructMember { loc, ty, expr, expr_ty, field } => {
                self.expression(expr, vars);
                self.hover(loc, make_code_block(ty.text.as_str()));
                let t = expr_ty.deref_any();
                if let TypeShape::Struct(StructType::UserDefined(_)) = &t.shape {
                    self.refer(loc, DefinitionType::Field(t.field_owner(), *field));
                }
            },
            Expression::AllocDynamicBytes { loc, ty, length } => {
                self.refer_type(loc, ty);
                self.expression(length, vars);
            },
            Expression::StorageArrayLength { array } => self.expression(array, vars),
            Expression::StringCompare { left, right } => {
                self.string(left, vars);
                self.string(right, vars);
            },
            Expression::InternalFunction { .. }
            | Expression::InternalFunctionCall { .. }
            | Expression::ExternalFunction { .. }
            | Expression::ExternalFunctionCall { .. }
            | Expression::ExternalFunctionCallRaw { .. }
            | Expression::Constructor { .. }
            | Expression::Builtin { .. } => self.call(expr, vars),
            Expression::FormatString { format } => self.expressions(format, vars),
            Expression::List { list } => self.expressions(list, vars),
            Expression::Other => {},
        }
    }

    // Collects from a literal.
    fn literal(&mut self, expr: &Expression, vars: &Vec<(usize, LocalVariable)>)
        requires
            is_literal(*expr),
        ensures
            final(self).built() == expression_built(
                old(self).namespace(),
                vars@,
                *expr,
                old(self).built(),
            ),
            final(self).namespace() == old(self).namespace(),
        decreases expr, 0nat,
    {
        match expr {
            Expression::BoolLiteral { loc } => {
                self.hover(loc, make_code_block("bool"));
            },
            Expression::BytesLiteral { loc, ty } => {
                let text = expanded_ty(self.ns, ty);
                self.hover_some(loc, text);
            },
            Expression::NumberLiteral { loc, ty, value } => {
                if let TypeShape::Enum(id) = &ty.shape {
                    match value {
                        Some(v) => self.refer(loc, DefinitionType::Variant(*id, *v as usize)),
                        None => self.fail(),
                    }
                }
                self.hover(loc, make_code_block(ty.text.as_str()));
            },
            Expression::StructLiteral { id, ty, values } => {
                if let TypeShape::Struct(StructType::UserDefined(n)) = &ty.shape {
                    if id.len() > 0 {
                        let loc: Loc = id[id.len() - 1];
                        self.refer(&loc, DefinitionType::Struct(StructType::UserDefined(*n)));
                    } else {
                        self.fail();
                    }
                }
                self.fields(values, ty, vars);
            },
            _ => {},
        }
    }

    // Collects from a use of a variable.
    fn variable(&mut self, expr: &Expression, vars: &Vec<(usize, LocalVariable)>)
        requires
            is_variable(*expr),
        ensures
            final(self).built() == expression_built(
                old(self).namespace(),
                vars@,
                *expr,
                old(self).built(),
            ),
            final(self).namespace() == old(self).namespace(),
    {
        match expr {
            Expression::Variable { loc, ty, var_no } => {
                let var = find_local(vars, *var_no);
                let mut val = ty.text.clone();
                val.append(" ");
                val.append(
                    match var {
                        Some(v) => v.name.as_str(),
                        None => "",
                    },
                );
                val.append(render_readonly(var));
                let block = make_code_block(val.as_str());
                self.hover(loc, block);
                self.refer(loc, DefinitionType::Variable(*var_no));
            },
            Expression::ConstantVariable { loc, ty, contract_no, var_no } => {
                self.use_constant(loc, ty, *contract_no, *var_no);
                self.refer(loc, DefinitionType::NonLocalVariable(*contract_no, *var_no));
            },
            Expression::StorageVariable { loc, ty, contract_no, var_no } => {
                let ns: &Namespace = self.ns;
                if *contract_no < ns.contracts.len() && *var_no
                    < ns.contracts[*contract_no].variables.len() {
                    let contract = &ns.contracts[*contract_no];
                    let mut val = ty.text.clone();
                    val.append(" ");
                    val.append(contract.id.name.as_str());
                    val.append(".");
                    val.append(contract.variables[*var_no].name.as_str());
                    let block = make_code_block(val.as_str());
                    self.hover(loc, block);
                } else {
                    self.hover_some(loc, None);
                }
                self.refer(loc, DefinitionType::NonLocalVariable(Some(*contract_no), *var_no));
            },
            _ => {},
        }
    }

    // Collects from a function or a call.
    fn call(&mut self, expr: &Expression, vars: &Vec<(usize, LocalVariable)>)
        requires
            is_call(*expr),
        ensures
            final(self).built() == expression_built(
                old(self).namespace(),
                vars@,
                *expr,
                old(self).built(),
            ),
            final(self).namespace() == old(self).namespace(),
        decreases expr, 0nat,
    {
        match expr {
            Expression::InternalFunction { id, function_no } => {
                if id.len() > 0 {
                    let loc: Loc = id[id.len() - 1];
                    self.use_function(&loc, *function_no);
                } else {
                    self.fail();
                }
            },
            Expression::InternalFunctionCall { function, args } => {
                if let Expression::InternalFunction { .. } = **function {
                    self.expression(function, vars);
                }
                self.expressions(args, vars);
            },
            Expression::ExternalFunction { loc, address, function_no } => {
                self.use_function(loc, *function_no);
                self.expression(address, vars);
            },
            Expression::ExternalFunctionCall { function, args, call_args } => {
                if let Expression::ExternalFunction { .. } = **function {
                    self.expression(function, vars);
                }
                self.expressions(args, vars);
                self.optional(&call_args.value, vars);
                self.optional(&call_args.gas, vars);
            },
            Expression::ExternalFunctionCallRaw { address, args, call_args } => {
                self.expression(args, vars);
                self.expression(address, vars);
                self.optional(&call_args.value, vars);
                self.optional(&call_args.gas, vars);
            },
            Expression::Constructor { args, call_args } => {
                self.optional(&call_args.gas, vars);
                self.expressions(args, vars);
                self.optional(&call_args.value, vars);
                self.optional(&call_args.salt, vars);
                self.optional(&call_args.seeds, vars);
            },
            Expression::Builtin { loc, prototype, args } => {
                self.hover(loc, render_builtin(prototype));
                self.expressions(args, vars);
            },
            _ => {},
        }
    }

    fn optional(&mut self, expr: &Option<Box<Expression>>, vars: &Vec<(usize, LocalVariable)>)
        ensures
            final(self).built() == optional_built(
                old(self).namespace(),
                vars@,
                *expr,
                old(self).built(),
            ),
            final(self).namespace() == old(self).namespace(),
        decreases expr, 2nat,
    {
        if let Some(e) = expr {
            self.expression(e, vars);
        }
    }

    fn string(&mut self, s: &StringLocation, vars: &Vec<(usize, LocalVariable)>)
        ensures
            final(self).built() == string_built(
                old(self).namespace(),
                vars@,
                *s,
                old(self).built(),
            ),
            final(self).namespace() == old(self).namespace(),
        decreases s, 1nat,
    {
        if let StringLocation::RunTime(e) = s {
            self.expression(e, vars);
        }
    }

    pub(crate) fn expressions(&mut self, exprs: &Vec<Expression>, vars: &Vec<(usize, LocalVariable)>)
        ensures
            final(self).built() == expressions_built(
                old(self).namespace(),
                vars@,
                exprs@,
                exprs@.len(),
                old(self).built(),
            ),
            final(self).namespace() == old(self).namespace(),
        decreases exprs, 1nat,
    {
        let mut i: usize = 0;
        while i < exprs.len()
            invariant
                i <= exprs@.len(),
                self.namespace() == old(self).namespace(),
                self.built() == expressions_built(
                    old(self).namespace(),
                    vars@,
                    exprs@,
                    i as nat,
                    old(self).built(),
                ),
                decreases_to!(exprs => exprs@),
            decreases exprs@.len() - i,
        {
            self.expression(&exprs[i], vars);
            i = i + 1;
        }
    }

    fn fields(
        &mut self,
        values: &Vec<(Option<Loc>, Expression)>,
        ty: &SolidityType,
        vars: &Vec<(usize, LocalVariable)>,
    )
        ensures
            final(self).built() == fields_built(
                old(self).namespace(),
                vars@,
                *ty,
                values@,
                values@.len(),
                old(self).built(),
            ),
            final(self).namespace() == old(self).namespace(),
        decreases values, 1nat,
    {
        let mut i: usize = 0;
        while i < values.len()
            invariant
                i <= values@.len(),
                self.namespace() == old(self).namespace(),
                self.built() == fields_built(
                    old(self).namespace(),
                    vars@,
                    *ty,
                    values@,
                    i as nat,
                    old(self).built(),
                ),
                decreases_to!(values => values@),
            decreases values@.len() - i,
        {
            self.expression(&values[i].1, vars);
            if let Some(loc) = &values[i].0 {
                self.refer(loc, DefinitionType::Field(ty.field_owner(), i));
            }
            i = i + 1;
        }
    }
}

/// The pairs with each value put through `f`.
pub open spec fn mapped<K, V, W>(pairs: Seq<(K, V)>, f: spec_fn(V) -> W) -> Seq<(K, W)> {
    pairs.map_values(|p: (K, V)| (p.0, f(p.1)))
}

/// Putting in a pair and putting all values through `f` can be done in either order.
pub proof fn lemma_mapped_put<K, V, W>(pairs: Seq<(K, V)>, f: spec_fn(V) -> W, key: K, value: V)
    ensures
        mapped(with_pair(pairs, key, value), f) == with_pair(mapped(pairs, f), key, f(value)),
{
    lemma_same_place(pairs, mapped(pairs, f), key, 0);
    lemma_key_place(pairs, key, 0);
    assert(mapped(with_pair(pairs, key, value), f) =~= with_pair(
        mapped(pairs, f),
        key,
        f(value),
    ));
}

pub proof fn lemma_type_models(pairs: Seq<(Definition, DefinitionIndex)>)
    ensures
        type_models(pairs) == mapped(pairs, |v: DefinitionIndex| v@),
{
    assert(type_models(pairs) =~= mapped(pairs, |v: DefinitionIndex| v@));
}

pub proof fn lemma_list_models(pairs: Seq<(Definition, Vec<DefinitionIndex>)>)
    ensures
        list_models(pairs) == mapped(pairs, |v: Vec<DefinitionIndex>| definition_models(v@)),
{
    assert(list_models(pairs) =~= mapped(
        pairs,
        |v: Vec<DefinitionIndex>| definition_models(v@),
    ));
}

pub proof fn lemma_property_models(pairs: Seq<(Definition, Vec<NamedObject>)>)
    ensures
        property_models(pairs) == mapped(pairs, |v: Vec<NamedObject>| named_models(v@)),
{
    assert(property_models(pairs) =~= mapped(pairs, |v: Vec<NamedObject>| named_models(v@)));
}

/// Pairs with the same keys have a key at the same place.
pub proof fn lemma_same_place<K, V, W>(a: Seq<(K, V)>, b: Seq<(K, W)>, key: K, i: nat)
    requires
        a.len() == b.len(),
        forall|k: int| 0 <= k < a.len() ==> (#[trigger] a[k]).0 == b[k].0,
    ensures
        key_place(a, key, i) == key_place(b, key, i),
    decreases (if i < a.len() { a.len() - i } else { 0 }),
{
    if i < a.len() {
        assert(a[i as int].0 == b[i as int].0);
        lemma_same_place(a, b, key, i + 1);
    }
}

/// Whether the expression is a literal that is shown.
pub open spec fn is_literal(e: Expression) -> bool {
    ||| e is BoolLiteral
    ||| e is BytesLiteral
    ||| e is NumberLiteral
    ||| e is StructLiteral
}

/// Whether the expression is a use of a variable.
pub open spec fn is_variable(e: Expression) -> bool {
    ||| e is Variable
    ||| e is ConstantVariable
    ||| e is StorageVariable
}

/// Whether the expression is a function or a call.
pub open spec fn is_call(e: Expression) -> bool {
    ||| e is InternalFunction
    ||| e is InternalFunctionCall
    ||| e is ExternalFunction
    ||| e is ExternalFunctionCall
    ||| e is ExternalFunctionCallRaw
    ||| e is Constructor
    ||| e is Builtin
}

/// What a builder has collected.
pub struct Parts {
    pub hovers: Vec<(usize, HoverEntry)>,
    pub references: Vec<(usize, ReferenceEntry)>,
    pub scopes: Vec<(usize, ScopeEntry)>,
    pub top_level_code_objects: Vec<(usize, NamedObject)>,
    pub definitions: Table<Range>,
    pub types: Table<DefinitionIndex>,
    pub declarations: Table<Vec<DefinitionIndex>>,
    pub implementations: Table<Vec<DefinitionIndex>>,
    pub properties: Table<Vec<NamedObject>>,
}

impl Parts {
    pub open spec fn model(self) -> Built {
        Built {
            hovers: hover_models(self.hovers@),
            references: reference_models(self.references@),
            scopes: scope_models(self.scopes@),
            top_level: top_level_models(self.top_level_code_objects@),
            definitions: self.definitions.pairs(),
            types: type_models(self.types.pairs()),
            declarations: list_models(self.declarations.pairs()),
            implementations: list_models(self.implementations.pairs()),
            properties: property_models(self.properties.pairs()),
        }
    }
}

impl<'a> Builder<'a> {
    pub(crate) fn into_parts(self) -> (r: Option<Parts>)
        ensures
            match self.built() {
                Some(b) => r is Some && r->Some_0.model() == b,
                None => r is None,
            },
    {
        proof {
            reveal(Builder::built);
        }
        if self.complete {
            Some(
                Parts {
                    hovers: self.hovers,
                    references: self.references,
                    scopes: self.scopes,
                    top_level_code_objects: self.top_level_code_objects,
                    definitions: self.definitions,
                    types: self.types,
                    declarations: self.declarations,
                    implementations: self.implementations,
                    properties: self.properties,
                },
            )
        } else {
            None
        }
    }
}

/// Nothing collected.
pub open spec fn nothing_built() -> Built {
    Built {
        hovers: Seq::empty(),
        references: Seq::empty(),
        scopes: Seq::empty(),
        top_level: Seq::empty(),
        definitions: Seq::empty(),
        types: Seq::empty(),
        declarations: Seq::empty(),
        implementations: Seq::empty(),
        properties: Seq::empty(),
    }
}

} // verus!

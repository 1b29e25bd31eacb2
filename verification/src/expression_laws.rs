//! What is collected from the expressions of a function.

use vstd::prelude::*;

use crate::builder::{
    expression_built, expressions_built, fields_built, hovered, optional_built, referred,
    string_built, type_referred, Built, HoverModel, ReferenceModel,
};
use crate::definitions::{unplaced, value_at, Definition, DefinitionType, FieldOwner, StructType};
use crate::hover_text::{
    arithmetic_text, builtin_text, code_block, constant_suffix, expanded, function_text,
    local_variable,
};
use crate::namespace::{
    dereferenced, span, type_definition, Expression, Loc, LocalVariable, Namespace, SolidityType,
    StringLocation, TypeShape,
};

verus! {

/// The code objects of which a step of the collection may say where they are defined, and of which
/// type they are.
pub enum Touched {
    Nothing,
    /// One code object alone.
    Itself(DefinitionType),
    /// The variables of functions.
    Locals,
    /// A function with its variables.
    Function(usize),
    /// An enum with its values.
    Enum(usize),
    /// A struct with its fields.
    Struct(usize),
    /// An event with its fields.
    Event(usize),
    /// A variable of a contract, or a constant outside of all contracts.
    Variable(Option<usize>, usize),
    /// The variables of a contract, or the constants outside of all contracts.
    Variables(Option<usize>),
    /// A contract with its variables.
    Contract(usize),
    /// All enums with their values.
    Enums,
    /// All structs with their fields.
    Structs,
    /// All functions with their variables.
    Functions,
    /// All contracts with their variables.
    Contracts,
    /// All events with their fields.
    Events,
    /// Nothing of where a code object is, only what it lists.
    Lists(DefinitionType),
}

pub open spec fn touches(t: Touched, def: DefinitionType) -> bool {
    match t {
        Touched::Nothing => false,
        Touched::Itself(d) => def == d,
        Touched::Locals => def is Variable,
        Touched::Function(i) => def is Variable || def == DefinitionType::Function(i),
        Touched::Enum(i) => def == DefinitionType::Enum(i) || (def is Variant && def->Variant_0
            == i),
        Touched::Struct(i) => def == DefinitionType::Struct(StructType::UserDefined(i)) || (
        def is Field && def->Field_0 == FieldOwner::Struct(StructType::UserDefined(i))),
        Touched::Event(i) => def == DefinitionType::Event(i) || (def is Field && def->Field_0
            == FieldOwner::Event(i)),
        Touched::Variable(c, i) => def == DefinitionType::NonLocalVariable(c, i),
        Touched::Variables(c) => def is NonLocalVariable && def->NonLocalVariable_0 == c,
        Touched::Contract(i) => def == DefinitionType::Contract(i) || (def is NonLocalVariable
            && def->NonLocalVariable_0 == Some(i)),
        Touched::Enums => def is Enum || def is Variant,
        Touched::Structs => def is Struct || (def is Field && def->Field_0 is Struct),
        Touched::Functions => def is Variable || def is Function,
        Touched::Contracts => def is Contract || (def is NonLocalVariable
            && def->NonLocalVariable_0 is Some),
        Touched::Events => def is Event || (def is Field && def->Field_0 is Event),
        Touched::Lists(_) => false,
    }
}

/// Whether a step of the collection may say which members a code object has, and which functions it
/// implements.
pub open spec fn lists(t: Touched, def: DefinitionType) -> bool {
    match t {
        Touched::Lists(d) => def == d,
        _ => touches(t, def),
    }
}

/// Whether `b` goes on from `a`: what was collected stays, and of code objects that are not touched
/// nothing new is known. Something can only have been collected where that was so before.
#[verifier::opaque]
pub open spec fn goes_on(a: Option<Built>, b: Option<Built>, t: Touched) -> bool {
    b is Some ==> {
        let before = a->Some_0;
        let after = b->Some_0;
        &&& a is Some
        &&& before.hovers.is_prefix_of(after.hovers)
        &&& before.references.is_prefix_of(after.references)
        &&& before.scopes.is_prefix_of(after.scopes)
        &&& before.top_level.is_prefix_of(after.top_level)
        &&& forall|key: Definition|
            !touches(t, key.def) ==> #[trigger] value_at(after.definitions, key) == value_at(
                before.definitions,
                key,
            ) && value_at(after.types, key) == value_at(before.types, key)
        &&& forall|key: Definition|
            !lists(t, key.def) ==> #[trigger] value_at(after.properties, key) == value_at(
                before.properties,
                key,
            )
        &&& forall|key: Definition|
            !lists(t, key.def) ==> #[trigger] value_at(after.implementations, key) == value_at(
                before.implementations,
                key,
            )
    }
}

/// Whether a text is shown for exactly this location.
pub open spec fn says(b: Option<Built>, loc: Loc, text: Seq<char>) -> bool {
    b is Some ==> span(loc) is Some && b->Some_0.hovers.contains(
        HoverModel {
            file_no: span(loc)->Some_0.0,
            start: span(loc)->Some_0.1,
            stop: span(loc)->Some_0.2,
            val: text,
        },
    )
}

/// Whether exactly this location refers to the code object.
pub open spec fn points(b: Option<Built>, loc: Loc, def: DefinitionType) -> bool {
    b is Some ==> span(loc) is Some && b->Some_0.references.contains(
        ReferenceModel {
            file_no: span(loc)->Some_0.0,
            start: span(loc)->Some_0.1,
            stop: span(loc)->Some_0.2,
            val: unplaced(def),
        },
    )
}

pub proof fn lemma_same(a: Option<Built>)
    ensures
        goes_on(a, a, Touched::Nothing),
{
    reveal(goes_on);
}

/// What goes on from what goes on goes on.
pub proof fn lemma_join(
    a: Option<Built>,
    b: Option<Built>,
    c: Option<Built>,
    s: Touched,
    t: Touched,
    u: Touched,
)
    requires
        goes_on(a, b, s),
        goes_on(b, c, t),
        forall|d: DefinitionType| #[trigger] touches(s, d) ==> touches(u, d),
        forall|d: DefinitionType| #[trigger] touches(t, d) ==> touches(u, d),
        forall|d: DefinitionType| #[trigger] lists(s, d) ==> lists(u, d),
        forall|d: DefinitionType| #[trigger] lists(t, d) ==> lists(u, d),
    ensures
        goes_on(a, c, u),
{
    reveal(goes_on);
    if c is Some {
        let (x, y, z) = (a->Some_0, b->Some_0, c->Some_0);
        assert forall|i: int| 0 <= i < x.hovers.len() implies x.hovers[i] == z.hovers[i] by {
            assert(x.hovers[i] == y.hovers[i]);
        }
        assert(x.hovers.is_prefix_of(z.hovers));
        assert(x.references.is_prefix_of(z.references));
        assert(x.scopes.is_prefix_of(z.scopes));
        assert(x.top_level.is_prefix_of(z.top_level));
        assert forall|key: Definition| !touches(u, key.def) implies #[trigger] value_at(
            z.definitions,
            key,
        ) == value_at(x.definitions, key) && value_at(z.types, key) == value_at(x.types, key) by {
            assert(!touches(s, key.def) && !touches(t, key.def));
            assert(value_at(z.definitions, key) == value_at(y.definitions, key));
            assert(value_at(y.definitions, key) == value_at(x.definitions, key));
        }
        assert forall|key: Definition| !lists(u, key.def) implies #[trigger] value_at(
            z.properties,
            key,
        ) == value_at(x.properties, key) by {
            assert(!lists(s, key.def) && !lists(t, key.def));
            assert(value_at(z.properties, key) == value_at(y.properties, key));
        }
        assert forall|key: Definition| !lists(u, key.def) implies #[trigger] value_at(
            z.implementations,
            key,
        ) == value_at(x.implementations, key) by {
            assert(!lists(s, key.def) && !lists(t, key.def));
            assert(value_at(z.implementations, key) == value_at(y.implementations, key));
        }
    }
}

pub proof fn lemma_wider(a: Option<Built>, b: Option<Built>, s: Touched, t: Touched)
    requires
        goes_on(a, b, s),
        forall|d: DefinitionType| #[trigger] touches(s, d) ==> touches(t, d),
        forall|d: DefinitionType| #[trigger] lists(s, d) ==> lists(t, d),
    ensures
        goes_on(a, b, t),
{
    lemma_same(a);
    lemma_join(a, a, b, Touched::Nothing, s, t);
}

pub proof fn lemma_join_plain(a: Option<Built>, b: Option<Built>, c: Option<Built>)
    requires
        goes_on(a, b, Touched::Nothing),
        goes_on(b, c, Touched::Nothing),
    ensures
        goes_on(a, c, Touched::Nothing),
{
    lemma_join(a, b, c, Touched::Nothing, Touched::Nothing, Touched::Nothing);
}

pub proof fn lemma_still_says(a: Option<Built>, b: Option<Built>, t: Touched, loc: Loc, text: Seq<char>)
    requires
        goes_on(a, b, t),
        says(a, loc, text),
    ensures
        says(b, loc, text),
{
    reveal(goes_on);
    if b is Some {
        let h = HoverModel {
            file_no: span(loc)->Some_0.0,
            start: span(loc)->Some_0.1,
            stop: span(loc)->Some_0.2,
            val: text,
        };
        let k = choose|k: int| 0 <= k < a->Some_0.hovers.len() && a->Some_0.hovers[k] == h;
        assert(b->Some_0.hovers[k] == h);
    }
}

pub proof fn lemma_still_points(
    a: Option<Built>,
    b: Option<Built>,
    t: Touched,
    loc: Loc,
    def: DefinitionType,
)
    requires
        goes_on(a, b, t),
        points(a, loc, def),
    ensures
        points(b, loc, def),
{
    reveal(goes_on);
    if b is Some {
        let r = ReferenceModel {
            file_no: span(loc)->Some_0.0,
            start: span(loc)->Some_0.1,
            stop: span(loc)->Some_0.2,
            val: unplaced(def),
        };
        let k = choose|k: int| 0 <= k < a->Some_0.references.len() && a->Some_0.references[k] == r;
        assert(b->Some_0.references[k] == r);
    }
}

pub proof fn lemma_hovered(b: Option<Built>, loc: Loc, text: Option<Seq<char>>)
    ensures
        goes_on(b, hovered(b, loc, text), Touched::Nothing),
        hovered(b, loc, text) is Some ==> text is Some,
        text is Some ==> says(hovered(b, loc, text), loc, text->Some_0),
{
    reveal(goes_on);
    reveal(hovered);
    let r = hovered(b, loc, text);
    if r is Some {
        let n = b->Some_0.hovers.len() as int;
        assert(r->Some_0.hovers[n] == r->Some_0.hovers.last());
    }
}

pub proof fn lemma_referred(b: Option<Built>, loc: Loc, def: DefinitionType)
    ensures
        goes_on(b, referred(b, loc, def), Touched::Nothing),
        points(referred(b, loc, def), loc, def),
{
    reveal(goes_on);
    reveal(referred);
    let r = referred(b, loc, def);
    if r is Some {
        let n = b->Some_0.references.len() as int;
        assert(r->Some_0.references[n] == r->Some_0.references.last());
    }
}

pub proof fn lemma_type_referred(b: Option<Built>, loc: Loc, ty: SolidityType)
    ensures
        goes_on(b, type_referred(b, loc, ty), Touched::Nothing),
        type_definition(ty) is Some ==> points(
            type_referred(b, loc, ty),
            loc,
            type_definition(ty)->Some_0,
        ),
{
    lemma_same(b);
    if let Some(def) = type_definition(ty) {
        lemma_referred(b, loc, def);
    }
}

/// A text is shown, and what it is shown for refers to a code object.
proof fn lemma_shown_and_referred(
    b: Option<Built>,
    loc: Loc,
    text: Option<Seq<char>>,
    def: DefinitionType,
)
    ensures
        ({
            let r = referred(hovered(b, loc, text), loc, def);
            &&& goes_on(b, r, Touched::Nothing)
            &&& r is Some ==> text is Some
            &&& text is Some ==> says(r, loc, text->Some_0)
            &&& points(r, loc, def)
        }),
{
    let shown = hovered(b, loc, text);
    let r = referred(shown, loc, def);
    lemma_hovered(b, loc, text);
    lemma_referred(shown, loc, def);
    lemma_join_plain(b, shown, r);
    if text is Some {
        lemma_still_says(shown, r, Touched::Nothing, loc, text->Some_0);
    }
    reveal(goes_on);
}

/// Everything that is collected before an expression stays.
pub proof fn lemma_expression_goes_on(
    ns: Namespace,
    vars: Seq<(usize, LocalVariable)>,
    e: Expression,
    b: Option<Built>,
)
    ensures
        goes_on(b, expression_built(ns, vars, e, b), Touched::Nothing),
    decreases e, 0nat,
{
    lemma_same(b);
    match e {
        Expression::BoolLiteral { loc } => lemma_hovered(b, loc, Some(code_block("bool"@))),
        Expression::BytesLiteral { loc, ty } => lemma_hovered(b, loc, expanded(ns, ty)),
        Expression::NumberLiteral { loc, ty, value } => {
            let with_variant = match ty.shape {
                TypeShape::Enum(id) => match value {
                    Some(v) => referred(b, loc, DefinitionType::Variant(id, v as usize)),
                    None => None,
                },
                _ => b,
            };
            if let TypeShape::Enum(id) = ty.shape {
                if let Some(v) = value {
                    lemma_referred(b, loc, DefinitionType::Variant(id, v as usize));
                } else {
                    reveal(goes_on);
                }
            }
            assert(goes_on(b, with_variant, Touched::Nothing));
            lemma_hovered(with_variant, loc, Some(code_block(ty.text@)));
            lemma_join_plain(b, with_variant, expression_built(ns, vars, e, b));
        },
        Expression::StructLiteral { id, ty, values } => {
            let with_struct = struct_named(id@, ty, b);
            lemma_struct_named(id@, ty, b);
            lemma_fields_go_on(ns, vars, ty, values@, values@.len(), with_struct);
            lemma_join_plain(b, with_struct, expression_built(ns, vars, e, b));
        },
        Expression::ArrayLiteral { values } => lemma_expressions_go_on(
            ns,
            vars,
            values@,
            values@.len(),
            b,
        ),
        Expression::ConstArrayLiteral { values } => lemma_expressions_go_on(
            ns,
            vars,
            values@,
            values@.len(),
            b,
        ),
        Expression::Arithmetic { loc, ty, op, left, right } => {
            let text = Some(arithmetic_text(op, ty.text@));
            let shown = hovered(b, loc, text);
            lemma_hovered(b, loc, text);
            lemma_expression_goes_on(ns, vars, *left, shown);
            let l = expression_built(ns, vars, *left, shown);
            lemma_expression_goes_on(ns, vars, *right, l);
            lemma_join_plain(b, shown, l);
            lemma_join_plain(b, l, expression_built(ns, vars, e, b));
        },
        Expression::Binary { op, left, right } => {
            lemma_expression_goes_on(ns, vars, *left, b);
            let l = expression_built(ns, vars, *left, b);
            lemma_expression_goes_on(ns, vars, *right, l);
            lemma_join_plain(b, l, expression_built(ns, vars, e, b));
        },
        Expression::Variable { loc, ty, var_no } => lemma_shown_and_referred(
            b,
            loc,
            Some(crate::builder::variable_text(vars, ty, var_no)),
            DefinitionType::Variable(var_no),
        ),
        Expression::ConstantVariable { loc, ty, contract_no, var_no } => lemma_shown_and_referred(
            b,
            loc,
            crate::builder::constant_use(ns, loc, ty, contract_no, var_no),
            DefinitionType::NonLocalVariable(contract_no, var_no),
        ),
        Expression::StorageVariable { loc, ty, contract_no, var_no } => lemma_shown_and_referred(
            b,
            loc,
            crate::builder::storage_use(ns, ty, contract_no, var_no),
            DefinitionType::NonLocalVariable(Some(contract_no), var_no),
        ),
        Expression::Unary { op, expr } => lemma_expression_goes_on(ns, vars, *expr, b),
        Expression::ConditionalOperator { cond, true_option, false_option } => {
            lemma_expression_goes_on(ns, vars, *cond, b);
            let c = expression_built(ns, vars, *cond, b);
            lemma_expression_goes_on(ns, vars, *true_option, c);
            let t = expression_built(ns, vars, *true_option, c);
            lemma_expression_goes_on(ns, vars, *false_option, t);
            lemma_join_plain(b, c, t);
            lemma_join_plain(b, t, expression_built(ns, vars, e, b));
        },
        Expression::Subscript { array, index } => {
            lemma_expression_goes_on(ns, vars, *array, b);
            let a = expression_built(ns, vars, *array, b);
            lemma_expression_goes_on(ns, vars, *index, a);
            lemma_join_plain(b, a, expression_built(ns, vars, e, b));
        },
        Expression::StructMember { loc, ty, expr, expr_ty, field } => {
            lemma_expression_goes_on(ns, vars, *expr, b);
            let inner = expression_built(ns, vars, *expr, b);
            let text = Some(code_block(ty.text@));
            lemma_hovered(inner, loc, text);
            let shown = hovered(inner, loc, text);
            lemma_join_plain(b, inner, shown);
            if let TypeShape::Struct(StructType::UserDefined(_)) = dereferenced(expr_ty).shape {
                let def = DefinitionType::Field(
                    crate::namespace::field_owner(dereferenced(expr_ty)),
                    field,
                );
                lemma_referred(shown, loc, def);
                lemma_join_plain(b, shown, referred(shown, loc, def));
            }
        },
        Expression::AllocDynamicBytes { loc, ty, length } => {
            lemma_type_referred(b, loc, ty);
            let t = type_referred(b, loc, ty);
            lemma_expression_goes_on(ns, vars, *length, t);
            lemma_join_plain(b, t, expression_built(ns, vars, e, b));
        },
        Expression::StorageArrayLength { array } => lemma_expression_goes_on(ns, vars, *array, b),
        Expression::StringCompare { left, right } => {
            lemma_string_goes_on(ns, vars, left, b);
            let l = string_built(ns, vars, left, b);
            lemma_string_goes_on(ns, vars, right, l);
            lemma_join_plain(b, l, expression_built(ns, vars, e, b));
        },
        Expression::InternalFunction { id, function_no } => {
            if let Some(loc) = crate::builder::last_loc(id@) {
                lemma_shown_and_referred(
                    b,
                    loc,
                    crate::builder::function_use(ns, function_no),
                    DefinitionType::Function(function_no),
                );
            } else {
                reveal(goes_on);
            }
        },
        Expression::InternalFunctionCall { function, args } => {
            let called = if *function is InternalFunction {
                lemma_expression_goes_on(ns, vars, *function, b);
                expression_built(ns, vars, *function, b)
            } else {
                b
            };
            lemma_expressions_go_on(ns, vars, args@, args@.len(), called);
            lemma_join_plain(b, called, expression_built(ns, vars, e, b));
        },
        Expression::ExternalFunction { loc, address, function_no } => {
            let text = crate::builder::function_use(ns, function_no);
            let def = DefinitionType::Function(function_no);
            lemma_shown_and_referred(b, loc, text, def);
            let r = referred(hovered(b, loc, text), loc, def);
            lemma_expression_goes_on(ns, vars, *address, r);
            lemma_join_plain(b, r, expression_built(ns, vars, e, b));
        },
        Expression::ExternalFunctionCall { function, args, call_args } => {
            let called = if *function is ExternalFunction {
                lemma_expression_goes_on(ns, vars, *function, b);
                expression_built(ns, vars, *function, b)
            } else {
                b
            };
            lemma_expressions_go_on(ns, vars, args@, args@.len(), called);
            let a = expressions_built(ns, vars, args@, args@.len(), called);
            lemma_optional_goes_on(ns, vars, call_args.value, a);
            let v = optional_built(ns, vars, call_args.value, a);
            lemma_optional_goes_on(ns, vars, call_args.gas, v);
            lemma_join_plain(b, called, a);
            lemma_join_plain(b, a, v);
            lemma_join_plain(b, v, expression_built(ns, vars, e, b));
        },
        Expression::ExternalFunctionCallRaw { address, args, call_args } => {
            lemma_expression_goes_on(ns, vars, *args, b);
            let a = expression_built(ns, vars, *args, b);
            lemma_expression_goes_on(ns, vars, *address, a);
            let d = expression_built(ns, vars, *address, a);
            lemma_optional_goes_on(ns, vars, call_args.value, d);
            let v = optional_built(ns, vars, call_args.value, d);
            lemma_optional_goes_on(ns, vars, call_args.gas, v);
            lemma_join_plain(b, a, d);
            lemma_join_plain(b, d, v);
            lemma_join_plain(b, v, expression_built(ns, vars, e, b));
        },
        Expression::Constructor { args, call_args } => {
            lemma_optional_goes_on(ns, vars, call_args.gas, b);
            let g = optional_built(ns, vars, call_args.gas, b);
            lemma_expressions_go_on(ns, vars, args@, args@.len(), g);
            let a = expressions_built(ns, vars, args@, args@.len(), g);
            lemma_optional_goes_on(ns, vars, call_args.value, a);
            let v = optional_built(ns, vars, call_args.value, a);
            lemma_optional_goes_on(ns, vars, call_args.salt, v);
            let s = optional_built(ns, vars, call_args.salt, v);
            lemma_optional_goes_on(ns, vars, call_args.seeds, s);
            lemma_join_plain(b, g, a);
            lemma_join_plain(b, a, v);
            lemma_join_plain(b, v, s);
            lemma_join_plain(b, s, expression_built(ns, vars, e, b));
        },
        Expression::Builtin { loc, prototype, args } => {
            let text = Some(builtin_text(prototype));
            lemma_hovered(b, loc, text);
            let shown = hovered(b, loc, text);
            lemma_expressions_go_on(ns, vars, args@, args@.len(), shown);
            lemma_join_plain(b, shown, expression_built(ns, vars, e, b));
        },
        Expression::FormatString { format } => lemma_expressions_go_on(
            ns,
            vars,
            format@,
            format@.len(),
            b,
        ),
        Expression::List { list } => lemma_expressions_go_on(ns, vars, list@, list@.len(), b),
        Expression::Other => {},
    }
}

/// The name of the struct of a literal is referred to.
spec fn struct_named(id: Seq<Loc>, ty: SolidityType, b: Option<Built>) -> Option<Built> {
    match ty.shape {
        TypeShape::Struct(StructType::UserDefined(n)) => if id.len() > 0 {
            referred(b, id.last(), DefinitionType::Struct(StructType::UserDefined(n)))
        } else {
            None
        },
        _ => b,
    }
}

proof fn lemma_struct_named(id: Seq<Loc>, ty: SolidityType, b: Option<Built>)
    ensures
        goes_on(b, struct_named(id, ty, b), Touched::Nothing),
        ty.shape matches TypeShape::Struct(StructType::UserDefined(n)) ==> points(
            struct_named(id, ty, b),
            id.last(),
            DefinitionType::Struct(StructType::UserDefined(n)),
        ),
{
    lemma_same(b);
    if let TypeShape::Struct(StructType::UserDefined(n)) = ty.shape {
        if id.len() > 0 {
            lemma_referred(b, id.last(), DefinitionType::Struct(StructType::UserDefined(n)));
        } else {
            reveal(goes_on);
        }
    }
}

pub proof fn lemma_expressions_go_on(
    ns: Namespace,
    vars: Seq<(usize, LocalVariable)>,
    es: Seq<Expression>,
    n: nat,
    b: Option<Built>,
)
    ensures
        goes_on(b, expressions_built(ns, vars, es, n, b), Touched::Nothing),
    decreases es, n,
{
    lemma_same(b);
    if n > 0 && n <= es.len() {
        let before = expressions_built(ns, vars, es, (n - 1) as nat, b);
        lemma_expressions_go_on(ns, vars, es, (n - 1) as nat, b);
        lemma_expression_goes_on(ns, vars, es[n - 1], before);
        lemma_join_plain(b, before, expression_built(ns, vars, es[n - 1], before));
    }
}

proof fn lemma_fields_go_on(
    ns: Namespace,
    vars: Seq<(usize, LocalVariable)>,
    ty: SolidityType,
    values: Seq<(Option<Loc>, Expression)>,
    n: nat,
    b: Option<Built>,
)
    ensures
        goes_on(b, fields_built(ns, vars, ty, values, n, b), Touched::Nothing),
    decreases values, n,
{
    lemma_same(b);
    if n > 0 && n <= values.len() {
        let before = fields_built(ns, vars, ty, values, (n - 1) as nat, b);
        lemma_fields_go_on(ns, vars, ty, values, (n - 1) as nat, b);
        lemma_expression_goes_on(ns, vars, values[n - 1].1, before);
        let with_value = expression_built(ns, vars, values[n - 1].1, before);
        lemma_join_plain(b, before, with_value);
        if let Some(loc) = values[n - 1].0 {
            let def = DefinitionType::Field(crate::namespace::field_owner(ty), (n - 1) as usize);
            lemma_referred(with_value, loc, def);
            lemma_join_plain(b, with_value, referred(with_value, loc, def));
        }
    }
}

proof fn lemma_optional_goes_on(
    ns: Namespace,
    vars: Seq<(usize, LocalVariable)>,
    o: Option<Box<Expression>>,
    b: Option<Built>,
)
    ensures
        goes_on(b, optional_built(ns, vars, o, b), Touched::Nothing),
    decreases o, 0nat,
{
    lemma_same(b);
    if let Some(e) = o {
        lemma_expression_goes_on(ns, vars, *e, b);
    }
}

proof fn lemma_string_goes_on(
    ns: Namespace,
    vars: Seq<(usize, LocalVariable)>,
    s: StringLocation,
    b: Option<Built>,
)
    ensures
        goes_on(b, string_built(ns, vars, s, b), Touched::Nothing),
    decreases s, 0nat,
{
    lemma_same(b);
    if let StringLocation::RunTime(e) = s {
        lemma_expression_goes_on(ns, vars, *e, b);
    }
}

/// Whether `k` is the first place of the variable with this number.
pub open spec fn is_local(vars: Seq<(usize, LocalVariable)>, var_no: usize, k: int) -> bool {
    &&& 0 <= k < vars.len()
    &&& vars[k].0 == var_no
    &&& forall|j: int| 0 <= j < k ==> (#[trigger] vars[j]).0 != var_no
}

proof fn lemma_local(vars: Seq<(usize, LocalVariable)>, var_no: usize, i: nat, k: int)
    requires
        is_local(vars, var_no, k),
        i <= k,
    ensures
        local_variable(vars, var_no, i) == Some(vars[k].1),
    decreases k - i,
{
    if i < k {
        assert(vars[i as int].0 != var_no);
        lemma_local(vars, var_no, i + 1, k);
    }
}

/// Whether what was collected says of an expression what it is: what is shown for it, and what it
/// refers to.
pub open spec fn tells(
    ns: Namespace,
    vars: Seq<(usize, LocalVariable)>,
    e: Expression,
    b: Option<Built>,
) -> bool {
    match e {
        Expression::BoolLiteral { loc } => says(b, loc, code_block("bool"@)),
        Expression::BytesLiteral { loc, ty } => {
            &&& b is Some ==> expanded(ns, ty) is Some
            &&& says(b, loc, expanded(ns, ty)->Some_0)
        },
        // a number, or a value of an enum
        Expression::NumberLiteral { loc, ty, value } => {
            &&& says(b, loc, code_block(ty.text@))
            &&& ty.shape matches TypeShape::Enum(id) ==> (b is Some ==> value is Some) && points(
                b,
                loc,
                DefinitionType::Variant(id, value->Some_0 as usize),
            )
        },
        // the struct, and each field that is named
        Expression::StructLiteral { id, ty, values } => {
            &&& ty.shape matches TypeShape::Struct(StructType::UserDefined(n)) ==> points(
                b,
                id@.last(),
                DefinitionType::Struct(StructType::UserDefined(n)),
            )
            &&& ty.shape matches TypeShape::Struct(st) ==> forall|i: int|
                0 <= i < values@.len() && (#[trigger] values@[i]).0 is Some ==> points(
                    b,
                    values@[i].0->Some_0,
                    DefinitionType::Field(FieldOwner::Struct(st), i as usize),
                )
        },
        Expression::Arithmetic { loc, ty, op, left, right } => says(
            b,
            loc,
            arithmetic_text(op, ty.text@),
        ),
        // a variable with its name
        Expression::Variable { loc, ty, var_no } => {
            &&& points(b, loc, DefinitionType::Variable(var_no))
            &&& forall|k: int| #[trigger]
                is_local(vars, var_no, k) ==> says(
                    b,
                    loc,
                    code_block(
                        ty.text@ + " "@ + vars[k].1.name@ + if vars[k].1.slice {
                            "\nreadonly: compiled to slice\n"@
                        } else {
                            ""@
                        },
                    ),
                )
        },
        // a constant with its name, that of its contract before it, and its value behind it
        Expression::ConstantVariable { loc, ty, contract_no, var_no } => {
            &&& points(b, loc, DefinitionType::NonLocalVariable(contract_no, var_no))
            &&& b is Some ==> match contract_no {
                Some(c) => c < ns.contracts@.len() && var_no
                    < ns.contracts@[c as int].variables@.len(),
                None => var_no < ns.constants@.len(),
            }
            &&& says(
                b,
                loc,
                code_block(
                    ty.text@ + " constant "@ + (match contract_no {
                        Some(c) => ns.contracts@[c as int].id.name@ + "."@,
                        None => ""@,
                    }) + (match contract_no {
                        Some(c) => ns.contracts@[c as int].variables@[var_no as int].name@,
                        None => ns.constants@[var_no as int].name@,
                    }) + constant_suffix(ns, loc),
                ),
            )
        },
        // a state variable with its name, that of its contract before it
        Expression::StorageVariable { loc, ty, contract_no, var_no } => {
            &&& points(b, loc, DefinitionType::NonLocalVariable(Some(contract_no), var_no))
            &&& b is Some ==> contract_no < ns.contracts@.len() && var_no
                < ns.contracts@[contract_no as int].variables@.len()
            &&& says(
                b,
                loc,
                code_block(
                    ty.text@ + " "@ + ns.contracts@[contract_no as int].id.name@ + "."@
                        + ns.contracts@[contract_no as int].variables@[var_no as int].name@,
                ),
            )
        },
        // a field of the struct, or of what a reference to it stands for
        Expression::StructMember { loc, ty, expr, expr_ty, field } => {
            &&& says(b, loc, code_block(ty.text@))
            &&& forall|s: usize| #[trigger]
                is_struct(expr_ty, s) ==> points(
                    b,
                    loc,
                    DefinitionType::Field(FieldOwner::Struct(StructType::UserDefined(s)), field),
                )
        },
        Expression::AllocDynamicBytes { loc, ty, length } => type_definition(ty) is Some ==> points(
            b,
            loc,
            type_definition(ty)->Some_0,
        ),
        Expression::InternalFunction { id, function_no } => {
            &&& b is Some ==> id@.len() > 0
            &&& tells_function(ns, id@.last(), function_no, b)
        },
        Expression::ExternalFunction { loc, address, function_no } => tells_function(
            ns,
            loc,
            function_no,
            b,
        ),
        Expression::Builtin { loc, prototype, args } => says(b, loc, builtin_text(prototype)),
        _ => true,
    }
}

/// Whether the type is a struct of the program, or a reference to one.
pub open spec fn is_struct(ty: SolidityType, s: usize) -> bool {
    let st = TypeShape::Struct(StructType::UserDefined(s));
    ||| ty.shape == st
    ||| ty.shape matches TypeShape::Ref(target) && target.shape == st
    ||| ty.shape matches TypeShape::StorageRef(target) && target.shape == st
}

/// Whether a function is shown at a location that refers to it.
pub open spec fn tells_function(ns: Namespace, loc: Loc, function_no: usize, b: Option<Built>) -> bool {
    &&& points(b, loc, DefinitionType::Function(function_no))
    &&& b is Some ==> function_no < ns.functions@.len() && function_text(
        ns,
        ns.functions@[function_no as int],
    ) is Some
    &&& says(b, loc, function_text(ns, ns.functions@[function_no as int])->Some_0)
}

/// What was said of an expression stays.
pub proof fn lemma_still_tells(
    ns: Namespace,
    vars: Seq<(usize, LocalVariable)>,
    e: Expression,
    a: Option<Built>,
    b: Option<Built>,
    t: Touched,
)
    requires
        goes_on(a, b, t),
        tells(ns, vars, e, a),
    ensures
        tells(ns, vars, e, b),
{
    assert(b is Some ==> a is Some) by {
        reveal(goes_on);
    }
    assert forall|loc: Loc, text: Seq<char>| #[trigger] says(a, loc, text) implies says(
        b,
        loc,
        text,
    ) by {
        lemma_still_says(a, b, t, loc, text);
    }
    assert forall|loc: Loc, def: DefinitionType| #[trigger] points(a, loc, def) implies points(
        b,
        loc,
        def,
    ) by {
        lemma_still_points(a, b, t, loc, def);
    }
    match e {
        Expression::StructLiteral { id, ty, values } => {
            if let TypeShape::Struct(st) = ty.shape {
                assert forall|i: int|
                    0 <= i < values@.len() && (#[trigger] values@[i]).0 is Some implies points(
                    b,
                    values@[i].0->Some_0,
                    DefinitionType::Field(FieldOwner::Struct(st), i as usize),
                ) by {
                    assert(points(
                        a,
                        values@[i].0->Some_0,
                        DefinitionType::Field(FieldOwner::Struct(st), i as usize),
                    ));
                }
            }
        },
        Expression::NumberLiteral { loc, ty, value } => {
            assert(says(a, loc, code_block(ty.text@)));
        },
        Expression::Variable { loc, ty, var_no } => {
            assert forall|k: int| #[trigger] is_local(vars, var_no, k) implies says(
                b,
                loc,
                code_block(
                    ty.text@ + " "@ + vars[k].1.name@ + if vars[k].1.slice {
                        "\nreadonly: compiled to slice\n"@
                    } else {
                        ""@
                    },
                ),
            ) by {
                assert(says(
                    a,
                    loc,
                    code_block(
                        ty.text@ + " "@ + vars[k].1.name@ + if vars[k].1.slice {
                            "\nreadonly: compiled to slice\n"@
                        } else {
                            ""@
                        },
                    ),
                ));
            }
        },
        Expression::StructMember { loc, ty, expr, expr_ty, field } => {
            assert(says(a, loc, code_block(ty.text@)));
            assert forall|s: usize| #[trigger] is_struct(expr_ty, s) implies points(
                b,
                loc,
                DefinitionType::Field(FieldOwner::Struct(StructType::UserDefined(s)), field),
            ) by {
                assert(points(
                    a,
                    loc,
                    DefinitionType::Field(FieldOwner::Struct(StructType::UserDefined(s)), field),
                ));
            }
        },
        _ => {},
    }
}

proof fn lemma_fields_told(
    ns: Namespace,
    vars: Seq<(usize, LocalVariable)>,
    ty: SolidityType,
    values: Seq<(Option<Loc>, Expression)>,
    n: nat,
    b: Option<Built>,
    st: StructType,
)
    requires
        ty.shape == TypeShape::Struct(st),
        n <= values.len(),
    ensures
        forall|i: int|
            0 <= i < n && (#[trigger] values[i]).0 is Some ==> points(
                fields_built(ns, vars, ty, values, n, b),
                values[i].0->Some_0,
                DefinitionType::Field(FieldOwner::Struct(st), i as usize),
            ),
    decreases n,
{
    if n > 0 {
        let m = (n - 1) as nat;
        let before = fields_built(ns, vars, ty, values, m, b);
        lemma_fields_told(ns, vars, ty, values, m, b, st);
        let with_value = expression_built(ns, vars, values[n - 1].1, before);
        lemma_expression_goes_on(ns, vars, values[n - 1].1, before);
        let after = fields_built(ns, vars, ty, values, n, b);
        lemma_same(with_value);
        if let Some(loc) = values[n - 1].0 {
            lemma_referred(
                with_value,
                loc,
                DefinitionType::Field(FieldOwner::Struct(st), (n - 1) as usize),
            );
        }
        lemma_join_plain(before, with_value, after);
        assert forall|i: int| 0 <= i < n && (#[trigger] values[i]).0 is Some implies points(
            after,
            values[i].0->Some_0,
            DefinitionType::Field(FieldOwner::Struct(st), i as usize),
        ) by {
            if i < m {
                lemma_still_points(
                    before,
                    after,
                    Touched::Nothing,
                    values[i].0->Some_0,
                    DefinitionType::Field(FieldOwner::Struct(st), i as usize),
                );
            }
        }
    }
}

proof fn lemma_constant_told(
    ns: Namespace,
    vars: Seq<(usize, LocalVariable)>,
    e: Expression,
    b: Option<Built>,
)
    requires
        e is ConstantVariable,
    ensures
        tells(ns, vars, e, expression_built(ns, vars, e, b)),
{
    if let Expression::ConstantVariable { loc, ty, contract_no, var_no } = e {
        lemma_shown_and_referred(
            b,
            loc,
            crate::builder::constant_use(ns, loc, ty, contract_no, var_no),
            DefinitionType::NonLocalVariable(contract_no, var_no),
        );
    }
}

proof fn lemma_storage_told(
    ns: Namespace,
    vars: Seq<(usize, LocalVariable)>,
    e: Expression,
    b: Option<Built>,
)
    requires
        e is StorageVariable,
    ensures
        tells(ns, vars, e, expression_built(ns, vars, e, b)),
{
    if let Expression::StorageVariable { loc, ty, contract_no, var_no } = e {
        lemma_shown_and_referred(
            b,
            loc,
            crate::builder::storage_use(ns, ty, contract_no, var_no),
            DefinitionType::NonLocalVariable(Some(contract_no), var_no),
        );
    }
}

proof fn lemma_member_told(
    ns: Namespace,
    vars: Seq<(usize, LocalVariable)>,
    e: Expression,
    b: Option<Built>,
)
    requires
        e is StructMember,
    ensures
        tells(ns, vars, e, expression_built(ns, vars, e, b)),
{
    if let Expression::StructMember { loc, ty, expr, expr_ty, field } = e {
        let r = expression_built(ns, vars, e, b);
        let inner = expression_built(ns, vars, *expr, b);
        let text = code_block(ty.text@);
        lemma_hovered(inner, loc, Some(text));
        let shown = hovered(inner, loc, Some(text));
        if let TypeShape::Struct(StructType::UserDefined(s)) = dereferenced(expr_ty).shape {
            let def = DefinitionType::Field(FieldOwner::Struct(StructType::UserDefined(s)), field);
            lemma_referred(shown, loc, def);
            lemma_still_says(shown, r, Touched::Nothing, loc, text);
        }
    }
}

/// Collecting from an expression says of it what it is.
pub proof fn law_expressions_are_told(
    ns: Namespace,
    vars: Seq<(usize, LocalVariable)>,
    e: Expression,
    b: Option<Built>,
)
    ensures
        tells(ns, vars, e, expression_built(ns, vars, e, b)),
{
    let r = expression_built(ns, vars, e, b);
    match e {
        Expression::BoolLiteral { loc } => lemma_hovered(b, loc, Some(code_block("bool"@))),
        Expression::BytesLiteral { loc, ty } => lemma_hovered(b, loc, expanded(ns, ty)),
        Expression::NumberLiteral { loc, ty, value } => {
            let with_variant = match ty.shape {
                TypeShape::Enum(id) => match value {
                    Some(v) => referred(b, loc, DefinitionType::Variant(id, v as usize)),
                    None => None,
                },
                _ => b,
            };
            lemma_hovered(with_variant, loc, Some(code_block(ty.text@)));
            if let TypeShape::Enum(id) = ty.shape {
                if let Some(v) = value {
                    let def = DefinitionType::Variant(id, v as usize);
                    lemma_referred(b, loc, def);
                    lemma_still_points(with_variant, r, Touched::Nothing, loc, def);
                } else {
                    reveal(goes_on);
                }
            }
        },
        Expression::StructLiteral { id, ty, values } => {
            let with_struct = struct_named(id@, ty, b);
            lemma_struct_named(id@, ty, b);
            lemma_fields_go_on(ns, vars, ty, values@, values@.len(), with_struct);
            assert(r == fields_built(ns, vars, ty, values@, values@.len(), with_struct));
            if let TypeShape::Struct(st) = ty.shape {
                lemma_fields_told(ns, vars, ty, values@, values@.len(), with_struct, st);
                if let StructType::UserDefined(n) = st {
                    lemma_still_points(
                        with_struct,
                        r,
                        Touched::Nothing,
                        id@.last(),
                        DefinitionType::Struct(StructType::UserDefined(n)),
                    );
                }
            }
        },
        Expression::Arithmetic { loc, ty, op, left, right } => {
            let text = arithmetic_text(op, ty.text@);
            let shown = hovered(b, loc, Some(text));
            lemma_hovered(b, loc, Some(text));
            let l = expression_built(ns, vars, *left, shown);
            lemma_expression_goes_on(ns, vars, *left, shown);
            lemma_expression_goes_on(ns, vars, *right, l);
            lemma_join_plain(shown, l, r);
            lemma_still_says(shown, r, Touched::Nothing, loc, text);
        },
        Expression::Variable { loc, ty, var_no } => {
            lemma_shown_and_referred(
                b,
                loc,
                Some(crate::builder::variable_text(vars, ty, var_no)),
                DefinitionType::Variable(var_no),
            );
            assert forall|k: int| #[trigger] is_local(vars, var_no, k) implies says(
                r,
                loc,
                code_block(
                    ty.text@ + " "@ + vars[k].1.name@ + if vars[k].1.slice {
                        "\nreadonly: compiled to slice\n"@
                    } else {
                        ""@
                    },
                ),
            ) by {
                lemma_local(vars, var_no, 0, k);
            }
        },
        Expression::ConstantVariable { loc, ty, contract_no, var_no } => lemma_constant_told(
            ns,
            vars,
            e,
            b,
        ),
        Expression::StorageVariable { loc, ty, contract_no, var_no } => lemma_storage_told(
            ns,
            vars,
            e,
            b,
        ),
        Expression::StructMember { loc, ty, expr, expr_ty, field } => lemma_member_told(
            ns,
            vars,
            e,
            b,
        ),
        Expression::AllocDynamicBytes { loc, ty, length } => {
            lemma_type_referred(b, loc, ty);
            let t = type_referred(b, loc, ty);
            lemma_expression_goes_on(ns, vars, *length, t);
            if let Some(def) = type_definition(ty) {
                lemma_still_points(t, r, Touched::Nothing, loc, def);
            }
        },
        Expression::InternalFunction { id, function_no } => {
            if let Some(loc) = crate::builder::last_loc(id@) {
                lemma_shown_and_referred(
                    b,
                    loc,
                    crate::builder::function_use(ns, function_no),
                    DefinitionType::Function(function_no),
                );
            }
        },
        Expression::ExternalFunction { loc, address, function_no } => {
            let text = crate::builder::function_use(ns, function_no);
            let def = DefinitionType::Function(function_no);
            lemma_shown_and_referred(b, loc, text, def);
            let shown = referred(hovered(b, loc, text), loc, def);
            lemma_expression_goes_on(ns, vars, *address, shown);
            assert(tells_function(ns, loc, function_no, shown));
            if text is Some {
                lemma_still_says(shown, r, Touched::Nothing, loc, text->Some_0);
            }
            lemma_still_points(shown, r, Touched::Nothing, loc, def);
            reveal(goes_on);
        },
        Expression::Builtin { loc, prototype, args } => {
            let text = builtin_text(prototype);
            lemma_hovered(b, loc, Some(text));
            let shown = hovered(b, loc, Some(text));
            lemma_expressions_go_on(ns, vars, args@, args@.len(), shown);
            lemma_still_says(shown, r, Touched::Nothing, loc, text);
        },
        _ => {},
    }
}

pub open spec fn one(e: Option<Box<Expression>>) -> Seq<Expression> {
    match e {
        Some(x) => seq![*x],
        None => Seq::empty(),
    }
}

pub open spec fn at_run_time(s: StringLocation) -> Seq<Expression> {
    match s {
        StringLocation::RunTime(x) => seq![*x],
        StringLocation::CompileTime => Seq::empty(),
    }
}

/// The expressions that an expression is made of. What is called counts where it is a function
/// itself, not where it is computed.
pub open spec fn parts_of(e: Expression) -> Seq<Expression> {
    match e {
        Expression::StructLiteral { id, ty, values } => values@.map_values(
            |v: (Option<Loc>, Expression)| v.1,
        ),
        Expression::ArrayLiteral { values } => values@,
        Expression::ConstArrayLiteral { values } => values@,
        Expression::Arithmetic { loc, ty, op, left, right } => seq![*left, *right],
        Expression::Binary { op, left, right } => seq![*left, *right],
        Expression::Unary { op, expr } => seq![*expr],
        Expression::ConditionalOperator { cond, true_option, false_option } => seq![
            *cond,
            *true_option,
            *false_option,
        ],
        Expression::Subscript { array, index } => seq![*array, *index],
        Expression::StructMember { loc, ty, expr, expr_ty, field } => seq![*expr],
        Expression::AllocDynamicBytes { loc, ty, length } => seq![*length],
        Expression::StorageArrayLength { array } => seq![*array],
        Expression::StringCompare { left, right } => at_run_time(left) + at_run_time(right),
        Expression::InternalFunctionCall { function, args } => (if *function is InternalFunction {
            seq![*function]
        } else {
            Seq::empty()
        }) + args@,
        Expression::ExternalFunction { loc, address, function_no } => seq![*address],
        Expression::ExternalFunctionCall { function, args, call_args } => (
        if *function is ExternalFunction {
            seq![*function]
        } else {
            Seq::empty()
        }) + args@ + one(call_args.value) + one(call_args.gas),
        Expression::ExternalFunctionCallRaw { address, args, call_args } => seq![*args, *address]
            + one(call_args.value) + one(call_args.gas),
        Expression::Constructor { args, call_args } => one(call_args.gas) + args@ + one(
            call_args.value,
        ) + one(call_args.salt) + one(call_args.seeds),
        Expression::Builtin { loc, prototype, args } => args@,
        Expression::FormatString { format } => format@,
        Expression::List { list } => list@,
        _ => Seq::empty(),
    }
}

/// Whether something was collected from the expression on the way to `b`.
pub open spec fn passes(
    ns: Namespace,
    vars: Seq<(usize, LocalVariable)>,
    e: Expression,
    b: Option<Built>,
    t: Touched,
) -> bool {
    exists|at: Option<Built>| goes_on(#[trigger] expression_built(ns, vars, e, at), b, t)
}

pub proof fn lemma_passes(
    ns: Namespace,
    vars: Seq<(usize, LocalVariable)>,
    e: Expression,
    at: Option<Built>,
    b: Option<Built>,
    t: Touched,
)
    requires
        goes_on(expression_built(ns, vars, e, at), b, t),
    ensures
        passes(ns, vars, e, b, t),
{
}

pub proof fn lemma_passes_on(
    ns: Namespace,
    vars: Seq<(usize, LocalVariable)>,
    e: Expression,
    a: Option<Built>,
    b: Option<Built>,
    s: Touched,
    t: Touched,
    u: Touched,
)
    requires
        passes(ns, vars, e, a, s),
        goes_on(a, b, t),
        forall|d: DefinitionType| #[trigger] touches(s, d) ==> touches(u, d),
        forall|d: DefinitionType| #[trigger] touches(t, d) ==> touches(u, d),
        forall|d: DefinitionType| #[trigger] lists(s, d) ==> lists(u, d),
        forall|d: DefinitionType| #[trigger] lists(t, d) ==> lists(u, d),
    ensures
        passes(ns, vars, e, b, u),
{
    let at = choose|at: Option<Built>| goes_on(#[trigger] expression_built(ns, vars, e, at), a, s);
    lemma_join(expression_built(ns, vars, e, at), a, b, s, t, u);
}

/// Each of the expressions is passed.
pub proof fn lemma_expressions_pass(
    ns: Namespace,
    vars: Seq<(usize, LocalVariable)>,
    es: Seq<Expression>,
    n: nat,
    b: Option<Built>,
    i: int,
)
    requires
        0 <= i < n <= es.len(),
    ensures
        passes(ns, vars, es[i], expressions_built(ns, vars, es, n, b), Touched::Nothing),
    decreases n,
{
    let m = (n - 1) as nat;
    let before = expressions_built(ns, vars, es, m, b);
    let after = expressions_built(ns, vars, es, n, b);
    lemma_same(after);
    if i == m {
        lemma_passes(ns, vars, es[i], before, after, Touched::Nothing);
    } else {
        lemma_expressions_pass(ns, vars, es, m, b, i);
        lemma_expression_goes_on(ns, vars, es[n - 1], before);
        lemma_passes_on(
            ns,
            vars,
            es[i],
            before,
            after,
            Touched::Nothing,
            Touched::Nothing,
            Touched::Nothing,
        );
    }
}

proof fn lemma_fields_pass(
    ns: Namespace,
    vars: Seq<(usize, LocalVariable)>,
    ty: SolidityType,
    values: Seq<(Option<Loc>, Expression)>,
    n: nat,
    b: Option<Built>,
    i: int,
)
    requires
        0 <= i < n <= values.len(),
    ensures
        passes(
            ns,
            vars,
            values[i].1,
            fields_built(ns, vars, ty, values, n, b),
            Touched::Nothing,
        ),
    decreases n,
{
    let m = (n - 1) as nat;
    let none = Touched::Nothing;
    let before = fields_built(ns, vars, ty, values, m, b);
    let after = fields_built(ns, vars, ty, values, n, b);
    let with_value = expression_built(ns, vars, values[n - 1].1, before);
    lemma_same(with_value);
    if let Some(loc) = values[n - 1].0 {
        lemma_referred(
            with_value,
            loc,
            DefinitionType::Field(crate::namespace::field_owner(ty), (n - 1) as usize),
        );
    }
    assert(goes_on(with_value, after, none));
    if i == m {
        lemma_passes(ns, vars, values[i].1, before, after, none);
    } else {
        lemma_fields_pass(ns, vars, ty, values, m, b, i);
        lemma_expression_goes_on(ns, vars, values[n - 1].1, before);
        lemma_join_plain(before, with_value, after);
        lemma_passes_on(ns, vars, values[i].1, before, after, none, none, none);
    }
}

/// `e` was passed on the way to `a`, and that goes on to `b`.
proof fn lemma_then(
    ns: Namespace,
    vars: Seq<(usize, LocalVariable)>,
    e: Expression,
    a: Option<Built>,
    b: Option<Built>,
)
    requires
        passes(ns, vars, e, a, Touched::Nothing),
        goes_on(a, b, Touched::Nothing),
    ensures
        passes(ns, vars, e, b, Touched::Nothing),
{
    lemma_passes_on(
        ns,
        vars,
        e,
        a,
        b,
        Touched::Nothing,
        Touched::Nothing,
        Touched::Nothing,
    );
}

/// An expression is passed on the way to what is collected from it.
pub proof fn lemma_here(
    ns: Namespace,
    vars: Seq<(usize, LocalVariable)>,
    e: Expression,
    at: Option<Built>,
)
    ensures
        passes(ns, vars, e, expression_built(ns, vars, e, at), Touched::Nothing),
{
    lemma_same(expression_built(ns, vars, e, at));
    lemma_passes(ns, vars, e, at, expression_built(ns, vars, e, at), Touched::Nothing);
}

/// Each part of an expression is passed.
#[verifier::rlimit(40)]
proof fn lemma_part_passes(
    ns: Namespace,
    vars: Seq<(usize, LocalVariable)>,
    e: Expression,
    b: Option<Built>,
    part: Expression,
)
    requires
        parts_of(e).contains(part),
    ensures
        passes(ns, vars, part, expression_built(ns, vars, e, b), Touched::Nothing),
{
    let r = expression_built(ns, vars, e, b);
    let parts = parts_of(e);
    let k = choose|k: int| 0 <= k < parts.len() && parts[k] == part;
    match e {
        Expression::StructLiteral { id, ty, values } => {
            let with_struct = struct_named(id@, ty, b);
            assert(r == fields_built(ns, vars, ty, values@, values@.len(), with_struct));
            lemma_fields_pass(ns, vars, ty, values@, values@.len(), with_struct, k);
        },
        Expression::ArrayLiteral { values } => lemma_expressions_pass(
            ns,
            vars,
            values@,
            values@.len(),
            b,
            k,
        ),
        Expression::ConstArrayLiteral { values } => lemma_expressions_pass(
            ns,
            vars,
            values@,
            values@.len(),
            b,
            k,
        ),
        Expression::Arithmetic { loc, ty, op, left, right } => {
            let shown = hovered(b, loc, Some(arithmetic_text(op, ty.text@)));
            lemma_two_pass(ns, vars, *left, *right, shown, part);
        },
        Expression::Binary { op, left, right } => lemma_two_pass(
            ns,
            vars,
            *left,
            *right,
            b,
            part,
        ),
        Expression::Unary { op, expr } => lemma_here(ns, vars, *expr, b),
        Expression::ConditionalOperator { cond, true_option, false_option } => {
            let c = expression_built(ns, vars, *cond, b);
            if k == 0 {
                let t = expression_built(ns, vars, *true_option, c);
                lemma_here(ns, vars, *cond, b);
                lemma_expression_goes_on(ns, vars, *true_option, c);
                lemma_expression_goes_on(ns, vars, *false_option, t);
                lemma_join_plain(c, t, r);
                lemma_then(ns, vars, part, c, r);
            } else {
                lemma_two_pass(ns, vars, *true_option, *false_option, c, part);
            }
        },
        Expression::Subscript { array, index } => lemma_two_pass(
            ns,
            vars,
            *array,
            *index,
            b,
            part,
        ),
        Expression::StructMember { loc, ty, expr, expr_ty, field } => {
            let inner = expression_built(ns, vars, *expr, b);
            lemma_here(ns, vars, *expr, b);
            let text = Some(code_block(ty.text@));
            lemma_hovered(inner, loc, text);
            let shown = hovered(inner, loc, text);
            lemma_same(shown);
            if let TypeShape::Struct(StructType::UserDefined(_)) = dereferenced(expr_ty).shape {
                lemma_referred(
                    shown,
                    loc,
                    DefinitionType::Field(
                        crate::namespace::field_owner(dereferenced(expr_ty)),
                        field,
                    ),
                );
            }
            lemma_join_plain(inner, shown, r);
            lemma_then(ns, vars, part, inner, r);
        },
        Expression::AllocDynamicBytes { loc, ty, length } => lemma_here(
            ns,
            vars,
            *length,
            type_referred(b, loc, ty),
        ),
        Expression::StorageArrayLength { array } => lemma_here(ns, vars, *array, b),
        Expression::StringCompare { left, right } => {
            let l = string_built(ns, vars, left, b);
            lemma_string_goes_on(ns, vars, right, l);
            if k < at_run_time(left).len() {
                lemma_here(ns, vars, part, b);
                lemma_then(ns, vars, part, l, r);
            } else {
                assert(at_run_time(right)[k - at_run_time(left).len()] == part);
                lemma_here(ns, vars, part, l);
            }
        },
        Expression::InternalFunctionCall { function, args } => {
            let (called, n) = if *function is InternalFunction {
                (expression_built(ns, vars, *function, b), 1int)
            } else {
                (b, 0int)
            };
            if k < n {
                lemma_here(ns, vars, *function, b);
                lemma_expressions_go_on(ns, vars, args@, args@.len(), called);
                lemma_then(ns, vars, part, called, r);
            } else {
                lemma_expressions_pass(ns, vars, args@, args@.len(), called, k - n);
            }
        },
        Expression::ExternalFunction { loc, address, function_no } => {
            let text = crate::builder::function_use(ns, function_no);
            let def = DefinitionType::Function(function_no);
            lemma_here(ns, vars, *address, referred(hovered(b, loc, text), loc, def));
        },
        Expression::ExternalFunctionCall { function, args, call_args } => {
            let (called, n) = if *function is ExternalFunction {
                (expression_built(ns, vars, *function, b), 1int)
            } else {
                (b, 0int)
            };
            let m = args@.len() as int;
            let a = expressions_built(ns, vars, args@, args@.len(), called);
            let v = optional_built(ns, vars, call_args.value, a);
            lemma_optional_goes_on(ns, vars, call_args.value, a);
            lemma_optional_goes_on(ns, vars, call_args.gas, v);
            lemma_join_plain(a, v, r);
            if k < n {
                lemma_here(ns, vars, *function, b);
                lemma_expressions_go_on(ns, vars, args@, args@.len(), called);
                lemma_join_plain(called, a, r);
                lemma_then(ns, vars, part, called, r);
            } else if k < n + m {
                lemma_expressions_pass(ns, vars, args@, args@.len(), called, k - n);
                lemma_then(ns, vars, part, a, r);
            } else {
                lemma_options_pass(ns, vars, call_args.value, call_args.gas, a, part, k - n - m);
            }
        },
        Expression::ExternalFunctionCallRaw { address, args, call_args } => {
            let a = expression_built(ns, vars, *args, b);
            let d = expression_built(ns, vars, *address, a);
            let v = optional_built(ns, vars, call_args.value, d);
            lemma_optional_goes_on(ns, vars, call_args.value, d);
            lemma_optional_goes_on(ns, vars, call_args.gas, v);
            lemma_join_plain(d, v, r);
            if k < 2 {
                lemma_two_pass(ns, vars, *args, *address, b, part);
                lemma_then(ns, vars, part, d, r);
            } else {
                lemma_options_pass(ns, vars, call_args.value, call_args.gas, d, part, k - 2);
            }
        },
        Expression::Constructor { args, call_args } => {
            let g = optional_built(ns, vars, call_args.gas, b);
            let a = expressions_built(ns, vars, args@, args@.len(), g);
            let v = optional_built(ns, vars, call_args.value, a);
            let s = optional_built(ns, vars, call_args.salt, v);
            lemma_expressions_go_on(ns, vars, args@, args@.len(), g);
            lemma_optional_goes_on(ns, vars, call_args.value, a);
            lemma_optional_goes_on(ns, vars, call_args.salt, v);
            lemma_optional_goes_on(ns, vars, call_args.seeds, s);
            lemma_join_plain(v, s, r);
            lemma_join_plain(a, v, r);
            let n = one(call_args.gas).len() as int;
            let m = n + args@.len();
            let w = m + one(call_args.value).len();
            if k < n {
                lemma_here(ns, vars, part, b);
                lemma_join_plain(g, a, r);
                lemma_then(ns, vars, part, g, r);
            } else if k < m {
                lemma_expressions_pass(ns, vars, args@, args@.len(), g, k - n);
                lemma_then(ns, vars, part, a, r);
            } else if k < w {
                lemma_here(ns, vars, part, a);
                lemma_then(ns, vars, part, v, r);
            } else {
                lemma_options_pass(ns, vars, call_args.salt, call_args.seeds, v, part, k - w);
            }
        },
        Expression::Builtin { loc, prototype, args } => lemma_expressions_pass(
            ns,
            vars,
            args@,
            args@.len(),
            hovered(b, loc, Some(builtin_text(prototype))),
            k,
        ),
        Expression::FormatString { format } => lemma_expressions_pass(
            ns,
            vars,
            format@,
            format@.len(),
            b,
            k,
        ),
        Expression::List { list } => lemma_expressions_pass(ns, vars, list@, list@.len(), b, k),
        _ => {},
    }
}

proof fn lemma_two_pass(
    ns: Namespace,
    vars: Seq<(usize, LocalVariable)>,
    first: Expression,
    second: Expression,
    b: Option<Built>,
    part: Expression,
)
    requires
        part == first || part == second,
    ensures
        passes(
            ns,
            vars,
            part,
            expression_built(ns, vars, second, expression_built(ns, vars, first, b)),
            Touched::Nothing,
        ),
{
    let f = expression_built(ns, vars, first, b);
    lemma_here(ns, vars, first, b);
    lemma_here(ns, vars, second, f);
    if part == first {
        lemma_expression_goes_on(ns, vars, second, f);
        lemma_then(ns, vars, part, f, expression_built(ns, vars, second, f));
    }
}

proof fn lemma_options_pass(
    ns: Namespace,
    vars: Seq<(usize, LocalVariable)>,
    first: Option<Box<Expression>>,
    second: Option<Box<Expression>>,
    b: Option<Built>,
    part: Expression,
    k: int,
)
    requires
        0 <= k < (one(first) + one(second)).len(),
        (one(first) + one(second))[k] == part,
    ensures
        passes(
            ns,
            vars,
            part,
            optional_built(ns, vars, second, optional_built(ns, vars, first, b)),
            Touched::Nothing,
        ),
{
    let f = optional_built(ns, vars, first, b);
    if k < one(first).len() {
        lemma_here(ns, vars, part, b);
        lemma_optional_goes_on(ns, vars, second, f);
        lemma_then(ns, vars, part, f, optional_built(ns, vars, second, f));
    } else {
        lemma_here(ns, vars, part, f);
    }
}

/// Whether the next expression of the path is a part of the one before it.
pub open spec fn part_follows(path: Seq<Expression>, i: int) -> bool {
    parts_of(path[i]).contains(path[i + 1])
}

/// Whether a path leads from an expression down to a part of it, at any depth.
pub open spec fn leads_down(path: Seq<Expression>) -> bool {
    &&& path.len() > 0
    &&& forall|i: int| 0 <= i < path.len() - 1 ==> #[trigger] part_follows(path, i)
}

/// Of every part of an expression, however deep in it, it is said what it is.
pub proof fn law_parts_are_told(
    ns: Namespace,
    vars: Seq<(usize, LocalVariable)>,
    path: Seq<Expression>,
    b: Option<Built>,
)
    requires
        leads_down(path),
    ensures
        tells(ns, vars, path.last(), expression_built(ns, vars, path[0], b)),
    decreases path.len(),
{
    law_expressions_are_told(ns, vars, path[0], b);
    if path.len() > 1 {
        let r = expression_built(ns, vars, path[0], b);
        let rest = path.skip(1);
        assert forall|i: int| 0 <= i < rest.len() - 1 implies #[trigger] part_follows(rest, i) by {
            assert(part_follows(path, i + 1));
        }
        assert(part_follows(path, 0));
        lemma_part_passes(ns, vars, path[0], b, path[1]);
        let at = choose|at: Option<Built>|
            goes_on(#[trigger] expression_built(ns, vars, path[1], at), r, Touched::Nothing);
        law_parts_are_told(ns, vars, rest, at);
        assert(rest.last() == path.last());
        lemma_still_tells(
            ns,
            vars,
            path.last(),
            expression_built(ns, vars, path[1], at),
            r,
            Touched::Nothing,
        );
    }
}

} // verus!

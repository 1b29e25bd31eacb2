//! What is collected from the declarations of a namespace.

use vstd::prelude::*;
use vstd::utf8::encode_utf8;

use crate::builder::{
    at_top_level, defined, defined_in, expressions_built, file_at, has_members, hovered, hovered_in,
    hovered_start, implements, nothing_built, overrides, parameter_type_referred, scoped, typed,
    Built, HoverModel, NamesModel, ScopeModel,
};
use crate::contracts::{
    bases_built, contents, contract_built, contract_title, contracts_built, enums_built,
    events_built, functions_built, functions_in, namespace_built, overrides_built,
    state_variables_built, structs_built,
};
use crate::declarations::{
    all_fields_built, annotations_built, argument_variable, enum_built, event_built, field_built,
    field_names, function_built, name_loc, object_at_top_level, parameter_built, parameters_built,
    results_built, return_variable, scope_names, scopes_built, state_variable_built, struct_built,
    type_object, value_names, values_built,
};
use crate::definitions::{
    law_put_then_find, value_at, with_pair, with_pairs, Definition, DefinitionType, FieldOwner,
    StructType,
};
use crate::expression_laws::{
    goes_on, law_parts_are_told, leads_down, lemma_expressions_go_on, lemma_hovered, lemma_join,
    lemma_referred, lemma_same, lemma_still_points, lemma_still_says, lemma_still_tells,
    lemma_wider, lists, points, says, tells, touches, Touched,
};
use crate::hover_text::{code_block, expanded, parameter_text, tags_above};
use crate::namespace::{
    span, type_definition, Base, Contract, Expression, FunctionDecl, Loc, Namespace, Parameter,
    StateVariable, Statement,
};
use crate::statement_laws::{
    has_expression, keeps, law_bodies_are_told, leads_in, lemma_defined_in, lemma_defined_typed,
    lemma_hovered_in, lemma_keeps, lemma_parameter_type, lemma_some_goes_on, lemma_statements_go_on,
    lemma_still_says_in, lemma_still_tells_statement, lemma_variable_and_type, placed_at, says_in,
    tells_statement, typed_at, unknown,
};
use crate::statements::{some_expression_built, statements_built};
use crate::text::decimal;

verus! {

/// Whether no code object can be touched by both.
pub open spec fn apart(s: Touched, t: Touched) -> bool {
    forall|d: DefinitionType| !(#[trigger] touches(s, d) && touches(t, d))
}

/// Whether nothing is known yet of where the code objects are defined.
pub open spec fn fresh(b: Option<Built>, t: Touched) -> bool {
    forall|d: DefinitionType| #[trigger] touches(t, d) ==> unknown(b, d)
}

proof fn lemma_still_unknown(a: Option<Built>, b: Option<Built>, d: DefinitionType)
    requires
        unknown(a, d),
        keeps(a, b, d),
    ensures
        unknown(b, d),
{
}

proof fn lemma_still_fresh(a: Option<Built>, b: Option<Built>, s: Touched, t: Touched)
    requires
        goes_on(a, b, s),
        apart(s, t),
        fresh(a, t),
    ensures
        fresh(b, t),
{
    assert forall|d: DefinitionType| #[trigger] touches(t, d) implies unknown(b, d) by {
        assert(!touches(s, d));
        lemma_keeps(a, b, s, d);
        lemma_still_unknown(a, b, d);
    }
}

proof fn lemma_still_placed(
    ns: Namespace,
    a: Option<Built>,
    b: Option<Built>,
    file_loc: Loc,
    loc: Loc,
    def: DefinitionType,
)
    requires
        placed_at(ns, a, file_loc, loc, def),
        keeps(a, b, def),
    ensures
        placed_at(ns, b, file_loc, loc, def),
{
}

proof fn lemma_still_typed(
    ns: Namespace,
    a: Option<Built>,
    b: Option<Built>,
    loc: Loc,
    def: DefinitionType,
    ty: DefinitionType,
)
    requires
        typed_at(ns, a, loc, def, ty),
        keeps(a, b, def),
    ensures
        typed_at(ns, b, loc, def, ty),
{
}

/// Whether a code object of a file is named at the top level of the file.
pub open spec fn named_on_top(
    ns: Namespace,
    b: Option<Built>,
    file_loc: Loc,
    name: Seq<char>,
    def: DefinitionType,
) -> bool {
    b is Some ==> file_at(ns, file_loc) is Some && b->Some_0.top_level.contains(
        (
            file_loc->File_0,
            (name, Some(Definition { path: file_at(ns, file_loc)->Some_0.path@, def })),
        ),
    )
}

proof fn lemma_still_on_top(
    ns: Namespace,
    a: Option<Built>,
    b: Option<Built>,
    t: Touched,
    file_loc: Loc,
    name: Seq<char>,
    def: DefinitionType,
)
    requires
        goes_on(a, b, t),
        named_on_top(ns, a, file_loc, name, def),
    ensures
        named_on_top(ns, b, file_loc, name, def),
{
    reveal(goes_on);
    if b is Some {
        let x = (
            file_loc->File_0,
            (name, Some(Definition { path: file_at(ns, file_loc)->Some_0.path@, def })),
        );
        let k = choose|k: int| 0 <= k < a->Some_0.top_level.len() && a->Some_0.top_level[k] == x;
        assert(b->Some_0.top_level[k] == x);
    }
}

proof fn lemma_top_level(
    b: Option<Built>,
    file_loc: Loc,
    name: Seq<char>,
    object: Option<Definition>,
)
    ensures
        goes_on(b, at_top_level(b, file_loc, name, object), Touched::Nothing),
        at_top_level(b, file_loc, name, object) is Some ==> file_loc is File && at_top_level(
            b,
            file_loc,
            name,
            object,
        )->Some_0.top_level.contains((file_loc->File_0, (name, object))),
{
    reveal(goes_on);
    reveal(at_top_level);
    let r = at_top_level(b, file_loc, name, object);
    if r is Some {
        let n = b->Some_0.top_level.len() as int;
        assert(r->Some_0.top_level[n] == r->Some_0.top_level.last());
    }
}

proof fn lemma_object_on_top(
    ns: Namespace,
    b: Option<Built>,
    file_loc: Loc,
    name: Seq<char>,
    def: DefinitionType,
)
    ensures
        goes_on(b, object_at_top_level(ns, b, file_loc, name, def), Touched::Nothing),
        named_on_top(ns, object_at_top_level(ns, b, file_loc, name, def), file_loc, name, def),
{
    match file_at(ns, file_loc) {
        Some(file) => lemma_top_level(
            b,
            file_loc,
            name,
            Some(Definition { path: file.path@, def }),
        ),
        None => {
            reveal(goes_on);
        },
    }
}

/// Whether a code object of the file in which `file_loc` lies is known to have these members.
pub open spec fn members_at(
    ns: Namespace,
    b: Option<Built>,
    file_loc: Loc,
    def: DefinitionType,
    names: NamesModel,
) -> bool {
    b is Some ==> file_at(ns, file_loc) is Some && value_at(
        b->Some_0.properties,
        Definition { path: file_at(ns, file_loc)->Some_0.path@, def },
    ) == Some(names)
}

/// Whether a code object of the file in which `file_loc` lies is known to implement these functions.
pub open spec fn implements_at(
    ns: Namespace,
    b: Option<Built>,
    file_loc: Loc,
    def: DefinitionType,
    functions: Seq<Definition>,
) -> bool {
    b is Some ==> file_at(ns, file_loc) is Some && value_at(
        b->Some_0.implementations,
        Definition { path: file_at(ns, file_loc)->Some_0.path@, def },
    ) == Some(functions)
}

/// Whether exactly this range of the file in which `file_loc` lies names these things.
pub open spec fn names_in(b: Option<Built>, file_loc: Loc, loc: Loc, names: NamesModel) -> bool {
    b is Some ==> file_loc is File && span(loc) is Some && b->Some_0.scopes.contains(
        ScopeModel {
            file_no: file_loc->File_0,
            start: span(loc)->Some_0.1,
            stop: span(loc)->Some_0.2,
            val: names,
        },
    )
}

proof fn lemma_still_names(
    a: Option<Built>,
    b: Option<Built>,
    t: Touched,
    file_loc: Loc,
    loc: Loc,
    names: NamesModel,
)
    requires
        goes_on(a, b, t),
        names_in(a, file_loc, loc, names),
    ensures
        names_in(b, file_loc, loc, names),
{
    reveal(goes_on);
    if b is Some {
        let s = ScopeModel {
            file_no: file_loc->File_0,
            start: span(loc)->Some_0.1,
            stop: span(loc)->Some_0.2,
            val: names,
        };
        let k = choose|k: int| 0 <= k < a->Some_0.scopes.len() && a->Some_0.scopes[k] == s;
        assert(b->Some_0.scopes[k] == s);
    }
}

proof fn lemma_scoped(b: Option<Built>, file_loc: Loc, loc: Loc, names: NamesModel)
    ensures
        goes_on(b, scoped(b, file_loc, loc, names), Touched::Nothing),
        names_in(scoped(b, file_loc, loc, names), file_loc, loc, names),
{
    reveal(goes_on);
    reveal(scoped);
    let r = scoped(b, file_loc, loc, names);
    if r is Some {
        let n = b->Some_0.scopes.len() as int;
        assert(r->Some_0.scopes[n] == r->Some_0.scopes.last());
    }
}

proof fn lemma_still_listed(
    ns: Namespace,
    a: Option<Built>,
    b: Option<Built>,
    t: Touched,
    file_loc: Loc,
    def: DefinitionType,
)
    requires
        goes_on(a, b, t),
        !lists(t, def),
    ensures
        forall|names: NamesModel|
            members_at(ns, a, file_loc, def, names) ==> #[trigger] members_at(
                ns,
                b,
                file_loc,
                def,
                names,
            ),
        forall|functions: Seq<Definition>|
            implements_at(ns, a, file_loc, def, functions) ==> #[trigger] implements_at(
                ns,
                b,
                file_loc,
                def,
                functions,
            ),
{
    reveal(goes_on);
    if b is Some && file_at(ns, file_loc) is Some {
        let key = Definition { path: file_at(ns, file_loc)->Some_0.path@, def };
        assert(value_at(b->Some_0.properties, key) == value_at(a->Some_0.properties, key));
        assert(value_at(b->Some_0.implementations, key) == value_at(
            a->Some_0.implementations,
            key,
        ));
    }
}

proof fn lemma_put_at<V>(pairs: Seq<(Definition, V)>, key: Definition, value: V)
    ensures
        value_at(with_pair(pairs, key, value), key) == Some(value),
        forall|other: Definition|
            other != key ==> #[trigger] value_at(with_pair(pairs, key, value), other) == value_at(
                pairs,
                other,
            ),
{
    let longer = Definition { path: key.path.push('x'), def: key.def };
    assert(longer.path.len() != key.path.len());
    law_put_then_find(pairs, key, value, longer);
    assert forall|other: Definition| other != key implies #[trigger] value_at(
        with_pair(pairs, key, value),
        other,
    ) == value_at(pairs, other) by {
        law_put_then_find(pairs, key, value, other);
    }
}

proof fn lemma_members(
    ns: Namespace,
    b: Option<Built>,
    file_loc: Loc,
    def: DefinitionType,
    names: NamesModel,
)
    ensures
        goes_on(b, has_members(ns, b, file_loc, def, names), Touched::Lists(def)),
        members_at(ns, has_members(ns, b, file_loc, def, names), file_loc, def, names),
{
    reveal(goes_on);
    reveal(has_members);
    if b is Some && file_at(ns, file_loc) is Some {
        let key = Definition { path: file_at(ns, file_loc)->Some_0.path@, def };
        lemma_put_at(b->Some_0.properties, key, names);
    }
}

proof fn lemma_implements(
    ns: Namespace,
    b: Option<Built>,
    file_loc: Loc,
    def: DefinitionType,
    functions: Seq<Definition>,
)
    ensures
        goes_on(b, implements(ns, b, file_loc, def, functions), Touched::Lists(def)),
        implements_at(ns, implements(ns, b, file_loc, def, functions), file_loc, def, functions),
{
    reveal(goes_on);
    reveal(implements);
    if b is Some && file_at(ns, file_loc) is Some {
        let key = Definition { path: file_at(ns, file_loc)->Some_0.path@, def };
        lemma_put_at(b->Some_0.implementations, key, functions);
    }
}

/// The location of the name of a parameter, or else its own.
pub open spec fn name_place(param: Parameter) -> Loc {
    if param.id is Some {
        param.id->Some_0.loc
    } else {
        param.loc
    }
}

/// Whether the field `k` is defined where its name stands, is shown with its type and name, and is
/// of its type, which is referred to where it is written.
pub open spec fn tells_field(
    ns: Namespace,
    owner: FieldOwner,
    fields: Seq<Parameter>,
    k: int,
    b: Option<Built>,
) -> bool {
    let field = fields[k];
    let def = DefinitionType::Field(owner, k as usize);
    &&& placed_at(ns, b, name_place(field), name_place(field), def)
    &&& says(
        b,
        name_place(field),
        code_block(
            field.ty.text@ + " "@ + (match field.id {
                Some(id) => id.name@,
                None => ""@,
            }),
        ),
    )
    &&& type_definition(field.ty) is Some ==> typed_at(
        ns,
        b,
        name_place(field),
        def,
        type_definition(field.ty)->Some_0,
    )
    &&& type_definition(field.ty) is Some && field.ty_loc is Some ==> points(
        b,
        field.ty_loc->Some_0,
        type_definition(field.ty)->Some_0,
    )
}

proof fn lemma_still_tells_field(
    ns: Namespace,
    owner: FieldOwner,
    fields: Seq<Parameter>,
    k: int,
    a: Option<Built>,
    b: Option<Built>,
    t: Touched,
)
    requires
        tells_field(ns, owner, fields, k, a),
        goes_on(a, b, t),
        keeps(a, b, DefinitionType::Field(owner, k as usize)),
    ensures
        tells_field(ns, owner, fields, k, b),
{
    let field = fields[k];
    lemma_still_says(
        a,
        b,
        t,
        name_place(field),
        code_block(
            field.ty.text@ + " "@ + (match field.id {
                Some(id) => id.name@,
                None => ""@,
            }),
        ),
    );
    if type_definition(field.ty) is Some && field.ty_loc is Some {
        lemma_still_points(a, b, t, field.ty_loc->Some_0, type_definition(field.ty)->Some_0);
    }
}

proof fn lemma_field(
    ns: Namespace,
    owner: FieldOwner,
    fields: Seq<Parameter>,
    k: int,
    b: Option<Built>,
    t: Touched,
)
    requires
        0 <= k < fields.len(),
        touches(t, DefinitionType::Field(owner, k as usize)),
    ensures
        ({
            let r = field_built(ns, owner, k as usize, fields[k], b);
            let def = DefinitionType::Field(owner, k as usize);
            &&& goes_on(b, r, t)
            &&& unknown(b, def) ==> tells_field(ns, owner, fields, k, r)
            &&& forall|other: DefinitionType| other != def ==> #[trigger] keeps(b, r, other)
        }),
{
    let field = fields[k];
    let loc = name_loc(field);
    let def = DefinitionType::Field(owner, k as usize);
    let r = field_built(ns, owner, k as usize, field, b);
    let p = parameter_type_referred(b, field);
    let text = code_block(parameter_text(field));
    let shown = hovered(p, loc, Some(text));
    lemma_parameter_type(b, field);
    lemma_hovered(p, loc, Some(text));
    lemma_defined_typed(ns, shown, loc, def, type_definition(field.ty), t);
    lemma_join(b, p, shown, Touched::Nothing, Touched::Nothing, Touched::Nothing);
    lemma_join(b, shown, r, Touched::Nothing, t, t);
    lemma_keeps(b, shown, Touched::Nothing, def);
    if unknown(b, def) {
        lemma_still_unknown(b, shown, def);
        lemma_still_says(shown, r, t, loc, text);
        if field.ty_loc is Some && type_definition(field.ty) is Some {
            let ty_loc = field.ty_loc->Some_0;
            let ty = type_definition(field.ty)->Some_0;
            lemma_still_points(p, shown, Touched::Nothing, ty_loc, ty);
            lemma_still_points(shown, r, t, ty_loc, ty);
        }
    }
    assert forall|other: DefinitionType| other != def implies #[trigger] keeps(b, r, other) by {
        lemma_keeps(b, shown, Touched::Nothing, other);
        assert(keeps(shown, r, other));
    }
}

proof fn lemma_all_fields(
    ns: Namespace,
    owner: FieldOwner,
    fields: Seq<Parameter>,
    n: nat,
    b: Option<Built>,
    t: Touched,
)
    requires
        n <= fields.len() <= usize::MAX,
        forall|k: usize| #[trigger] touches(t, DefinitionType::Field(owner, k)),
    ensures
        ({
            let r = all_fields_built(ns, owner, fields, n, b);
            &&& goes_on(b, r, t)
            &&& forall|k: int|
                0 <= k < n && unknown(b, DefinitionType::Field(owner, k as usize))
                    ==> #[trigger] tells_field(ns, owner, fields, k, r)
            &&& forall|k: usize|
                k >= n ==> #[trigger] keeps(b, r, DefinitionType::Field(owner, k))
            &&& forall|other: DefinitionType|
                !(other is Field && other->Field_0 == owner) ==> #[trigger] keeps(b, r, other)
        }),
    decreases n,
{
    let r = all_fields_built(ns, owner, fields, n, b);
    lemma_same(b);
    lemma_wider(b, b, Touched::Nothing, t);
    if n > 0 {
        let m = (n - 1) as nat;
        let before = all_fields_built(ns, owner, fields, m, b);
        lemma_all_fields(ns, owner, fields, m, b, t);
        assert(touches(t, DefinitionType::Field(owner, m as usize)));
        lemma_field(ns, owner, fields, m as int, before, t);
        lemma_join(b, before, r, t, t, t);
        let last = DefinitionType::Field(owner, m as usize);
        assert forall|k: int|
            0 <= k < n && unknown(b, DefinitionType::Field(owner, k as usize)) implies
            #[trigger] tells_field(ns, owner, fields, k, r) by {
            let def = DefinitionType::Field(owner, k as usize);
            if k < m {
                assert(def != last);
                assert(keeps(before, r, def));
                lemma_still_tells_field(ns, owner, fields, k, before, r, t);
            } else {
                assert(keeps(b, before, DefinitionType::Field(owner, k as usize)));
                lemma_still_unknown(b, before, def);
            }
        }
        assert forall|k: usize| k >= n implies #[trigger] keeps(
            b,
            r,
            DefinitionType::Field(owner, k),
        ) by {
            assert(keeps(b, before, DefinitionType::Field(owner, k)));
            assert(keeps(before, r, DefinitionType::Field(owner, k)));
        }
        assert forall|other: DefinitionType|
            !(other is Field && other->Field_0 == owner) implies #[trigger] keeps(b, r, other) by {
            assert(keeps(b, before, other));
            assert(keeps(before, r, other));
        }
    }
}

/// Whether what was collected says of an enum where it and its values are defined, and shows them.
pub open spec fn tells_enum(ns: Namespace, i: int, b: Option<Built>) -> bool {
    let decl = ns.enums@[i];
    let def = DefinitionType::Enum(i as usize);
    &&& placed_at(ns, b, decl.id.loc, decl.id.loc, def)
    &&& says(b, decl.id.loc, decl.tags@)
    &&& decl.contract is None ==> named_on_top(ns, b, decl.id.loc, decl.id.name@, def)
    &&& members_at(ns, b, decl.id.loc, def, value_names(decl.values@, decl.values@.len()))
    &&& forall|k: int| 0 <= k < decl.values@.len() ==> #[trigger] tells_value(ns, i, k, b)
}

/// Whether the value `k` of an enum is defined where it stands, as one of the enum, and is shown with
/// its name and number.
pub open spec fn tells_value(ns: Namespace, i: int, k: int, b: Option<Built>) -> bool {
    let decl = ns.enums@[i];
    let (name, loc) = decl.values@[k];
    let def = DefinitionType::Variant(i as usize, k as usize);
    &&& placed_at(ns, b, loc, loc, def)
    &&& typed_at(ns, b, loc, def, DefinitionType::Enum(i as usize))
    &&& says(
        b,
        loc,
        code_block("enum "@ + decl.id.name@ + "."@ + name@ + " "@ + decimal(k as nat)),
    )
}

/// Whether what was collected says of a struct where it and its fields are defined, and shows them.
/// Structs of the language itself are left out.
pub open spec fn tells_struct(ns: Namespace, i: int, b: Option<Built>) -> bool {
    let decl = ns.structs@[i];
    let st = StructType::UserDefined(i as usize);
    decl.loc is File ==> {
        &&& placed_at(ns, b, decl.id.loc, decl.id.loc, DefinitionType::Struct(st))
        &&& says(b, decl.id.loc, decl.tags@)
        &&& decl.contract is None ==> named_on_top(
            ns,
            b,
            decl.id.loc,
            decl.id.name@,
            DefinitionType::Struct(st),
        )
        &&& members_at(
            ns,
            b,
            decl.id.loc,
            DefinitionType::Struct(st),
            field_names(
                decl.fields@,
                file_at(ns, decl.id.loc)->Some_0.path@,
                decl.fields@.len(),
            ),
        )
        &&& forall|k: int|
            0 <= k < decl.fields@.len() ==> #[trigger] tells_field(
                ns,
                FieldOwner::Struct(st),
                decl.fields@,
                k,
                b,
            )
    }
}

/// Whether what was collected says of an event where it and its fields are defined, and shows them.
pub open spec fn tells_event(ns: Namespace, i: int, b: Option<Built>) -> bool {
    let decl = ns.events@[i];
    let def = DefinitionType::Event(i as usize);
    &&& placed_at(ns, b, decl.id.loc, decl.id.loc, def)
    &&& says(b, decl.id.loc, decl.tags@)
    &&& decl.contract is None ==> named_on_top(ns, b, decl.id.loc, decl.id.name@, def)
    &&& forall|k: int|
        0 <= k < decl.fields@.len() ==> #[trigger] tells_field(
            ns,
            FieldOwner::Event(i as usize),
            decl.fields@,
            k,
            b,
        )
}

/// Whether a parameter or a return value is shown with its type, which is referred to where it is
/// written.
pub open spec fn tells_parameter(ns: Namespace, param: Parameter, b: Option<Built>) -> bool {
    &&& b is Some ==> expanded(ns, param.ty) is Some
    &&& says(b, name_place(param), expanded(ns, param.ty)->Some_0)
    &&& type_definition(param.ty) is Some && param.ty_loc is Some ==> points(
        b,
        param.ty_loc->Some_0,
        type_definition(param.ty)->Some_0,
    )
}

/// Whether what was collected says of a function where it is defined, and what its parameters, its
/// statements and their expressions are, however deep they stand. Functions that the compiler made
/// are left out.
pub open spec fn tells_function(ns: Namespace, i: int, b: Option<Built>) -> bool {
    let f = ns.functions@[i];
    let def = DefinitionType::Function(i as usize);
    !f.is_accessor && !(f.loc is Builtin) ==> {
        &&& placed_at(ns, b, f.id.loc, f.id.loc, def)
        &&& named_on_top(ns, b, f.id.loc, f.id.name@, def)
        &&& forall|k: int|
            0 <= k < f.params@.len() ==> #[trigger] tells_parameter(ns, f.params@[k], b)
        &&& forall|k: int|
            0 <= k < f.returns@.len() ==> #[trigger] tells_parameter(ns, f.returns@[k], b)
        &&& forall|k: int| 0 <= k < f.symtable.scopes@.len() ==> #[trigger] tells_scope(f, k, b)
        &&& tells_body(ns, f, b)
    }
}

/// Whether the range of a scope is known to name the variables of the scope.
pub open spec fn tells_scope(f: FunctionDecl, k: int, b: Option<Built>) -> bool {
    let scope = f.symtable.scopes@[k];
    &&& b is Some ==> scope.loc is Some
    &&& names_in(
        b,
        f.id.loc,
        scope.loc->Some_0,
        scope_names(f.symtable, scope.names@, scope.names@.len()),
    )
}

pub open spec fn tells_body(ns: Namespace, f: FunctionDecl, b: Option<Built>) -> bool {
    &&& forall|path: Seq<Statement>|
        (#[trigger] leads_in(path)) && f.body@.contains(path[0]) ==> tells_statement(
            ns,
            f.symtable.vars@,
            path.last(),
            b,
        )
    &&& forall|path: Seq<Statement>, es: Seq<Expression>|
        (#[trigger] leads_in(path)) && f.body@.contains(path[0]) && (#[trigger] leads_down(es))
            && has_expression(path.last(), es[0]) ==> tells(ns, f.symtable.vars@, es.last(), b)
}

/// Whether a state variable, or a constant outside of all contracts, is defined where its name stands,
/// is shown there with its type and name, and what its value is made of.
pub open spec fn tells_variable(
    ns: Namespace,
    variables: Seq<StateVariable>,
    c: Option<usize>,
    i: int,
    b: Option<Built>,
) -> bool {
    let v = variables[i];
    let def = DefinitionType::NonLocalVariable(c, i as usize);
    &&& placed_at(ns, b, v.loc, v.loc, def)
    &&& type_definition(v.ty) is Some ==> typed_at(
        ns,
        b,
        v.loc,
        def,
        type_definition(v.ty)->Some_0,
    )
    &&& b is Some ==> v.loc is File && b->Some_0.hovers.contains(
        HoverModel {
            file_no: v.loc->File_0,
            start: v.loc->File_1,
            stop: (v.loc->File_1 + encode_utf8(v.name@).len()) as usize,
            val: tags_above(v.tags@) + code_block(v.ty.text@ + " "@ + v.name@),
        },
    )
    &&& v.initializer is Some ==> forall|es: Seq<Expression>|
        (#[trigger] leads_down(es)) && es[0] == v.initializer->Some_0 ==> tells(
            ns,
            Seq::empty(),
            es.last(),
            b,
        )
}

/// Whether what was collected says of a contract where it and its variables are defined, shows them,
/// refers to the bases where they are named, and says what the contract names and implements.
pub open spec fn tells_contract(ns: Namespace, i: int, b: Option<Built>) -> bool {
    let contract = ns.contracts@[i];
    let def = DefinitionType::Contract(i as usize);
    let path = file_at(ns, contract.loc)->Some_0.path@;
    let names = contents(ns, contract, i as usize, path);
    &&& implements_at(ns, b, contract.loc, def, functions_in(path, contract.functions@))
    &&& members_at(ns, b, contract.loc, def, with_pairs(Seq::empty(), names, names.len()))
    &&& names_in(b, contract.loc, contract.loc, names)
    &&& placed_at(ns, b, contract.loc, contract.id.loc, def)
    &&& says_in(b, contract.loc, contract.id.loc, contract.tags@)
    &&& named_on_top(ns, b, contract.loc, contract.id.name@, def)
    &&& forall|k: int|
        0 <= k < contract.bases@.len() ==> #[trigger] tells_base(ns, contract.bases@[k], b)
    &&& forall|k: int|
        0 <= k < contract.variables@.len() ==> #[trigger] tells_variable(
            ns,
            contract.variables@,
            Some(i as usize),
            k,
            b,
        )
}

/// Whether a base is referred to, and shown with its name.
pub open spec fn tells_base(ns: Namespace, base: Base, b: Option<Built>) -> bool {
    &&& points(b, base.loc, DefinitionType::Contract(base.contract_no))
    &&& b is Some ==> base.contract_no < ns.contracts@.len()
    &&& says(
        b,
        base.loc,
        code_block("contract "@ + ns.contracts@[base.contract_no as int].id.name@),
    )
}

proof fn lemma_still_tells_value(
    ns: Namespace,
    i: int,
    k: int,
    a: Option<Built>,
    b: Option<Built>,
    t: Touched,
)
    requires
        tells_value(ns, i, k, a),
        goes_on(a, b, t),
        keeps(a, b, DefinitionType::Variant(i as usize, k as usize)),
    ensures
        tells_value(ns, i, k, b),
{
    let decl = ns.enums@[i];
    let (name, loc) = decl.values@[k];
    lemma_still_says(
        a,
        b,
        t,
        loc,
        code_block("enum "@ + decl.id.name@ + "."@ + name@ + " "@ + decimal(k as nat)),
    );
}

proof fn lemma_still_tells_enum(ns: Namespace, i: int, a: Option<Built>, b: Option<Built>, t: Touched)
    requires
        tells_enum(ns, i, a),
        goes_on(a, b, t),
        apart(Touched::Enum(i as usize), t),
        !(t is Lists),
    ensures
        tells_enum(ns, i, b),
{
    let decl = ns.enums@[i];
    let own = Touched::Enum(i as usize);
    let def = DefinitionType::Enum(i as usize);
    assert(touches(own, def));
    lemma_keeps(a, b, t, def);
    lemma_still_listed(ns, a, b, t, decl.id.loc, def);
    lemma_still_says(a, b, t, decl.id.loc, decl.tags@);
    if decl.contract is None {
        lemma_still_on_top(ns, a, b, t, decl.id.loc, decl.id.name@, def);
    }
    assert forall|k: int| 0 <= k < decl.values@.len() implies #[trigger] tells_value(
        ns,
        i,
        k,
        b,
    ) by {
        assert(tells_value(ns, i, k, a));
        assert(touches(own, DefinitionType::Variant(i as usize, k as usize)));
        lemma_keeps(a, b, t, DefinitionType::Variant(i as usize, k as usize));
        lemma_still_tells_value(ns, i, k, a, b, t);
    }
}

proof fn lemma_still_tells_struct(
    ns: Namespace,
    i: int,
    a: Option<Built>,
    b: Option<Built>,
    t: Touched,
)
    requires
        tells_struct(ns, i, a),
        goes_on(a, b, t),
        apart(Touched::Struct(i as usize), t),
        !(t is Lists),
    ensures
        tells_struct(ns, i, b),
{
    let decl = ns.structs@[i];
    let own = Touched::Struct(i as usize);
    let st = StructType::UserDefined(i as usize);
    let def = DefinitionType::Struct(st);
    if decl.loc is File {
        assert(touches(own, def));
        lemma_keeps(a, b, t, def);
        lemma_still_listed(ns, a, b, t, decl.id.loc, def);
        lemma_still_says(a, b, t, decl.id.loc, decl.tags@);
        if decl.contract is None {
            lemma_still_on_top(ns, a, b, t, decl.id.loc, decl.id.name@, def);
        }
        let owner = FieldOwner::Struct(st);
        assert forall|k: int| 0 <= k < decl.fields@.len() implies #[trigger] tells_field(
            ns,
            owner,
            decl.fields@,
            k,
            b,
        ) by {
            assert(tells_field(ns, owner, decl.fields@, k, a));
            assert(touches(own, DefinitionType::Field(owner, k as usize)));
            lemma_keeps(a, b, t, DefinitionType::Field(owner, k as usize));
            lemma_still_tells_field(ns, owner, decl.fields@, k, a, b, t);
        }
    }
}

proof fn lemma_still_tells_event(
    ns: Namespace,
    i: int,
    a: Option<Built>,
    b: Option<Built>,
    t: Touched,
)
    requires
        tells_event(ns, i, a),
        goes_on(a, b, t),
        apart(Touched::Event(i as usize), t),
    ensures
        tells_event(ns, i, b),
{
    let decl = ns.events@[i];
    let own = Touched::Event(i as usize);
    let def = DefinitionType::Event(i as usize);
    assert(touches(own, def));
    lemma_keeps(a, b, t, def);
    lemma_still_says(a, b, t, decl.id.loc, decl.tags@);
    if decl.contract is None {
        lemma_still_on_top(ns, a, b, t, decl.id.loc, decl.id.name@, def);
    }
    let owner = FieldOwner::Event(i as usize);
    assert forall|k: int| 0 <= k < decl.fields@.len() implies #[trigger] tells_field(
        ns,
        owner,
        decl.fields@,
        k,
        b,
    ) by {
        assert(tells_field(ns, owner, decl.fields@, k, a));
        assert(touches(own, DefinitionType::Field(owner, k as usize)));
        lemma_keeps(a, b, t, DefinitionType::Field(owner, k as usize));
        lemma_still_tells_field(ns, owner, decl.fields@, k, a, b, t);
    }
}

proof fn lemma_still_tells_parameter(
    ns: Namespace,
    param: Parameter,
    a: Option<Built>,
    b: Option<Built>,
    t: Touched,
)
    requires
        tells_parameter(ns, param, a),
        goes_on(a, b, t),
    ensures
        tells_parameter(ns, param, b),
{
    assert(b is Some ==> a is Some) by {
        reveal(goes_on);
    }
    lemma_still_says(a, b, t, name_place(param), expanded(ns, param.ty)->Some_0);
    if type_definition(param.ty) is Some && param.ty_loc is Some {
        lemma_still_points(a, b, t, param.ty_loc->Some_0, type_definition(param.ty)->Some_0);
    }
}

proof fn lemma_still_tells_body(
    ns: Namespace,
    f: FunctionDecl,
    a: Option<Built>,
    b: Option<Built>,
    t: Touched,
)
    requires
        tells_body(ns, f, a),
        goes_on(a, b, t),
    ensures
        tells_body(ns, f, b),
{
    let vars = f.symtable.vars@;
    assert forall|path: Seq<Statement>|
        (#[trigger] leads_in(path)) && f.body@.contains(path[0]) implies tells_statement(
        ns,
        vars,
        path.last(),
        b,
    ) by {
        lemma_still_tells_statement(ns, vars, path.last(), a, b, t);
    }
    assert forall|path: Seq<Statement>, es: Seq<Expression>|
        (#[trigger] leads_in(path)) && f.body@.contains(path[0]) && (#[trigger] leads_down(es))
            && has_expression(path.last(), es[0]) implies tells(ns, vars, es.last(), b) by {
        lemma_still_tells(ns, vars, es.last(), a, b, t);
    }
}

proof fn lemma_still_tells_function(
    ns: Namespace,
    i: int,
    a: Option<Built>,
    b: Option<Built>,
    t: Touched,
)
    requires
        tells_function(ns, i, a),
        goes_on(a, b, t),
        !touches(t, DefinitionType::Function(i as usize)),
    ensures
        tells_function(ns, i, b),
{
    let f = ns.functions@[i];
    let def = DefinitionType::Function(i as usize);
    if !f.is_accessor && !(f.loc is Builtin) {
        lemma_keeps(a, b, t, def);
        lemma_still_on_top(ns, a, b, t, f.id.loc, f.id.name@, def);
        assert forall|k: int| 0 <= k < f.params@.len() implies #[trigger] tells_parameter(
            ns,
            f.params@[k],
            b,
        ) by {
            lemma_still_tells_parameter(ns, f.params@[k], a, b, t);
        }
        assert forall|k: int| 0 <= k < f.returns@.len() implies #[trigger] tells_parameter(
            ns,
            f.returns@[k],
            b,
        ) by {
            lemma_still_tells_parameter(ns, f.returns@[k], a, b, t);
        }
        assert forall|k: int| 0 <= k < f.symtable.scopes@.len() implies #[trigger] tells_scope(
            f,
            k,
            b,
        ) by {
            assert(tells_scope(f, k, a));
            lemma_still_tells_scope(f, k, a, b, t);
        }
        lemma_still_tells_body(ns, f, a, b, t);
    }
}

proof fn lemma_still_tells_variable(
    ns: Namespace,
    variables: Seq<StateVariable>,
    c: Option<usize>,
    i: int,
    a: Option<Built>,
    b: Option<Built>,
    t: Touched,
)
    requires
        tells_variable(ns, variables, c, i, a),
        goes_on(a, b, t),
        !touches(t, DefinitionType::NonLocalVariable(c, i as usize)),
    ensures
        tells_variable(ns, variables, c, i, b),
{
    let v = variables[i];
    lemma_keeps(a, b, t, DefinitionType::NonLocalVariable(c, i as usize));
    if b is Some {
        reveal(goes_on);
        let h = HoverModel {
            file_no: v.loc->File_0,
            start: v.loc->File_1,
            stop: (v.loc->File_1 + encode_utf8(v.name@).len()) as usize,
            val: tags_above(v.tags@) + code_block(v.ty.text@ + " "@ + v.name@),
        };
        let k = choose|k: int| 0 <= k < a->Some_0.hovers.len() && a->Some_0.hovers[k] == h;
        assert(b->Some_0.hovers[k] == h);
    }
    if v.initializer is Some {
        assert forall|es: Seq<Expression>|
            (#[trigger] leads_down(es)) && es[0] == v.initializer->Some_0 implies tells(
            ns,
            Seq::empty(),
            es.last(),
            b,
        ) by {
            lemma_still_tells(ns, Seq::empty(), es.last(), a, b, t);
        }
    }
}

proof fn lemma_still_tells_base(
    ns: Namespace,
    base: Base,
    a: Option<Built>,
    b: Option<Built>,
    t: Touched,
)
    requires
        tells_base(ns, base, a),
        goes_on(a, b, t),
    ensures
        tells_base(ns, base, b),
{
    assert(b is Some ==> a is Some) by {
        reveal(goes_on);
    }
    lemma_still_points(a, b, t, base.loc, DefinitionType::Contract(base.contract_no));
    lemma_still_says(
        a,
        b,
        t,
        base.loc,
        code_block("contract "@ + ns.contracts@[base.contract_no as int].id.name@),
    );
}

proof fn lemma_still_tells_contract(
    ns: Namespace,
    i: int,
    a: Option<Built>,
    b: Option<Built>,
    t: Touched,
)
    requires
        tells_contract(ns, i, a),
        goes_on(a, b, t),
        apart(Touched::Contract(i as usize), t),
        !(t is Lists),
    ensures
        tells_contract(ns, i, b),
{
    let contract = ns.contracts@[i];
    let own = Touched::Contract(i as usize);
    let def = DefinitionType::Contract(i as usize);
    assert(touches(own, def));
    lemma_keeps(a, b, t, def);
    lemma_still_listed(ns, a, b, t, contract.loc, def);
    lemma_still_names(
        a,
        b,
        t,
        contract.loc,
        contract.loc,
        contents(ns, contract, i as usize, file_at(ns, contract.loc)->Some_0.path@),
    );
    lemma_still_says_in(a, b, t, contract.loc, contract.id.loc, contract.tags@);
    lemma_still_on_top(ns, a, b, t, contract.loc, contract.id.name@, def);
    assert forall|k: int| 0 <= k < contract.bases@.len() implies #[trigger] tells_base(
        ns,
        contract.bases@[k],
        b,
    ) by {
        lemma_still_tells_base(ns, contract.bases@[k], a, b, t);
    }
    assert forall|k: int| 0 <= k < contract.variables@.len() implies #[trigger] tells_variable(
        ns,
        contract.variables@,
        Some(i as usize),
        k,
        b,
    ) by {
        assert(tells_variable(ns, contract.variables@, Some(i as usize), k, a));
        assert(touches(own, DefinitionType::NonLocalVariable(Some(i as usize), k as usize)));
        lemma_still_tells_variable(ns, contract.variables@, Some(i as usize), k, a, b, t);
    }
}

proof fn lemma_values(ns: Namespace, i: int, n: nat, b: Option<Built>)
    requires
        0 <= i < ns.enums@.len(),
        n <= ns.enums@[i].values@.len() <= usize::MAX,
    ensures
        ({
            let r = values_built(ns, ns.enums@[i], i as usize, n, b);
            &&& goes_on(b, r, Touched::Enum(i as usize))
            &&& forall|k: int|
                0 <= k < n && unknown(b, DefinitionType::Variant(i as usize, k as usize))
                    ==> #[trigger] tells_value(ns, i, k, r)
            &&& forall|k: usize|
                k >= n ==> #[trigger] keeps(b, r, DefinitionType::Variant(i as usize, k))
            &&& keeps(b, r, DefinitionType::Enum(i as usize))
        }),
    decreases n,
{
    let decl = ns.enums@[i];
    let ei = i as usize;
    let t = Touched::Enum(ei);
    let r = values_built(ns, decl, ei, n, b);
    lemma_same(b);
    lemma_wider(b, b, Touched::Nothing, t);
    if n > 0 {
        let m = (n - 1) as nat;
        let before = values_built(ns, decl, ei, m, b);
        lemma_values(ns, i, m, b);
        let (name, loc) = decl.values@[m as int];
        let def = DefinitionType::Variant(ei, m as usize);
        let text = code_block("enum "@ + decl.id.name@ + "."@ + name@ + " "@ + decimal(m));
        let shown = hovered(before, loc, Some(text));
        lemma_hovered(before, loc, Some(text));
        lemma_defined_typed(ns, shown, loc, def, Some(DefinitionType::Enum(ei)), t);
        lemma_join(before, shown, r, Touched::Nothing, t, t);
        lemma_join(b, before, r, t, t, t);
        assert forall|other: DefinitionType| other != def implies #[trigger] keeps(
            before,
            r,
            other,
        ) by {
            lemma_keeps(before, shown, Touched::Nothing, other);
            assert(keeps(shown, r, other));
        }
        assert forall|k: int|
            0 <= k < n && unknown(b, DefinitionType::Variant(ei, k as usize)) implies
            #[trigger] tells_value(ns, i, k, r) by {
            let d = DefinitionType::Variant(ei, k as usize);
            if k < m {
                assert(d != def);
                assert(keeps(before, r, d));
                lemma_still_tells_value(ns, i, k, before, r, t);
            } else {
                assert(keeps(b, before, DefinitionType::Variant(ei, k as usize)));
                lemma_still_unknown(b, before, d);
                lemma_keeps(before, shown, Touched::Nothing, d);
                lemma_still_unknown(before, shown, d);
                lemma_still_says(shown, r, t, loc, text);
            }
        }
        assert forall|k: usize| k >= n implies #[trigger] keeps(
            b,
            r,
            DefinitionType::Variant(ei, k),
        ) by {
            assert(keeps(b, before, DefinitionType::Variant(ei, k)));
            assert(keeps(before, r, DefinitionType::Variant(ei, k)));
        }
        assert(keeps(before, r, DefinitionType::Enum(ei)));
    }
}

proof fn lemma_enum(ns: Namespace, i: int, b: Option<Built>)
    requires
        0 <= i < ns.enums@.len() <= usize::MAX,
    ensures
        ({
            let r = enum_built(ns, ns.enums@[i], i as usize, b);
            &&& goes_on(b, r, Touched::Enum(i as usize))
            &&& fresh(b, Touched::Enum(i as usize)) ==> tells_enum(ns, i, r)
        }),
{
    let decl = ns.enums@[i];
    let ei = i as usize;
    let none = Touched::Nothing;
    let t = Touched::Enum(ei);
    let loc = decl.id.loc;
    let def = DefinitionType::Enum(ei);
    let r = enum_built(ns, decl, ei, b);
    assert(decl.values.len() == decl.values@.len());
    let v = values_built(ns, decl, ei, decl.values@.len(), b);
    lemma_values(ns, i, decl.values@.len(), b);
    let shown = hovered(v, loc, Some(decl.tags@));
    lemma_hovered(v, loc, Some(decl.tags@));
    let d = defined(ns, shown, loc, def);
    lemma_defined_in(ns, shown, loc, loc, def, t);
    let names = value_names(decl.values@, decl.values@.len());
    let listed = has_members(ns, d, loc, def, names);
    lemma_members(ns, d, loc, def, names);
    lemma_same(listed);
    lemma_object_on_top(ns, listed, loc, decl.id.name@, def);
    let own = Touched::Lists(def);
    lemma_join(d, listed, r, own, none, own);
    lemma_join(shown, d, r, t, own, t);
    lemma_join(v, shown, r, none, t, t);
    lemma_join(b, v, r, t, t, t);
    if fresh(b, t) {
        assert(touches(t, def));
        assert(unknown(b, def));
        lemma_still_unknown(b, v, def);
        lemma_keeps(v, shown, none, def);
        lemma_still_unknown(v, shown, def);
        lemma_keeps(d, r, own, def);
        lemma_still_placed(ns, d, r, loc, loc, def);
        lemma_still_listed(ns, listed, r, none, loc, def);
        lemma_still_says(shown, r, t, loc, decl.tags@);
        assert forall|k: int| 0 <= k < decl.values@.len() implies #[trigger] tells_value(
            ns,
            i,
            k,
            r,
        ) by {
            let x = DefinitionType::Variant(ei, k as usize);
            assert(touches(t, x));
            assert(unknown(b, x));
            assert(tells_value(ns, i, k, v));
            lemma_keeps(v, shown, none, x);
            assert(keeps(shown, d, x));
            lemma_keeps(d, r, own, x);
            assert(keeps(v, r, x));
            lemma_join(v, shown, r, none, t, t);
            lemma_still_tells_value(ns, i, k, v, r, t);
        }
    }
}

proof fn lemma_struct(ns: Namespace, i: int, b: Option<Built>)
    requires
        0 <= i < ns.structs@.len() <= usize::MAX,
    ensures
        ({
            let r = struct_built(ns, ns.structs@[i], i as usize, b);
            &&& goes_on(b, r, Touched::Struct(i as usize))
            &&& fresh(b, Touched::Struct(i as usize)) ==> tells_struct(ns, i, r)
        }),
{
    let decl = ns.structs@[i];
    let si = i as usize;
    let none = Touched::Nothing;
    let t = Touched::Struct(si);
    let loc = decl.id.loc;
    let st = StructType::UserDefined(si);
    let def = DefinitionType::Struct(st);
    let owner = FieldOwner::Struct(st);
    let r = struct_built(ns, decl, si, b);
    lemma_same(b);
    lemma_wider(b, b, none, t);
    if decl.loc is File {
        assert(decl.fields.len() == decl.fields@.len());
        let f = all_fields_built(ns, owner, decl.fields@, decl.fields@.len(), b);
        assert forall|k: usize| #[trigger] touches(t, DefinitionType::Field(owner, k)) by {}
        lemma_all_fields(ns, owner, decl.fields@, decl.fields@.len(), b, t);
        let shown = hovered(f, loc, Some(decl.tags@));
        lemma_hovered(f, loc, Some(decl.tags@));
        let d = defined(ns, shown, loc, def);
        lemma_defined_in(ns, shown, loc, loc, def, t);
        if let Some(file) = file_at(ns, loc) {
            let names = field_names(decl.fields@, file.path@, decl.fields@.len());
            let listed = has_members(ns, d, loc, def, names);
            lemma_members(ns, d, loc, def, names);
            lemma_same(listed);
            lemma_object_on_top(ns, listed, loc, decl.id.name@, def);
            let own = Touched::Lists(def);
            lemma_join(d, listed, r, own, none, own);
            lemma_join(shown, d, r, t, own, t);
            lemma_join(f, shown, r, none, t, t);
            lemma_join(b, f, r, t, t, t);
            if fresh(b, t) {
                assert(touches(t, def));
                assert(unknown(b, def));
                assert(keeps(b, f, def));
                lemma_still_unknown(b, f, def);
                lemma_keeps(f, shown, none, def);
                lemma_still_unknown(f, shown, def);
                lemma_keeps(d, r, own, def);
                lemma_still_placed(ns, d, r, loc, loc, def);
                lemma_still_listed(ns, listed, r, none, loc, def);
                lemma_still_says(shown, r, t, loc, decl.tags@);
                assert forall|k: int| 0 <= k < decl.fields@.len() implies #[trigger] tells_field(
                    ns,
                    owner,
                    decl.fields@,
                    k,
                    r,
                ) by {
                    let x = DefinitionType::Field(owner, k as usize);
                    assert(touches(t, x));
                    assert(unknown(b, x));
                    assert(tells_field(ns, owner, decl.fields@, k, f));
                    lemma_keeps(f, shown, none, x);
                    assert(keeps(shown, d, x));
                    lemma_keeps(d, r, own, x);
                    assert(keeps(f, r, x));
                    lemma_still_tells_field(ns, owner, decl.fields@, k, f, r, t);
                }
            }
        } else {
            reveal(goes_on);
            assert forall|k: int| 0 <= k < decl.fields@.len() implies #[trigger] tells_field(
                ns,
                owner,
                decl.fields@,
                k,
                r,
            ) by {}
        }
    }
}

proof fn lemma_event(ns: Namespace, i: int, b: Option<Built>)
    requires
        0 <= i < ns.events@.len() <= usize::MAX,
    ensures
        ({
            let r = event_built(ns, ns.events@[i], i as usize, b);
            &&& goes_on(b, r, Touched::Event(i as usize))
            &&& fresh(b, Touched::Event(i as usize)) ==> tells_event(ns, i, r)
        }),
{
    let decl = ns.events@[i];
    let ei = i as usize;
    let none = Touched::Nothing;
    let t = Touched::Event(ei);
    let loc = decl.id.loc;
    let def = DefinitionType::Event(ei);
    let owner = FieldOwner::Event(ei);
    let r = event_built(ns, decl, ei, b);
    assert(decl.fields.len() == decl.fields@.len());
    let f = all_fields_built(ns, owner, decl.fields@, decl.fields@.len(), b);
    assert forall|k: usize| #[trigger] touches(t, DefinitionType::Field(owner, k)) by {}
    lemma_all_fields(ns, owner, decl.fields@, decl.fields@.len(), b, t);
    let shown = hovered(f, loc, Some(decl.tags@));
    lemma_hovered(f, loc, Some(decl.tags@));
    let d = defined(ns, shown, loc, def);
    lemma_defined_in(ns, shown, loc, loc, def, t);
    lemma_same(d);
    lemma_object_on_top(ns, d, loc, decl.id.name@, def);
    lemma_join(shown, d, r, t, none, t);
    lemma_join(f, shown, r, none, t, t);
    lemma_join(b, f, r, t, t, t);
    if fresh(b, t) {
        assert(touches(t, def));
        assert(unknown(b, def));
        assert(keeps(b, f, def));
        lemma_still_unknown(b, f, def);
        lemma_keeps(f, shown, none, def);
        lemma_still_unknown(f, shown, def);
        lemma_keeps(d, r, none, def);
        lemma_still_placed(ns, d, r, loc, loc, def);
        lemma_still_says(shown, r, t, loc, decl.tags@);
        assert forall|k: int| 0 <= k < decl.fields@.len() implies #[trigger] tells_field(
            ns,
            owner,
            decl.fields@,
            k,
            r,
        ) by {
            let x = DefinitionType::Field(owner, k as usize);
            assert(touches(t, x));
            assert(unknown(b, x));
            assert(tells_field(ns, owner, decl.fields@, k, f));
            lemma_keeps(f, shown, none, x);
            assert(keeps(shown, d, x));
            lemma_keeps(d, r, none, x);
            assert(keeps(f, r, x));
            lemma_still_tells_field(ns, owner, decl.fields@, k, f, r, t);
        }
    }
}

proof fn lemma_parameter(ns: Namespace, param: Parameter, var_no: Option<usize>, b: Option<Built>)
    ensures
        goes_on(b, parameter_built(ns, param, var_no, b), Touched::Locals),
        tells_parameter(ns, param, parameter_built(ns, param, var_no, b)),
{
    let none = Touched::Nothing;
    let t = Touched::Locals;
    let loc = name_loc(param);
    let shown = hovered(b, loc, expanded(ns, param.ty));
    let r = parameter_built(ns, param, var_no, b);
    lemma_hovered(b, loc, expanded(ns, param.ty));
    match var_no {
        Some(no) => lemma_variable_and_type(ns, shown, param, no),
        None => {
            lemma_parameter_type(shown, param);
            lemma_wider(shown, r, none, t);
        },
    }
    lemma_join(b, shown, r, none, t, t);
    if expanded(ns, param.ty) is Some {
        lemma_still_says(shown, r, t, loc, expanded(ns, param.ty)->Some_0);
    }
    reveal(goes_on);
}

proof fn lemma_parameters(ns: Namespace, f: FunctionDecl, n: nat, b: Option<Built>)
    requires
        n <= f.params@.len(),
    ensures
        goes_on(b, parameters_built(ns, f, n, b), Touched::Locals),
        forall|k: int|
            0 <= k < n ==> #[trigger] tells_parameter(
                ns,
                f.params@[k],
                parameters_built(ns, f, n, b),
            ),
    decreases n,
{
    let t = Touched::Locals;
    lemma_same(b);
    lemma_wider(b, b, Touched::Nothing, t);
    if n > 0 {
        let before = parameters_built(ns, f, (n - 1) as nat, b);
        let r = parameters_built(ns, f, n, b);
        lemma_parameters(ns, f, (n - 1) as nat, b);
        lemma_parameter(ns, f.params@[n - 1], argument_variable(f.symtable, n - 1), before);
        lemma_join(b, before, r, t, t, t);
        assert forall|k: int| 0 <= k < n implies #[trigger] tells_parameter(
            ns,
            f.params@[k],
            r,
        ) by {
            if k < n - 1 {
                lemma_still_tells_parameter(ns, f.params@[k], before, r, t);
            }
        }
    }
}

proof fn lemma_results(ns: Namespace, f: FunctionDecl, n: nat, b: Option<Built>)
    requires
        n <= f.returns@.len(),
    ensures
        goes_on(b, results_built(ns, f, n, b), Touched::Locals),
        forall|k: int|
            0 <= k < n ==> #[trigger] tells_parameter(
                ns,
                f.returns@[k],
                results_built(ns, f, n, b),
            ),
    decreases n,
{
    let t = Touched::Locals;
    lemma_same(b);
    lemma_wider(b, b, Touched::Nothing, t);
    if n > 0 {
        let before = results_built(ns, f, (n - 1) as nat, b);
        let r = results_built(ns, f, n, b);
        lemma_results(ns, f, (n - 1) as nat, b);
        lemma_parameter(ns, f.returns@[n - 1], return_variable(f.symtable, n - 1), before);
        lemma_join(b, before, r, t, t, t);
        assert forall|k: int| 0 <= k < n implies #[trigger] tells_parameter(
            ns,
            f.returns@[k],
            r,
        ) by {
            if k < n - 1 {
                lemma_still_tells_parameter(ns, f.returns@[k], before, r, t);
            }
        }
    }
}

proof fn lemma_annotations(ns: Namespace, f: FunctionDecl, b: Option<Built>)
    ensures
        goes_on(b, annotations_built(ns, f, b), Touched::Nothing),
{
    let none = Touched::Nothing;
    let vars = f.symtable.vars@;
    let seeds = f.annotations.seeds@;
    let r = annotations_built(ns, f, b);
    let bump = some_expression_built(ns, vars, f.annotations.bump, b);
    let with_seeds = expressions_built(ns, vars, seeds, seeds.len(), bump);
    let space = some_expression_built(ns, vars, f.annotations.space, with_seeds);
    lemma_some_goes_on(ns, vars, f.annotations.bump, b);
    lemma_expressions_go_on(ns, vars, seeds, seeds.len(), bump);
    lemma_some_goes_on(ns, vars, f.annotations.space, with_seeds);
    lemma_same(space);
    if let Some((loc, name)) = f.annotations.payer {
        lemma_hovered(space, loc, Some("payer account: "@ + name@));
    }
    lemma_join(with_seeds, space, r, none, none, none);
    lemma_join(bump, with_seeds, r, none, none, none);
    lemma_join(b, bump, r, none, none, none);
}

proof fn lemma_scopes(f: FunctionDecl, n: nat, b: Option<Built>)
    requires
        n <= f.symtable.scopes@.len(),
    ensures
        goes_on(b, scopes_built(f, n, b), Touched::Nothing),
        forall|k: int| 0 <= k < n ==> #[trigger] tells_scope(f, k, scopes_built(f, n, b)),
    decreases n,
{
    let none = Touched::Nothing;
    lemma_same(b);
    if n > 0 {
        let before = scopes_built(f, (n - 1) as nat, b);
        let r = scopes_built(f, n, b);
        lemma_scopes(f, (n - 1) as nat, b);
        let scope = f.symtable.scopes@[n - 1];
        match scope.loc {
            Some(loc) => lemma_scoped(
                before,
                f.id.loc,
                loc,
                scope_names(f.symtable, scope.names@, scope.names@.len()),
            ),
            None => {
                reveal(goes_on);
            },
        }
        lemma_join(b, before, r, none, none, none);
        assert forall|k: int| 0 <= k < n implies #[trigger] tells_scope(f, k, r) by {
            if k < n - 1 {
                assert(tells_scope(f, k, before));
                lemma_still_tells_scope(f, k, before, r, none);
            }
        }
    }
}

proof fn lemma_still_tells_scope(
    f: FunctionDecl,
    k: int,
    a: Option<Built>,
    b: Option<Built>,
    t: Touched,
)
    requires
        tells_scope(f, k, a),
        goes_on(a, b, t),
    ensures
        tells_scope(f, k, b),
{
    let scope = f.symtable.scopes@[k];
    assert(b is Some ==> a is Some) by {
        reveal(goes_on);
    }
    lemma_still_names(
        a,
        b,
        t,
        f.id.loc,
        scope.loc->Some_0,
        scope_names(f.symtable, scope.names@, scope.names@.len()),
    );
}

proof fn lemma_function(ns: Namespace, i: int, b: Option<Built>)
    requires
        0 <= i < ns.functions@.len() <= usize::MAX,
    ensures
        ({
            let r = function_built(ns, ns.functions@[i], i as usize, b);
            &&& goes_on(b, r, Touched::Function(i as usize))
            &&& unknown(b, DefinitionType::Function(i as usize)) ==> tells_function(ns, i, r)
        }),
{
    let f = ns.functions@[i];
    let none = Touched::Nothing;
    let locals = Touched::Locals;
    let t = Touched::Function(i as usize);
    let def = DefinitionType::Function(i as usize);
    let vars = f.symtable.vars@;
    let r = function_built(ns, f, i as usize, b);
    lemma_same(b);
    lemma_wider(b, b, none, t);
    if !f.is_accessor && !(f.loc is Builtin) {
        let a = annotations_built(ns, f, b);
        let p = parameters_built(ns, f, f.params@.len(), a);
        let q = results_built(ns, f, f.returns@.len(), p);
        let body = statements_built(ns, vars, f.body@, f.body@.len(), q);
        let d = defined(ns, body, f.id.loc, def);
        let s = scopes_built(f, f.symtable.scopes@.len(), d);
        lemma_annotations(ns, f, b);
        lemma_parameters(ns, f, f.params@.len(), a);
        lemma_results(ns, f, f.returns@.len(), p);
        lemma_statements_go_on(ns, vars, f.body@, f.body@.len(), q);
        lemma_defined_in(ns, body, f.id.loc, f.id.loc, def, t);
        lemma_scopes(f, f.symtable.scopes@.len(), d);
        lemma_object_on_top(ns, s, f.id.loc, f.id.name@, def);
        lemma_join(d, s, r, none, none, none);
        lemma_join(body, d, r, t, none, t);
        lemma_join(q, body, r, locals, t, t);
        lemma_join(p, q, r, locals, t, t);
        lemma_join(a, p, r, locals, t, t);
        lemma_join(b, a, r, none, t, t);
        if unknown(b, def) {
            lemma_join(b, a, p, none, locals, locals);
            lemma_join(b, p, q, locals, locals, locals);
            lemma_join(b, q, body, locals, locals, locals);
            lemma_keeps(b, body, locals, def);
            lemma_still_unknown(b, body, def);
            lemma_keeps(d, r, none, def);
            lemma_still_placed(ns, d, r, f.id.loc, f.id.loc, def);
            assert forall|k: int| 0 <= k < f.params@.len() implies #[trigger] tells_parameter(
                ns,
                f.params@[k],
                r,
            ) by {
                lemma_still_tells_parameter(ns, f.params@[k], p, r, t);
            }
            assert forall|k: int| 0 <= k < f.returns@.len() implies #[trigger] tells_parameter(
                ns,
                f.returns@[k],
                r,
            ) by {
                lemma_still_tells_parameter(ns, f.returns@[k], q, r, t);
            }
            assert forall|path: Seq<Statement>|
                (#[trigger] leads_in(path)) && f.body@.contains(path[0]) implies tells_statement(
                ns,
                vars,
                path.last(),
                body,
            ) by {
                law_bodies_are_told(ns, vars, f.body@, q, path);
            }
            assert forall|path: Seq<Statement>, es: Seq<Expression>|
                (#[trigger] leads_in(path)) && f.body@.contains(path[0]) && (#[trigger] leads_down(
                    es,
                )) && has_expression(path.last(), es[0]) implies tells(
                ns,
                vars,
                es.last(),
                body,
            ) by {
                law_bodies_are_told(ns, vars, f.body@, q, path);
            }
            assert(tells_body(ns, f, body));
            lemma_still_tells_body(ns, f, body, r, t);
            assert forall|k: int| 0 <= k < f.symtable.scopes@.len() implies #[trigger] tells_scope(
                f,
                k,
                r,
            ) by {
                assert(tells_scope(f, k, s));
                lemma_still_tells_scope(f, k, s, r, none);
            }
        }
    }
}

proof fn lemma_variable(
    ns: Namespace,
    variables: Seq<StateVariable>,
    c: Option<usize>,
    i: int,
    b: Option<Built>,
)
    requires
        0 <= i < variables.len() <= usize::MAX,
    ensures
        ({
            let r = state_variable_built(ns, variables[i], c, i as usize, b);
            let def = DefinitionType::NonLocalVariable(c, i as usize);
            &&& goes_on(b, r, Touched::Variable(c, i as usize))
            &&& unknown(b, def) ==> tells_variable(ns, variables, c, i, r)
        }),
{
    let v = variables[i];
    let none = Touched::Nothing;
    let def = DefinitionType::NonLocalVariable(c, i as usize);
    let t = Touched::Variable(c, i as usize);
    let r = state_variable_built(ns, v, c, i as usize, b);
    let x = some_expression_built(ns, Seq::empty(), v.initializer, b);
    let text = tags_above(v.tags@) + code_block(v.ty.text@ + " "@ + v.name@);
    let len = encode_utf8(v.name@).len();
    let shown = hovered_start(x, v.loc, len, text);
    let d = typed(ns, defined(ns, shown, v.loc, def), v.loc, def, type_definition(v.ty));
    lemma_some_goes_on(ns, Seq::empty(), v.initializer, b);
    assert(goes_on(x, shown, none)) by {
        reveal(goes_on);
        reveal(hovered_start);
    }
    lemma_defined_typed(ns, shown, v.loc, def, type_definition(v.ty), t);
    lemma_same(d);
    lemma_top_level(d, v.loc, v.name@, type_object(v.ty));
    lemma_join(shown, d, r, t, none, t);
    lemma_join(x, shown, r, none, t, t);
    lemma_join(b, x, r, none, t, t);
    if unknown(b, def) {
        lemma_join(b, x, shown, none, none, none);
        lemma_keeps(b, shown, none, def);
        lemma_still_unknown(b, shown, def);
        lemma_keeps(d, r, none, def);
        lemma_still_placed(ns, d, r, v.loc, v.loc, def);
        if type_definition(v.ty) is Some {
            lemma_still_typed(ns, d, r, v.loc, def, type_definition(v.ty)->Some_0);
        }
        if r is Some {
            let h = HoverModel {
                file_no: v.loc->File_0,
                start: v.loc->File_1,
                stop: (v.loc->File_1 + len) as usize,
                val: text,
            };
            reveal(hovered_start);
            assert(r is Some ==> shown is Some && shown->Some_0.hovers.is_prefix_of(
                r->Some_0.hovers,
            )) by {
                reveal(goes_on);
            }
            let n = x->Some_0.hovers.len() as int;
            assert(shown->Some_0.hovers[n] == h);
            assert(r->Some_0.hovers[n] == h);
        }
        if let Some(e) = v.initializer {
            assert forall|es: Seq<Expression>|
                (#[trigger] leads_down(es)) && es[0] == v.initializer->Some_0 implies tells(
                ns,
                Seq::empty(),
                es.last(),
                r,
            ) by {
                law_parts_are_told(ns, Seq::empty(), es, b);
                lemma_still_tells(ns, Seq::empty(), es.last(), x, r, t);
            }
        }
    }
}

proof fn lemma_variables(
    ns: Namespace,
    variables: Seq<StateVariable>,
    c: Option<usize>,
    n: nat,
    b: Option<Built>,
)
    requires
        n <= variables.len() <= usize::MAX,
    ensures
        ({
            let r = state_variables_built(ns, variables, c, n, b);
            &&& goes_on(b, r, Touched::Variables(c))
            &&& forall|i: int|
                0 <= i < n && unknown(b, DefinitionType::NonLocalVariable(c, i as usize))
                    ==> #[trigger] tells_variable(ns, variables, c, i, r)
            &&& forall|i: usize|
                i >= n ==> #[trigger] keeps(b, r, DefinitionType::NonLocalVariable(c, i))
        }),
    decreases n,
{
    let t = Touched::Variables(c);
    let r = state_variables_built(ns, variables, c, n, b);
    lemma_same(b);
    lemma_wider(b, b, Touched::Nothing, t);
    if n > 0 {
        let m = (n - 1) as nat;
        let before = state_variables_built(ns, variables, c, m, b);
        let one = Touched::Variable(c, m as usize);
        lemma_variables(ns, variables, c, m, b);
        lemma_variable(ns, variables, c, m as int, before);
        lemma_join(b, before, r, t, one, t);
        assert forall|i: int|
            0 <= i < n && unknown(b, DefinitionType::NonLocalVariable(c, i as usize)) implies
            #[trigger] tells_variable(ns, variables, c, i, r) by {
            let def = DefinitionType::NonLocalVariable(c, i as usize);
            if i < m {
                lemma_still_tells_variable(ns, variables, c, i, before, r, one);
            } else {
                assert(keeps(b, before, DefinitionType::NonLocalVariable(c, i as usize)));
                lemma_still_unknown(b, before, def);
            }
        }
        assert forall|i: usize| i >= n implies #[trigger] keeps(
            b,
            r,
            DefinitionType::NonLocalVariable(c, i),
        ) by {
            assert(keeps(b, before, DefinitionType::NonLocalVariable(c, i)));
            lemma_keeps(before, r, one, DefinitionType::NonLocalVariable(c, i));
        }
    }
}

proof fn lemma_bases(ns: Namespace, bases: Seq<Base>, n: nat, b: Option<Built>)
    requires
        n <= bases.len(),
    ensures
        goes_on(b, bases_built(ns, bases, n, b), Touched::Nothing),
        forall|k: int|
            0 <= k < n ==> #[trigger] tells_base(ns, bases[k], bases_built(ns, bases, n, b)),
    decreases n,
{
    let none = Touched::Nothing;
    lemma_same(b);
    if n > 0 {
        let base = bases[n - 1];
        let before = bases_built(ns, bases, (n - 1) as nat, b);
        let r = bases_built(ns, bases, n, b);
        let text = contract_title(ns, base.contract_no);
        let shown = hovered(before, base.loc, text);
        let def = DefinitionType::Contract(base.contract_no);
        lemma_bases(ns, bases, (n - 1) as nat, b);
        lemma_hovered(before, base.loc, text);
        lemma_referred(shown, base.loc, def);
        lemma_join(before, shown, r, none, none, none);
        lemma_join(b, before, r, none, none, none);
        if text is Some {
            lemma_still_says(shown, r, none, base.loc, text->Some_0);
        }
        assert(r is Some ==> shown is Some) by {
            reveal(goes_on);
        }
        assert forall|k: int| 0 <= k < n implies #[trigger] tells_base(ns, bases[k], r) by {
            if k < n - 1 {
                lemma_still_tells_base(ns, bases[k], before, r, none);
            }
        }
    }
}

proof fn lemma_overrides(ns: Namespace, contract: Contract, n: nat, b: Option<Built>)
    ensures
        goes_on(b, overrides_built(ns, contract, n, b), Touched::Nothing),
    decreases n,
{
    let none = Touched::Nothing;
    lemma_same(b);
    if n > 0 && n <= contract.virtual_functions@.len() {
        let before = overrides_built(ns, contract, (n - 1) as nat, b);
        let r = overrides_built(ns, contract, n, b);
        lemma_overrides(ns, contract, (n - 1) as nat, b);
        lemma_same(before);
        assert(goes_on(before, r, none)) by {
            reveal(goes_on);
            reveal(overrides);
        }
        lemma_join(b, before, r, none, none, none);
    }
}

proof fn lemma_contract(ns: Namespace, i: int, b: Option<Built>)
    requires
        0 <= i < ns.contracts@.len() <= usize::MAX,
    ensures
        ({
            let r = contract_built(ns, ns.contracts@[i], i as usize, b);
            &&& goes_on(b, r, Touched::Contract(i as usize))
            &&& fresh(b, Touched::Contract(i as usize)) ==> tells_contract(ns, i, r)
        }),
{
    let contract = ns.contracts@[i];
    let ci = i as usize;
    let none = Touched::Nothing;
    let t = Touched::Contract(ci);
    let vt = Touched::Variables(Some(ci));
    let def = DefinitionType::Contract(ci);
    let vars = contract.variables@;
    let r = contract_built(ns, contract, ci, b);
    assert(contract.variables.len() == vars.len());
    let bases = bases_built(ns, contract.bases@, contract.bases@.len(), b);
    let v = state_variables_built(ns, vars, Some(ci), vars.len(), bases);
    lemma_bases(ns, contract.bases@, contract.bases@.len(), b);
    lemma_variables(ns, vars, Some(ci), vars.len(), bases);
    if let Some(file) = file_at(ns, contract.loc) {
        let shown = hovered_in(v, contract.loc, contract.id.loc, contract.tags@);
        let d = defined_in(ns, shown, contract.loc, contract.id.loc, def);
        let functions = functions_in(file.path@, contract.functions@);
        let implemented = implements(ns, d, contract.loc, def, functions);
        let o = overrides_built(
            ns,
            contract,
            contract.virtual_functions@.len(),
            implemented,
        );
        let names = contents(ns, contract, ci, file.path@);
        let pairs = with_pairs(Seq::empty(), names, names.len());
        let listed = has_members(ns, o, contract.loc, def, pairs);
        let s = scoped(listed, contract.loc, contract.loc, names);
        lemma_hovered_in(v, contract.loc, contract.id.loc, contract.tags@);
        lemma_defined_in(ns, shown, contract.loc, contract.id.loc, def, t);
        lemma_implements(ns, d, contract.loc, def, functions);
        lemma_overrides(ns, contract, contract.virtual_functions@.len(), implemented);
        lemma_members(ns, o, contract.loc, def, pairs);
        lemma_scoped(listed, contract.loc, contract.loc, names);
        lemma_object_on_top(ns, s, contract.loc, contract.id.name@, def);
        lemma_join(listed, s, r, none, none, none);
        let own = Touched::Lists(def);
        lemma_join(o, listed, r, own, none, own);
        lemma_join(implemented, o, r, none, own, own);
        lemma_join(d, implemented, r, own, own, own);
        lemma_join(shown, d, r, t, own, t);
        lemma_join(v, shown, r, none, t, t);
        lemma_join(bases, v, r, vt, t, t);
        lemma_join(b, bases, r, none, t, t);
        if fresh(b, t) {
            lemma_join(b, bases, v, none, vt, vt);
            lemma_join(b, v, shown, vt, none, vt);
            assert(touches(t, def));
            assert(unknown(b, def));
            lemma_keeps(b, shown, vt, def);
            lemma_still_unknown(b, shown, def);
            lemma_keeps(d, r, own, def);
            lemma_still_listed(ns, implemented, o, none, contract.loc, def);
            assert(implements_at(ns, o, contract.loc, def, functions));
            assert(implements_at(ns, listed, contract.loc, def, functions)) by {
                reveal(has_members);
            }
            lemma_still_listed(ns, listed, r, none, contract.loc, def);
            lemma_still_names(s, r, none, contract.loc, contract.loc, names);
            lemma_still_placed(ns, d, r, contract.loc, contract.id.loc, def);
            lemma_still_says_in(shown, r, t, contract.loc, contract.id.loc, contract.tags@);
            assert forall|k: int| 0 <= k < contract.bases@.len() implies #[trigger] tells_base(
                ns,
                contract.bases@[k],
                r,
            ) by {
                lemma_still_tells_base(ns, contract.bases@[k], bases, r, t);
            }
            assert forall|k: int| 0 <= k < vars.len() implies #[trigger] tells_variable(
                ns,
                vars,
                Some(ci),
                k,
                r,
            ) by {
                let x = DefinitionType::NonLocalVariable(Some(ci), k as usize);
                assert(touches(t, x));
                assert(unknown(b, x));
                lemma_keeps(b, bases, none, x);
                lemma_still_unknown(b, bases, x);
                assert(tells_variable(ns, vars, Some(ci), k, v));
                lemma_variable_kept(ns, contract, ci, k, v, shown, d, r);
            }
        }
    } else {
        reveal(goes_on);
        assert forall|k: int| 0 <= k < vars.len() implies #[trigger] tells_variable(
            ns,
            vars,
            Some(ci),
            k,
            r,
        ) by {
            lemma_nothing_tells(ns, vars, Some(ci), k);
        }
        assert forall|k: int| 0 <= k < contract.bases@.len() implies #[trigger] tells_base(
            ns,
            contract.bases@[k],
            r,
        ) by {}
    }
}

proof fn lemma_nothing_tells(
    ns: Namespace,
    variables: Seq<StateVariable>,
    c: Option<usize>,
    i: int,
)
    ensures
        tells_variable(ns, variables, c, i, None),
{
    assert forall|es: Seq<Expression>| #[trigger] leads_down(es) implies tells(
        ns,
        Seq::empty(),
        es.last(),
        None,
    ) by {}
}

/// What is known of a variable of a contract stays while the contract itself is defined.
proof fn lemma_variable_kept(
    ns: Namespace,
    contract: Contract,
    ci: usize,
    k: int,
    v: Option<Built>,
    shown: Option<Built>,
    d: Option<Built>,
    r: Option<Built>,
)
    requires
        tells_variable(ns, contract.variables@, Some(ci), k, v),
        goes_on(v, shown, Touched::Nothing),
        d == defined_in(
            ns,
            shown,
            contract.loc,
            contract.id.loc,
            DefinitionType::Contract(ci),
        ),
        goes_on(d, r, Touched::Lists(DefinitionType::Contract(ci))),
    ensures
        tells_variable(ns, contract.variables@, Some(ci), k, r),
{
    let none = Touched::Nothing;
    let vars = contract.variables@;
    let def = DefinitionType::Contract(ci);
    lemma_still_tells_variable(ns, vars, Some(ci), k, v, shown, none);
    lemma_defined_in(ns, shown, contract.loc, contract.id.loc, def, Touched::Itself(def));
    lemma_still_tells_variable(ns, vars, Some(ci), k, shown, d, Touched::Itself(def));
    lemma_still_tells_variable(ns, vars, Some(ci), k, d, r, Touched::Lists(def));
}

proof fn lemma_enums(ns: Namespace, n: nat, b: Option<Built>, i: int)
    requires
        0 <= i,
        n <= ns.enums@.len() <= usize::MAX,
    ensures
        ({
            let r = enums_built(ns, n, b);
            &&& goes_on(b, r, Touched::Enums)
            &&& i < n && fresh(b, Touched::Enum(i as usize)) ==> tells_enum(ns, i, r)
            &&& n <= i <= usize::MAX && fresh(b, Touched::Enum(i as usize)) ==> fresh(r, Touched::Enum(i as usize))
        }),
    decreases n,
{
    let t = Touched::Enums;
    let r = enums_built(ns, n, b);
    lemma_same(b);
    lemma_wider(b, b, Touched::Nothing, t);
    if n > 0 {
        let m = (n - 1) as nat;
        let before = enums_built(ns, m, b);
        let last = Touched::Enum(m as usize);
        lemma_enums(ns, m, b, i);
        lemma_enum(ns, m as int, before);
        lemma_join(b, before, r, t, last, t);
        let own = Touched::Enum(i as usize);
        if i <= usize::MAX && i != m {
            assert(apart(own, last));
            assert(apart(last, own));
            if fresh(b, Touched::Enum(i as usize)) {
                if i < m {
                    lemma_still_tells_enum(ns, i, before, r, last);
                } else {
                    lemma_still_fresh(before, r, last, own);
                }
            }
        }
    }
}

proof fn lemma_structs(ns: Namespace, n: nat, b: Option<Built>, i: int)
    requires
        0 <= i,
        n <= ns.structs@.len() <= usize::MAX,
    ensures
        ({
            let r = structs_built(ns, n, b);
            &&& goes_on(b, r, Touched::Structs)
            &&& i < n && fresh(b, Touched::Struct(i as usize)) ==> tells_struct(ns, i, r)
            &&& n <= i <= usize::MAX && fresh(b, Touched::Struct(i as usize)) ==> fresh(r, Touched::Struct(i as usize))
        }),
    decreases n,
{
    let t = Touched::Structs;
    let r = structs_built(ns, n, b);
    lemma_same(b);
    lemma_wider(b, b, Touched::Nothing, t);
    if n > 0 {
        let m = (n - 1) as nat;
        let before = structs_built(ns, m, b);
        let last = Touched::Struct(m as usize);
        lemma_structs(ns, m, b, i);
        lemma_struct(ns, m as int, before);
        lemma_join(b, before, r, t, last, t);
        let own = Touched::Struct(i as usize);
        if i <= usize::MAX && i != m {
            assert(apart(own, last));
            assert(apart(last, own));
            if fresh(b, Touched::Struct(i as usize)) {
                if i < m {
                    lemma_still_tells_struct(ns, i, before, r, last);
                } else {
                    lemma_still_fresh(before, r, last, own);
                }
            }
        }
    }
}

proof fn lemma_events(ns: Namespace, n: nat, b: Option<Built>, i: int)
    requires
        0 <= i,
        n <= ns.events@.len() <= usize::MAX,
    ensures
        ({
            let r = events_built(ns, n, b);
            &&& goes_on(b, r, Touched::Events)
            &&& i < n && fresh(b, Touched::Event(i as usize)) ==> tells_event(ns, i, r)
            &&& n <= i <= usize::MAX && fresh(b, Touched::Event(i as usize)) ==> fresh(r, Touched::Event(i as usize))
        }),
    decreases n,
{
    let t = Touched::Events;
    let r = events_built(ns, n, b);
    lemma_same(b);
    lemma_wider(b, b, Touched::Nothing, t);
    if n > 0 {
        let m = (n - 1) as nat;
        let before = events_built(ns, m, b);
        let last = Touched::Event(m as usize);
        lemma_events(ns, m, b, i);
        lemma_event(ns, m as int, before);
        lemma_join(b, before, r, t, last, t);
        let own = Touched::Event(i as usize);
        if i <= usize::MAX && i != m {
            assert(apart(own, last));
            assert(apart(last, own));
            if fresh(b, Touched::Event(i as usize)) {
                if i < m {
                    lemma_still_tells_event(ns, i, before, r, last);
                } else {
                    lemma_still_fresh(before, r, last, own);
                }
            }
        }
    }
}

proof fn lemma_contracts(ns: Namespace, n: nat, b: Option<Built>, i: int)
    requires
        0 <= i,
        n <= ns.contracts@.len() <= usize::MAX,
    ensures
        ({
            let r = contracts_built(ns, n, b);
            &&& goes_on(b, r, Touched::Contracts)
            &&& i < n && fresh(b, Touched::Contract(i as usize)) ==> tells_contract(ns, i, r)
            &&& n <= i <= usize::MAX && fresh(b, Touched::Contract(i as usize)) ==> fresh(r, Touched::Contract(i as usize))
        }),
    decreases n,
{
    let t = Touched::Contracts;
    let r = contracts_built(ns, n, b);
    lemma_same(b);
    lemma_wider(b, b, Touched::Nothing, t);
    if n > 0 {
        let m = (n - 1) as nat;
        let before = contracts_built(ns, m, b);
        let last = Touched::Contract(m as usize);
        lemma_contracts(ns, m, b, i);
        lemma_contract(ns, m as int, before);
        lemma_join(b, before, r, t, last, t);
        let own = Touched::Contract(i as usize);
        if i <= usize::MAX && i != m {
            assert(apart(own, last));
            assert(apart(last, own));
            if fresh(b, Touched::Contract(i as usize)) {
                if i < m {
                    lemma_still_tells_contract(ns, i, before, r, last);
                } else {
                    lemma_still_fresh(before, r, last, own);
                }
            }
        }
    }
}

proof fn lemma_functions(ns: Namespace, n: nat, b: Option<Built>, i: int)
    requires
        0 <= i,
        n <= ns.functions@.len() <= usize::MAX,
    ensures
        ({
            let r = functions_built(ns, n, b);
            &&& goes_on(b, r, Touched::Functions)
            &&& i < n && unknown(b, DefinitionType::Function(i as usize)) ==> tells_function(ns, i, r)
            &&& n <= i <= usize::MAX ==> keeps(b, r, DefinitionType::Function(i as usize))
        }),
    decreases n,
{
    let t = Touched::Functions;
    let r = functions_built(ns, n, b);
    lemma_same(b);
    lemma_wider(b, b, Touched::Nothing, t);
    if n > 0 {
        let m = (n - 1) as nat;
        let before = functions_built(ns, m, b);
        let last = Touched::Function(m as usize);
        lemma_functions(ns, m, b, i);
        lemma_function(ns, m as int, before);
        lemma_join(b, before, r, t, last, t);
        let def = DefinitionType::Function(i as usize);
        if i < m {
            if unknown(b, def) {
                lemma_still_tells_function(ns, i, before, r, last);
            }
        } else if i == m {
            if unknown(b, def) {
                lemma_still_unknown(b, before, def);
            }
        } else if i <= usize::MAX {
            lemma_keeps(before, r, last, def);
        }
    }
}

/// Of everything that a namespace declares it is known where it is defined, what is shown for it and
/// what it refers to: of enums with their values, structs and events with their fields, contracts
/// with their bases and variables, constants, and functions with all statements and expressions in
/// them, however deep.
pub open spec fn tells_all(ns: Namespace, b: Option<Built>) -> bool {
    &&& forall|i: int| 0 <= i < ns.enums@.len() ==> #[trigger] tells_enum(ns, i, b)
    &&& forall|i: int| 0 <= i < ns.structs@.len() ==> #[trigger] tells_struct(ns, i, b)
    &&& forall|i: int| 0 <= i < ns.functions@.len() ==> #[trigger] tells_function(ns, i, b)
    &&& forall|i: int|
        0 <= i < ns.constants@.len() ==> #[trigger] tells_variable(ns, ns.constants@, None, i, b)
    &&& forall|i: int| 0 <= i < ns.contracts@.len() ==> #[trigger] tells_contract(ns, i, b)
    &&& forall|i: int| 0 <= i < ns.events@.len() ==> #[trigger] tells_event(ns, i, b)
}

/// Collecting from a namespace says of all that it declares what it is.
pub proof fn law_declarations_are_told(ns: Namespace)
    ensures
        tells_all(ns, namespace_built(ns, Some(nothing_built()))),
{
    let b = Some(nothing_built());
    let e = enums_built(ns, ns.enums@.len(), b);
    let s = structs_built(ns, ns.structs@.len(), e);
    let f = functions_built(ns, ns.functions@.len(), s);
    let c = state_variables_built(ns, ns.constants@, None, ns.constants@.len(), f);
    let k = contracts_built(ns, ns.contracts@.len(), c);
    let r = events_built(ns, ns.events@.len(), k);
    assert(ns.enums.len() == ns.enums@.len());
    assert(ns.structs.len() == ns.structs@.len());
    assert(ns.functions.len() == ns.functions@.len());
    assert(ns.constants.len() == ns.constants@.len());
    assert(ns.contracts.len() == ns.contracts@.len());
    assert(ns.events.len() == ns.events@.len());
    assert forall|d: DefinitionType| #[trigger] unknown(b, d) by {}
    let none = Touched::Variables(None);
    lemma_enums(ns, ns.enums@.len(), b, 0);
    lemma_structs(ns, ns.structs@.len(), e, 0);
    lemma_functions(ns, ns.functions@.len(), s, 0);
    lemma_variables(ns, ns.constants@, None, ns.constants@.len(), f);
    lemma_contracts(ns, ns.contracts@.len(), c, 0);
    lemma_events(ns, ns.events@.len(), k, 0);
    assert forall|i: int| 0 <= i < ns.enums@.len() implies #[trigger] tells_enum(ns, i, r) by {
        let own = Touched::Enum(i as usize);
        lemma_enums(ns, ns.enums@.len(), b, i);
        assert(apart(own, Touched::Structs) && apart(own, Touched::Functions) && apart(own, none)
            && apart(own, Touched::Contracts) && apart(own, Touched::Events));
        lemma_still_tells_enum(ns, i, e, s, Touched::Structs);
        lemma_still_tells_enum(ns, i, s, f, Touched::Functions);
        lemma_still_tells_enum(ns, i, f, c, none);
        lemma_still_tells_enum(ns, i, c, k, Touched::Contracts);
        lemma_still_tells_enum(ns, i, k, r, Touched::Events);
    }
    assert forall|i: int| 0 <= i < ns.structs@.len() implies #[trigger] tells_struct(ns, i, r) by {
        let own = Touched::Struct(i as usize);
        assert(apart(Touched::Enums, own) && apart(own, Touched::Functions) && apart(own, none)
            && apart(own, Touched::Contracts) && apart(own, Touched::Events));
        lemma_still_fresh(b, e, Touched::Enums, own);
        lemma_structs(ns, ns.structs@.len(), e, i);
        lemma_still_tells_struct(ns, i, s, f, Touched::Functions);
        lemma_still_tells_struct(ns, i, f, c, none);
        lemma_still_tells_struct(ns, i, c, k, Touched::Contracts);
        lemma_still_tells_struct(ns, i, k, r, Touched::Events);
    }
    assert forall|i: int| 0 <= i < ns.functions@.len() implies #[trigger] tells_function(
        ns,
        i,
        r,
    ) by {
        let def = DefinitionType::Function(i as usize);
        lemma_keeps(b, e, Touched::Enums, def);
        lemma_still_unknown(b, e, def);
        lemma_keeps(e, s, Touched::Structs, def);
        lemma_still_unknown(e, s, def);
        lemma_functions(ns, ns.functions@.len(), s, i);
        lemma_still_tells_function(ns, i, f, c, none);
        lemma_still_tells_function(ns, i, c, k, Touched::Contracts);
        lemma_still_tells_function(ns, i, k, r, Touched::Events);
    }
    assert forall|i: int| 0 <= i < ns.constants@.len() implies #[trigger] tells_variable(
        ns,
        ns.constants@,
        None,
        i,
        r,
    ) by {
        let def = DefinitionType::NonLocalVariable(None, i as usize);
        lemma_keeps(b, e, Touched::Enums, def);
        lemma_still_unknown(b, e, def);
        lemma_keeps(e, s, Touched::Structs, def);
        lemma_still_unknown(e, s, def);
        lemma_keeps(s, f, Touched::Functions, def);
        lemma_still_unknown(s, f, def);
        assert(tells_variable(ns, ns.constants@, None, i, c));
        lemma_still_tells_variable(ns, ns.constants@, None, i, c, k, Touched::Contracts);
        lemma_still_tells_variable(ns, ns.constants@, None, i, k, r, Touched::Events);
    }
    assert forall|i: int| 0 <= i < ns.contracts@.len() implies #[trigger] tells_contract(
        ns,
        i,
        r,
    ) by {
        let own = Touched::Contract(i as usize);
        assert(apart(Touched::Enums, own) && apart(Touched::Structs, own) && apart(
            Touched::Functions,
            own,
        ) && apart(none, own) && apart(own, Touched::Events));
        lemma_still_fresh(b, e, Touched::Enums, own);
        lemma_still_fresh(e, s, Touched::Structs, own);
        lemma_still_fresh(s, f, Touched::Functions, own);
        lemma_still_fresh(f, c, none, own);
        lemma_contracts(ns, ns.contracts@.len(), c, i);
        lemma_still_tells_contract(ns, i, k, r, Touched::Events);
    }
    assert forall|i: int| 0 <= i < ns.events@.len() implies #[trigger] tells_event(ns, i, r) by {
        let own = Touched::Event(i as usize);
        assert(apart(Touched::Enums, own) && apart(Touched::Structs, own) && apart(
            Touched::Functions,
            own,
        ) && apart(none, own) && apart(Touched::Contracts, own));
        lemma_still_fresh(b, e, Touched::Enums, own);
        lemma_still_fresh(e, s, Touched::Structs, own);
        lemma_still_fresh(s, f, Touched::Functions, own);
        lemma_still_fresh(f, c, none, own);
        lemma_still_fresh(c, k, Touched::Contracts, own);
        lemma_events(ns, ns.events@.len(), k, i);
    }
}

} // verus!

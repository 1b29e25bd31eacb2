//! What code objects list: members, scopes, and the functions that are implemented and overridden.

use vstd::prelude::*;

use crate::builder::{
    at_top_level, defined_in, file_at, has_members, hovered_in, implements, overrides, scoped,
    Built, NamesModel, ScopeModel,
};
use crate::caches::{file_objects, last_path, lookups, placed, placed_if_open};
use crate::contracts::{
    bases_built, contents, contract_built, contract_enums, contract_events, contract_structs,
    contract_variables, declared_functions, function_names, functions_in, overridden,
    override_built, overrides_built, state_variables_built,
};
use crate::declarations::{field_names, scope_names, type_object, value_names};
use crate::definitions::{
    key_place, law_put_then_find, lemma_key_place, unplaced, value_at, with_pair, Definition,
    DefinitionType, StructType,
};
use crate::hover_text::local_variable;
use crate::namespace::{
    span, type_definition, Contract, Loc, LocalVariable, Namespace, Parameter, SolidityType,
    StateVariable, Symtable, TypeShape,
};
use crate::query_laws::{inherited, law_overridden_functions_are_inherited, lemma_last_path};
use crate::statement_laws::placed_at;
use crate::use_laws::collected;

verus! {

/// A location in a file covers its last byte too: it goes up to the byte behind it.
pub proof fn law_spans_include_their_end(loc: Loc)
    ensures
        span(loc) is Some <==> loc is File && loc->File_2 < usize::MAX,
        span(loc) matches Some((file_no, start, stop)) ==> file_no == loc->File_0 && start
            == loc->File_1 && stop == loc->File_2 + 1,
{
}

/// An array stands for what its elements stand for, and a reference for what its target stands for.
/// Enums, structs and contracts stand for themselves.
pub proof fn law_types_stand_for_their_declarations(ty: SolidityType)
    ensures
        ty.shape matches TypeShape::Array(elem) ==> type_definition(ty) == type_definition(*elem),
        ty.shape matches TypeShape::Ref(target) ==> type_definition(ty) == type_definition(*target),
        ty.shape matches TypeShape::StorageRef(target) ==> type_definition(ty) == type_definition(
            *target,
        ),
        ty.shape matches TypeShape::Enum(id) ==> type_definition(ty) == Some(
            DefinitionType::Enum(id),
        ),
        ty.shape matches TypeShape::Struct(st) ==> type_definition(ty) == Some(
            DefinitionType::Struct(st),
        ),
        ty.shape matches TypeShape::Contract(id) ==> type_definition(ty) == Some(
            DefinitionType::Contract(id),
        ),
        ty.shape is Other ==> type_definition(ty) is None,
        type_object(ty) matches Some(d) ==> Some(d.def) == type_definition(ty) && d.path.len() == 0,
        type_object(ty) is Some <==> type_definition(ty) is Some,
{
}

proof fn lemma_put<V>(pairs: Seq<(Seq<char>, V)>, name: Seq<char>, value: V)
    ensures
        value_at(with_pair(pairs, name, value), name) == Some(value),
        forall|other: Seq<char>|
            other != name ==> #[trigger] value_at(with_pair(pairs, name, value), other) == value_at(
                pairs,
                other,
            ),
{
    let longer = name.push('x');
    assert(longer.len() != name.len());
    law_put_then_find(pairs, name, value, longer);
    assert forall|other: Seq<char>| other != name implies #[trigger] value_at(
        with_pair(pairs, name, value),
        other,
    ) == value_at(pairs, other) by {
        law_put_then_find(pairs, name, value, other);
    }
}

/// The members of an enum are its values, by their names.
pub proof fn law_enums_list_their_values(values: Seq<(String, Loc)>, n: nat)
    requires
        n <= values.len(),
    ensures
        forall|k: int|
            0 <= k < n ==> value_at(value_names(values, n), (#[trigger] values[k]).0@) == Some(
                None::<Definition>,
            ),
        forall|name: Seq<char>|
            (#[trigger] value_at(value_names(values, n), name)) is Some ==> exists|k: int|
                0 <= k < n && (#[trigger] values[k]).0@ == name,
    decreases n,
{
    if n > 0 {
        law_enums_list_their_values(values, (n - 1) as nat);
        let before = value_names(values, (n - 1) as nat);
        let last = values[n - 1].0@;
        lemma_put(before, last, None::<Definition>);
        assert forall|k: int| 0 <= k < n implies value_at(
            value_names(values, n),
            (#[trigger] values[k]).0@,
        ) == Some(None::<Definition>) by {
            if values[k].0@ != last {
                assert(k < n - 1);
            }
        }
        assert forall|name: Seq<char>|
            (#[trigger] value_at(value_names(values, n), name)) is Some implies exists|k: int|
            0 <= k < n && (#[trigger] values[k]).0@ == name by {
            if name == last {
                assert(values[n - 1].0@ == name);
            } else {
                assert(value_at(before, name) is Some);
                let k = choose|k: int| 0 <= k < n - 1 && (#[trigger] values[k]).0@ == name;
                assert(values[k].0@ == name);
            }
        }
    }
}

/// Whether the field has this name.
pub open spec fn has_name(field: Parameter, name: Seq<char>) -> bool {
    field.id is Some && field.id->Some_0.name@ == name
}

/// The members of a struct are its fields with a name, each with what its type stands for, taken to
/// be in the file of the struct; of two with one name the later counts.
pub proof fn law_structs_list_their_fields(fields: Seq<Parameter>, path: Seq<char>, n: nat)
    requires
        n <= fields.len(),
    ensures
        forall|k: int, name: Seq<char>|
            0 <= k < n && #[trigger] has_name(fields[k], name) && (forall|j: int|
                k < j < n ==> !#[trigger] has_name(fields[j], name)) ==> value_at(
                field_names(fields, path, n),
                name,
            ) == Some(
                match type_definition(fields[k].ty) {
                    Some(def) => Some(Definition { path, def }),
                    None => None,
                },
            ),
        forall|name: Seq<char>|
            (#[trigger] value_at(field_names(fields, path, n), name)) is Some ==> exists|k: int|
                0 <= k < n && #[trigger] has_name(fields[k], name),
    decreases n,
{
    if n > 0 {
        law_structs_list_their_fields(fields, path, (n - 1) as nat);
        let before = field_names(fields, path, (n - 1) as nat);
        let last = fields[n - 1];
        if let Some(id) = last.id {
            lemma_put(
                before,
                id.name@,
                match type_definition(last.ty) {
                    Some(def) => Some(Definition { path, def }),
                    None => None::<Definition>,
                },
            );
        }
        assert forall|k: int, name: Seq<char>|
            0 <= k < n && #[trigger] has_name(fields[k], name) && (forall|j: int|
                k < j < n ==> !#[trigger] has_name(fields[j], name)) implies value_at(
            field_names(fields, path, n),
            name,
        ) == Some(
            match type_definition(fields[k].ty) {
                Some(def) => Some(Definition { path, def }),
                None => None,
            },
        ) by {
            if k < n - 1 {
                assert(!has_name(fields[n - 1], name));
            }
        }
        assert forall|name: Seq<char>|
            (#[trigger] value_at(field_names(fields, path, n), name)) is Some implies exists|k: int|
            0 <= k < n && #[trigger] has_name(fields[k], name) by {
            if has_name(last, name) {
                assert(has_name(fields[n - 1], name));
            } else {
                assert(value_at(before, name) is Some);
                let k = choose|k: int| 0 <= k < n - 1 && #[trigger] has_name(fields[k], name);
                assert(has_name(fields[k], name));
            }
        }
    }
}

/// The first `n` numbers.
pub open spec fn numbers(n: nat) -> Seq<usize> {
    Seq::new(n, |i: int| i as usize)
}

/// Whether something is declared in the contract with this name.
pub open spec fn declared_in(contract: Option<String>, name: Seq<char>) -> bool {
    contract is Some && contract->Some_0@ == name
}

/// The functions of a contract, by name.
pub open spec fn own_functions(ns: Namespace, contract: Contract) -> NamesModel {
    contract.functions@.filter(|f: usize| f < ns.functions@.len()).map_values(
        |f: usize| (ns.functions@[f as int].id.name@, None::<Definition>),
    )
}

/// The structs that are declared in a contract.
pub open spec fn own_structs(ns: Namespace, name: Seq<char>, path: Seq<char>, n: nat) -> NamesModel {
    numbers(n).filter(|i: usize| declared_in(ns.structs@[i as int].contract, name)).map_values(
        |i: usize|
            (
                ns.structs@[i as int].id.name@,
                Some(
                    Definition { path, def: DefinitionType::Struct(StructType::UserDefined(i)) },
                ),
            ),
    )
}

/// The enums that are declared in a contract.
pub open spec fn own_enums(ns: Namespace, name: Seq<char>, path: Seq<char>, n: nat) -> NamesModel {
    numbers(n).filter(|i: usize| declared_in(ns.enums@[i as int].contract, name)).map_values(
        |i: usize|
            (
                ns.enums@[i as int].id.name@,
                Some(Definition { path, def: DefinitionType::Enum(i) }),
            ),
    )
}

/// The events that are declared in a contract.
pub open spec fn own_events(ns: Namespace, ci: usize, path: Seq<char>, n: nat) -> NamesModel {
    numbers(n).filter(|i: usize| ns.events@[i as int].contract == Some(ci)).map_values(
        |i: usize|
            (
                ns.events@[i as int].id.name@,
                Some(Definition { path, def: DefinitionType::Event(i) }),
            ),
    )
}

/// The variables of a contract, each with what its type stands for.
pub open spec fn own_variables(variables: Seq<StateVariable>) -> NamesModel {
    variables.map_values(
        |v: StateVariable|
            (
                v.name@,
                match type_definition(v.ty) {
                    Some(def) => Some(Definition { path: Seq::empty(), def }),
                    None => None,
                },
            ),
    )
}

proof fn lemma_numbers(n: nat, p: spec_fn(usize) -> bool)
    requires
        n > 0,
    ensures
        numbers(n).filter(p) == if p((n - 1) as usize) {
            numbers((n - 1) as nat).filter(p).push((n - 1) as usize)
        } else {
            numbers((n - 1) as nat).filter(p)
        },
{
    reveal(Seq::filter);
    assert(numbers(n).drop_last() =~= numbers((n - 1) as nat));
    assert(numbers(n).last() == (n - 1) as usize);
}

proof fn lemma_function_names(ns: Namespace, list: Seq<usize>, n: nat)
    requires
        n <= list.len(),
    ensures
        function_names(ns, list, n) == list.take(n as int).filter(
            |f: usize| f < ns.functions@.len(),
        ).map_values(|f: usize| (ns.functions@[f as int].id.name@, None::<Definition>)),
    decreases n,
{
    reveal(Seq::filter);
    let p = |f: usize| f < ns.functions@.len();
    let m = |f: usize| (ns.functions@[f as int].id.name@, None::<Definition>);
    let all = list.take(n as int);
    if n > 0 {
        lemma_function_names(ns, list, (n - 1) as nat);
        assert(all.drop_last() =~= list.take(n - 1));
        assert(all.last() == list[n - 1]);
        assert(function_names(ns, list, n) =~= all.filter(p).map_values(m));
    } else {
        assert(all.filter(p).map_values(m) =~= Seq::empty());
    }
}

proof fn lemma_own_structs(
    ns: Namespace,
    name: Seq<char>,
    path: Seq<char>,
    n: nat,
    done: NamesModel,
)
    requires
        n <= ns.structs@.len() <= usize::MAX,
    ensures
        contract_structs(ns, name, path, n, done) == done + own_structs(ns, name, path, n),
    decreases n,
{
    reveal(Seq::filter);
    let p = |i: usize| declared_in(ns.structs@[i as int].contract, name);
    if n > 0 {
        lemma_own_structs(ns, name, path, (n - 1) as nat, done);
        lemma_numbers(n, p);
        assert(contract_structs(ns, name, path, n, done) =~= done + own_structs(ns, name, path, n));
    } else {
        assert(own_structs(ns, name, path, 0) =~= Seq::empty());
        assert(done + own_structs(ns, name, path, 0) =~= done);
    }
}

proof fn lemma_own_enums(
    ns: Namespace,
    name: Seq<char>,
    path: Seq<char>,
    n: nat,
    done: NamesModel,
)
    requires
        n <= ns.enums@.len() <= usize::MAX,
    ensures
        contract_enums(ns, name, path, n, done) == done + own_enums(ns, name, path, n),
    decreases n,
{
    reveal(Seq::filter);
    let p = |i: usize| declared_in(ns.enums@[i as int].contract, name);
    if n > 0 {
        lemma_own_enums(ns, name, path, (n - 1) as nat, done);
        lemma_numbers(n, p);
        assert(contract_enums(ns, name, path, n, done) =~= done + own_enums(ns, name, path, n));
    } else {
        assert(own_enums(ns, name, path, 0) =~= Seq::empty());
        assert(done + own_enums(ns, name, path, 0) =~= done);
    }
}

proof fn lemma_own_events(ns: Namespace, ci: usize, path: Seq<char>, n: nat, done: NamesModel)
    requires
        n <= ns.events@.len() <= usize::MAX,
    ensures
        contract_events(ns, ci, path, n, done) == done + own_events(ns, ci, path, n),
    decreases n,
{
    reveal(Seq::filter);
    let p = |i: usize| ns.events@[i as int].contract == Some(ci);
    if n > 0 {
        lemma_own_events(ns, ci, path, (n - 1) as nat, done);
        lemma_numbers(n, p);
        assert(contract_events(ns, ci, path, n, done) =~= done + own_events(ns, ci, path, n));
    } else {
        assert(own_events(ns, ci, path, 0) =~= Seq::empty());
        assert(done + own_events(ns, ci, path, 0) =~= done);
    }
}

proof fn lemma_own_variables(variables: Seq<StateVariable>, n: nat, done: NamesModel)
    requires
        n <= variables.len(),
    ensures
        contract_variables(variables, n, done) == done + own_variables(variables.take(n as int)),
    decreases n,
{
    if n > 0 {
        lemma_own_variables(variables, (n - 1) as nat, done);
        assert(contract_variables(variables, n, done) =~= done + own_variables(
            variables.take(n as int),
        ));
    } else {
        assert(done + own_variables(variables.take(0)) =~= done);
    }
}

/// A contract names its functions, the structs, enums and events that are declared in it, and its
/// variables: all of them, in this order, and nothing else.
pub proof fn law_contracts_name_their_contents(
    ns: Namespace,
    contract: Contract,
    ci: usize,
    path: Seq<char>,
)
    ensures
        ({
            let name = contract.id.name@;
            contents(ns, contract, ci, path) == own_functions(ns, contract) + own_structs(
                ns,
                name,
                path,
                ns.structs@.len(),
            ) + own_enums(ns, name, path, ns.enums@.len()) + own_events(
                ns,
                ci,
                path,
                ns.events@.len(),
            ) + own_variables(contract.variables@)
        }),
{
    let name = contract.id.name@;
    let list = contract.functions@;
    let vars = contract.variables@;
    lemma_function_names(ns, list, list.len());
    assert(list.take(list.len() as int) =~= list);
    assert(ns.structs.len() == ns.structs@.len());
    assert(ns.enums.len() == ns.enums@.len());
    assert(ns.events.len() == ns.events@.len());
    let f = own_functions(ns, contract);
    lemma_own_structs(ns, name, path, ns.structs@.len(), f);
    let s = f + own_structs(ns, name, path, ns.structs@.len());
    lemma_own_enums(ns, name, path, ns.enums@.len(), s);
    let e = s + own_enums(ns, name, path, ns.enums@.len());
    lemma_own_events(ns, ci, path, ns.events@.len(), e);
    let v = e + own_events(ns, ci, path, ns.events@.len());
    lemma_own_variables(vars, vars.len(), v);
    assert(vars.take(vars.len() as int) =~= vars);
}

proof fn lemma_local(vars: Seq<(usize, LocalVariable)>, no: usize, i: nat)
    ensures
        match local_variable(vars, no, i) {
            Some(var) => exists|k: int|
                i <= k < vars.len() && (#[trigger] vars[k]).0 == no && vars[k].1 == var && forall|j: int|
                    i <= j < k ==> (#[trigger] vars[j]).0 != no,
            None => forall|k: int| i <= k < vars.len() ==> (#[trigger] vars[k]).0 != no,
        },
    decreases (if i < vars.len() { vars.len() - i } else { 0 }),
{
    if i < vars.len() {
        if vars[i as int].0 == no {
            assert(vars[i as int].1 == local_variable(vars, no, i)->Some_0);
        } else {
            lemma_local(vars, no, i + 1);
            if local_variable(vars, no, i) is Some {
                let var = local_variable(vars, no, i)->Some_0;
                let k = choose|k: int|
                    i + 1 <= k < vars.len() && (#[trigger] vars[k]).0 == no && vars[k].1 == var
                        && forall|j: int| i + 1 <= j < k ==> (#[trigger] vars[j]).0 != no;
                assert(vars[k].0 == no);
            }
        }
    }
}

/// A variable is found by its number: the first one that has it.
pub proof fn law_local_variables_are_found(vars: Seq<(usize, LocalVariable)>, no: usize)
    ensures
        match local_variable(vars, no, 0) {
            Some(var) => exists|k: int|
                0 <= k < vars.len() && (#[trigger] vars[k]).0 == no && vars[k].1 == var && forall|j: int|
                    0 <= j < k ==> (#[trigger] vars[j]).0 != no,
            None => forall|k: int| 0 <= k < vars.len() ==> (#[trigger] vars[k]).0 != no,
        },
{
    lemma_local(vars, no, 0);
}

/// A scope names the variables that its names stand for and that are known, in their order, each with
/// what its type stands for.
pub proof fn law_scopes_name_their_variables(symtable: Symtable, names: Seq<(String, usize)>)
    ensures
        scope_names(symtable, names, names.len()) == names.filter(
            |s: (String, usize)| local_variable(symtable.vars@, s.1, 0) is Some,
        ).map_values(
            |s: (String, usize)|
                {
                    let var = local_variable(symtable.vars@, s.1, 0)->Some_0;
                    (
                        var.name@,
                        match type_definition(var.ty) {
                            Some(def) => Some(Definition { path: Seq::empty(), def }),
                            None => None::<Definition>,
                        },
                    )
                },
        ),
{
    lemma_scope_names(symtable, names, names.len());
    assert(names.take(names.len() as int) =~= names);
}

proof fn lemma_scope_names(symtable: Symtable, names: Seq<(String, usize)>, n: nat)
    requires
        n <= names.len(),
    ensures
        scope_names(symtable, names, n) == names.take(n as int).filter(
            |s: (String, usize)| local_variable(symtable.vars@, s.1, 0) is Some,
        ).map_values(
            |s: (String, usize)|
                {
                    let var = local_variable(symtable.vars@, s.1, 0)->Some_0;
                    (
                        var.name@,
                        match type_definition(var.ty) {
                            Some(def) => Some(Definition { path: Seq::empty(), def }),
                            None => None::<Definition>,
                        },
                    )
                },
        ),
    decreases n,
{
    reveal(Seq::filter);
    let p = |s: (String, usize)| local_variable(symtable.vars@, s.1, 0) is Some;
    let m = |s: (String, usize)|
        {
            let var = local_variable(symtable.vars@, s.1, 0)->Some_0;
            (
                var.name@,
                match type_definition(var.ty) {
                    Some(def) => Some(Definition { path: Seq::empty(), def }),
                    None => None::<Definition>,
                },
            )
        };
    let all = names.take(n as int);
    if n > 0 {
        lemma_scope_names(symtable, names, (n - 1) as nat);
        assert(all.drop_last() =~= names.take(n - 1));
        assert(all.last() == names[n - 1]);
        assert(scope_names(symtable, names, n) =~= all.filter(p).map_values(m));
    } else {
        assert(all.filter(p).map_values(m) =~= Seq::empty());
    }
}

/// A contract implements its functions, in their order, in its own file.
pub proof fn law_contracts_implement_their_functions(path: Seq<char>, list: Seq<usize>)
    ensures
        functions_in(path, list).len() == list.len(),
        forall|k: int|
            0 <= k < list.len() ==> (#[trigger] functions_in(path, list)[k]).def
                == DefinitionType::Function(list[k]) && functions_in(path, list)[k].path == path,
{
}

proof fn lemma_declared(ns: Namespace, list: Seq<usize>, n: nat)
    requires
        n <= list.len(),
        declared_functions(ns, list, n) is Some,
    ensures
        ({
            let functions = declared_functions(ns, list, n)->Some_0;
            &&& functions.len() == n
            &&& forall|k: int|
                0 <= k < n ==> {
                    let f = #[trigger] functions[k];
                    &&& f.def == DefinitionType::Function(list[k])
                    &&& list[k] < ns.functions@.len()
                    &&& file_at(ns, ns.functions@[list[k] as int].loc) is Some
                    &&& f.path == file_at(ns, ns.functions@[list[k] as int].loc)->Some_0.path@
                }
        }),
    decreases n,
{
    if n > 0 {
        lemma_declared(ns, list, (n - 1) as nat);
    }
}

/// Whether these are the functions that the last of `indices` overrides: those of the others that the
/// bases of its contract have, each where it is declared and each once.
pub open spec fn overrides_in_bases(
    ns: Namespace,
    contract: Contract,
    indices: Seq<usize>,
    found: Seq<Definition>,
) -> bool {
    let bases = contract.bases@;
    &&& found.no_duplicates()
    &&& forall|f: usize| #[trigger]
        indices.contains(f) && inherited(ns, bases, bases.len(), f) ==> exists|k: int|
            0 <= k < found.len() && (#[trigger] found[k]).def == DefinitionType::Function(f)
    &&& forall|k: int|
        0 <= k < found.len() ==> {
            &&& (#[trigger] found[k]).def is Function
            &&& indices.contains(found[k].def->Function_0)
            &&& inherited(ns, bases, bases.len(), found[k].def->Function_0)
            &&& Some(found[k].path) == match file_at(
                ns,
                ns.functions@[found[k].def->Function_0 as int].loc,
            ) {
                Some(file) => Some(file.path@),
                None => None,
            }
        }
}

/// The function that overrides the others, in the file of its contract.
pub open spec fn overriding(ns: Namespace, contract: Contract, indices: Seq<usize>) -> Definition {
    Definition {
        path: file_at(ns, contract.loc)->Some_0.path@,
        def: DefinitionType::Function(indices.last()),
    }
}

/// The last of the functions that override each other overrides those of the others that the bases of
/// its contract have, each where it is declared and each once. Nothing changes for other functions,
/// or where the contract has no bases.
pub proof fn law_functions_override_those_of_the_bases(
    ns: Namespace,
    contract: Contract,
    indices: Seq<usize>,
    b: Option<Built>,
    other: Definition,
)
    requires
        b is Some,
        override_built(ns, contract, indices, b) is Some,
    ensures
        ({
            let after = override_built(ns, contract, indices, b)->Some_0;
            let key = overriding(ns, contract, indices);
            &&& indices.len() > 0
            &&& contract.bases@.len() == 0 ==> after == b->Some_0
            &&& contract.bases@.len() > 0 ==> {
                &&& file_at(ns, contract.loc) is Some
                &&& value_at(after.declarations, key) matches Some(found) && overrides_in_bases(
                    ns,
                    contract,
                    indices,
                    found,
                )
                &&& other != key ==> value_at(after.declarations, other) == value_at(
                    b->Some_0.declarations,
                    other,
                )
            }
        }),
{
    reveal(overrides);
    let bases = contract.bases@;
    if bases.len() > 0 {
        let list = overridden(ns, bases, bases.len(), indices)->Some_0;
        let found = declared_functions(ns, list, list.len())->Some_0;
        law_overridden_functions_are_inherited(ns, bases, bases.len(), indices);
        lemma_declared(ns, list, list.len());
        let key = overriding(ns, contract, indices);
        let longer = Definition { path: key.path.push('x'), def: key.def };
        assert(longer.path.len() != key.path.len());
        law_put_then_find(b->Some_0.declarations, key, found, longer);
        if other != key {
            law_put_then_find(b->Some_0.declarations, key, found, other);
        }
        assert forall|i: int, j: int|
            0 <= i < found.len() && 0 <= j < found.len() && i != j implies found[i] != found[j] by {
            assert(list[i] != list[j]);
        }
        assert forall|f: usize| #[trigger]
            indices.contains(f) && inherited(ns, bases, bases.len(), f) implies exists|k: int|
            0 <= k < found.len() && (#[trigger] found[k]).def == DefinitionType::Function(f) by {
            assert(list.contains(f));
            let k = choose|k: int| 0 <= k < list.len() && list[k] == f;
            assert(found[k].def == DefinitionType::Function(f));
        }
        assert forall|k: int| 0 <= k < found.len() implies indices.contains(
            (#[trigger] found[k]).def->Function_0,
        ) && inherited(ns, bases, bases.len(), found[k].def->Function_0) by {
            assert(list.contains(list[k]));
        }
    }
}

proof fn lemma_overrides(ns: Namespace, contract: Contract, n: nat, b: Option<Built>, k: int)
    requires
        0 <= k < n <= contract.virtual_functions@.len(),
        contract.bases@.len() > 0,
        overrides_built(ns, contract, n, b) is Some,
        forall|j: int|
            k < j < n ==> (#[trigger] contract.virtual_functions@[j])@.last()
                != contract.virtual_functions@[k]@.last(),
    ensures
        ({
            let indices = contract.virtual_functions@[k]@;
            let key = overriding(ns, contract, indices);
            value_at(overrides_built(ns, contract, n, b)->Some_0.declarations, key) matches Some(
                found,
            ) && overrides_in_bases(ns, contract, indices, found)
        }),
    decreases n,
{
    let before = overrides_built(ns, contract, (n - 1) as nat, b);
    let last = contract.virtual_functions@[n - 1]@;
    let key = overriding(ns, contract, contract.virtual_functions@[k]@);
    assert(before is Some) by {
        reveal(overrides);
    }
    law_functions_override_those_of_the_bases(ns, contract, last, before, key);
    if k < n - 1 {
        lemma_overrides(ns, contract, (n - 1) as nat, b, k);
        assert(contract.virtual_functions@[n - 1]@.last() != contract.virtual_functions@[k]@.last());
    }
}

/// Each of the functions of a contract that override others is known to override those that the bases
/// have, unless the same function comes again.
pub proof fn law_contracts_know_what_they_override(
    ns: Namespace,
    contract: Contract,
    ci: usize,
    b: Option<Built>,
    k: int,
)
    requires
        0 <= k < contract.virtual_functions@.len(),
        contract.bases@.len() > 0,
        contract_built(ns, contract, ci, b) is Some,
        forall|j: int|
            k < j < contract.virtual_functions@.len() ==> (
            #[trigger] contract.virtual_functions@[j])@.last()
                != contract.virtual_functions@[k]@.last(),
    ensures
        ({
            let indices = contract.virtual_functions@[k]@;
            let key = overriding(ns, contract, indices);
            value_at(contract_built(ns, contract, ci, b)->Some_0.declarations, key) matches Some(
                found,
            ) && overrides_in_bases(ns, contract, indices, found)
        }),
{
    reveal(has_members);
    reveal(scoped);
    reveal(at_top_level);
    let path = file_at(ns, contract.loc)->Some_0.path@;
    let with_variables = state_variables_built(
        ns,
        contract.variables@,
        Some(ci),
        contract.variables@.len(),
        bases_built(ns, contract.bases@, contract.bases@.len(), b),
    );
    let def = DefinitionType::Contract(ci);
    let shown = hovered_in(with_variables, contract.loc, contract.id.loc, contract.tags@);
    let defined = defined_in(ns, shown, contract.loc, contract.id.loc, def);
    let implemented = implements(
        ns,
        defined,
        contract.loc,
        def,
        functions_in(path, contract.functions@),
    );
    lemma_overrides(ns, contract, contract.virtual_functions@.len(), implemented, k);
}

proof fn lemma_mapped<K, V, W>(pairs: Seq<(K, V)>, f: spec_fn(V) -> W, key: K, i: nat)
    ensures
        key_place(pairs.map_values(|p: (K, V)| (p.0, f(p.1))), key, i) == key_place(pairs, key, i),
    decreases (if i < pairs.len() { pairs.len() - i } else { 0 }),
{
    if i < pairs.len() {
        lemma_mapped(pairs, f, key, i + 1);
    }
}

/// A code object that is known to be defined in one file stands there.
proof fn lemma_placed(
    ns: Namespace,
    b: Option<Built>,
    file_loc: Loc,
    place: Loc,
    def: DefinitionType,
)
    requires
        b is Some,
        placed_at(ns, b, file_loc, place, def),
    ensures
        placed(b->Some_0.definitions, unplaced(def)) == (Definition {
            path: file_at(ns, file_loc)->Some_0.path@,
            def,
        }),
{
    let defs = b->Some_0.definitions;
    let d = Definition { path: file_at(ns, file_loc)->Some_0.path@, def };
    lemma_key_place(defs, d, 0);
    let i = key_place(defs, d, 0)->Some_0 as int;
    lemma_last_path(defs, def, defs.len(), i);
    let found = Definition { path: last_path(defs, def, defs.len())->Some_0, def };
    let j = choose|j: int|
        0 <= j < defs.len() && #[trigger] defs[j].0 == (Definition {
            path: last_path(defs, def, defs.len())->Some_0,
            def,
        });
    lemma_key_place(defs, found, 0);
    assert(defs[j].0 == found);
    assert(value_at(defs, found) is Some);
}

/// The type of a code object leads to the one file where the type is defined.
pub proof fn law_types_lead_to_definitions(
    ns: Namespace,
    key: Definition,
    def: DefinitionType,
    file_loc: Loc,
    place: Loc,
)
    requires
        lookups(ns) is Some,
        value_at(collected(ns)->Some_0.types, key) == Some(unplaced(def)),
        placed_at(ns, collected(ns), file_loc, place, def),
    ensures
        value_at(lookups(ns)->Some_0.types, key) == Some(
            Definition { path: file_at(ns, file_loc)->Some_0.path@, def },
        ),
{
    let built = collected(ns)->Some_0;
    let defs = built.definitions;
    let f = |d: Definition| placed(defs, d);
    lemma_placed(ns, collected(ns), file_loc, place, def);
    lemma_mapped(built.types, f, key, 0);
    assert(lookups(ns)->Some_0.types =~= built.types.map_values(
        |p: (Definition, Definition)| (p.0, f(p.1)),
    ));
    lemma_key_place(built.types, key, 0);
}

/// The members of a code object keep their names and their order. A member whose file is not given
/// leads to the file where it is defined, one whose file is given stays, as do those without any.
pub proof fn law_members_are_looked_up(ns: Namespace, key: Definition, names: NamesModel, k: int)
    requires
        lookups(ns) is Some,
        value_at(collected(ns)->Some_0.properties, key) == Some(names),
        0 <= k < names.len(),
    ensures
        value_at(lookups(ns)->Some_0.properties, key) matches Some(found) && {
            let defs = collected(ns)->Some_0.definitions;
            &&& found.len() == names.len()
            &&& found[k].0 == names[k].0
            &&& found[k].1 is Some <==> names[k].1 is Some
            &&& names[k].1 matches Some(d) ==> found[k].1->Some_0.def == d.def && (d.path.len() > 0
                ==> found[k].1->Some_0 == d)
            &&& forall|file_loc: Loc, place: Loc, def: DefinitionType|
                names[k].1 == Some(unplaced(def)) && #[trigger] placed_at(
                    ns,
                    collected(ns),
                    file_loc,
                    place,
                    def,
                ) ==> found[k].1 == Some(
                    Definition { path: file_at(ns, file_loc)->Some_0.path@, def },
                )
        },
{
    let built = collected(ns)->Some_0;
    let defs = built.definitions;
    let g = |n: (Seq<char>, Option<Definition>)| (n.0, placed_if_open(defs, n.1));
    let f = |m: NamesModel| m.map_values(g);
    lemma_mapped(built.properties, f, key, 0);
    assert(lookups(ns)->Some_0.properties =~= built.properties.map_values(
        |p: (Definition, NamesModel)| (p.0, f(p.1)),
    ));
    lemma_key_place(built.properties, key, 0);
    let found = value_at(lookups(ns)->Some_0.properties, key)->Some_0;
    assert(found == f(names));
    assert(found[k] == g(names[k]));
    assert forall|file_loc: Loc, place: Loc, def: DefinitionType|
        names[k].1 == Some(unplaced(def)) && #[trigger] placed_at(
            ns,
            collected(ns),
            file_loc,
            place,
            def,
        ) implies found[k].1 == Some(
        Definition { path: file_at(ns, file_loc)->Some_0.path@, def },
    ) by {
        lemma_placed(ns, collected(ns), file_loc, place, def);
    }
}

/// Definitions, implementations and overridden functions are looked up as they were collected, and
/// scopes keep their ranges and the names in them.
pub proof fn law_other_tables_stay(ns: Namespace, s: ScopeModel)
    requires
        lookups(ns) is Some,
    ensures
        collected(ns) is Some,
        lookups(ns)->Some_0.definitions == collected(ns)->Some_0.definitions,
        lookups(ns)->Some_0.implementations == collected(ns)->Some_0.implementations,
        lookups(ns)->Some_0.declarations == collected(ns)->Some_0.declarations,
        collected(ns)->Some_0.scopes.contains(s) ==> exists|found: ScopeModel|
            {
                &&& #[trigger] lookups(ns)->Some_0.scopes.contains(found)
                &&& found.file_no == s.file_no
                &&& found.start == s.start
                &&& found.stop == s.stop
                &&& found.val.len() == s.val.len()
                &&& forall|k: int|
                    0 <= k < s.val.len() ==> (#[trigger] found.val[k]).0 == s.val[k].0 && (
                    found.val[k].1 is Some <==> s.val[k].1 is Some)
            },
{
    let built = collected(ns)->Some_0;
    let scopes = lookups(ns)->Some_0.scopes;
    if built.scopes.contains(s) {
        let k = choose|k: int| 0 <= k < built.scopes.len() && built.scopes[k] == s;
        assert(scopes.contains(scopes[k]));
    }
}

/// What a file names at its top level is found by its name; of two with one name the later counts.
/// Nothing else is named there.
pub proof fn law_files_name_their_objects(
    objects: Seq<(usize, (Seq<char>, Option<Definition>))>,
    file_no: usize,
    n: nat,
)
    requires
        n <= objects.len(),
    ensures
        forall|k: int|
            0 <= k < n && (#[trigger] objects[k]).0 == file_no && (forall|j: int|
                k < j < n && (#[trigger] objects[j]).0 == file_no ==> objects[j].1.0
                    != objects[k].1.0) ==> value_at(
                file_objects(objects, file_no, n),
                objects[k].1.0,
            ) == Some(objects[k].1.1),
        forall|name: Seq<char>|
            (#[trigger] value_at(file_objects(objects, file_no, n), name)) is Some ==> exists|k: int|
                0 <= k < n && (#[trigger] objects[k]).0 == file_no && objects[k].1.0 == name,
    decreases n,
{
    if n > 0 {
        law_files_name_their_objects(objects, file_no, (n - 1) as nat);
        let before = file_objects(objects, file_no, (n - 1) as nat);
        let last = objects[n - 1];
        if last.0 == file_no {
            lemma_put(before, last.1.0, last.1.1);
        }
        assert forall|k: int|
            0 <= k < n && (#[trigger] objects[k]).0 == file_no && (forall|j: int|
                k < j < n && (#[trigger] objects[j]).0 == file_no ==> objects[j].1.0
                    != objects[k].1.0) implies value_at(
            file_objects(objects, file_no, n),
            objects[k].1.0,
        ) == Some(objects[k].1.1) by {
            if k < n - 1 && last.0 == file_no {
                assert(objects[n - 1].1.0 != objects[k].1.0);
            }
        }
        assert forall|name: Seq<char>|
            (#[trigger] value_at(file_objects(objects, file_no, n), name)) is Some implies exists|
            k: int,
        |
            0 <= k < n && (#[trigger] objects[k]).0 == file_no && objects[k].1.0 == name by {
            if last.0 == file_no && last.1.0 == name {
                assert(objects[n - 1].0 == file_no);
            } else {
                assert(value_at(before, name) is Some);
                let k = choose|k: int|
                    0 <= k < n - 1 && (#[trigger] objects[k]).0 == file_no && objects[k].1.0 == name;
                assert(objects[k].0 == file_no);
            }
        }
    }
}

} // verus!

//! What is collected from contracts, and the traversal of a whole namespace.

use vstd::prelude::*;
use vstd::string::StringExecFns;

use crate::builder::{
    defined_in, file_at, has_members, hovered, hovered_in, implements, named_models, overrides,
    referred, scoped, Builder, Built, NamedObject, NamesModel,
};
use crate::declarations::{
    enum_built, event_built, function_built, get_type_object, object_at_top_level, put_name,
    state_variable_built, struct_built, type_object,
};
use crate::definitions::{
    definition_models, optional_definition, with_pairs, Definition, DefinitionIndex, DefinitionType,
    StructType,
};
use crate::hover_text::{code_block, make_code_block};
use crate::namespace::{Base, Contract, Namespace, StateVariable};
use crate::text::same_text;

verus! {

/// What is collected from the first `n` bases of a contract.
pub open spec fn bases_built(ns: Namespace, bases: Seq<Base>, n: nat, b: Option<Built>) -> Option<
    Built,
>
    decreases n,
{
    if n == 0 || n > bases.len() {
        b
    } else {
        let base = bases[n - 1];
        referred(
            hovered(
                bases_built(ns, bases, (n - 1) as nat, b),
                base.loc,
                contract_title(ns, base.contract_no),
            ),
            base.loc,
            DefinitionType::Contract(base.contract_no),
        )
    }
}

/// What is shown for a use of a contract.
pub open spec fn contract_title(ns: Namespace, contract_no: usize) -> Option<Seq<char>> {
    if contract_no < ns.contracts@.len() {
        Some(code_block("contract "@ + ns.contracts@[contract_no as int].id.name@))
    } else {
        None
    }
}

/// What is collected from the first `n` variables of the contract with number `ci`.
pub open spec fn state_variables_built(
    ns: Namespace,
    variables: Seq<StateVariable>,
    contract_no: Option<usize>,
    n: nat,
    b: Option<Built>,
) -> Option<Built>
    decreases n,
{
    if n == 0 || n > variables.len() {
        b
    } else {
        state_variable_built(
            ns,
            variables[n - 1],
            contract_no,
            (n - 1) as usize,
            state_variables_built(ns, variables, contract_no, (n - 1) as nat, b),
        )
    }
}

/// The functions with these numbers, in the file at `path`.
pub open spec fn functions_in(path: Seq<char>, numbers: Seq<usize>) -> Seq<Definition> {
    numbers.map_values(|f: usize| Definition { path, def: DefinitionType::Function(f) })
}

/// `done` and those of the first `n` functions of a base that are among `all`, each once.
pub open spec fn overridden_in(
    functions: Seq<usize>,
    n: nat,
    all: Seq<usize>,
    done: Seq<usize>,
) -> Seq<usize>
    decreases n,
{
    if n == 0 || n > functions.len() {
        done
    } else {
        let before = overridden_in(functions, (n - 1) as nat, all, done);
        let f = functions[n - 1];
        if all.contains(f) && !before.contains(f) {
            before.push(f)
        } else {
            before
        }
    }
}

/// The functions of the first `n` bases that are among `all`, each once.
pub open spec fn overridden(ns: Namespace, bases: Seq<Base>, n: nat, all: Seq<usize>) -> Option<
    Seq<usize>,
>
    decreases n,
{
    if n == 0 || n > bases.len() {
        Some(Seq::empty())
    } else {
        let base = bases[n - 1];
        match overridden(ns, bases, (n - 1) as nat, all) {
            Some(done) if base.contract_no < ns.contracts@.len() => {
                let functions = ns.contracts@[base.contract_no as int].functions@;
                Some(overridden_in(functions, functions.len(), all, done))
            },
            _ => None,
        }
    }
}

/// The first `n` functions, each in the file where it is declared.
pub open spec fn declared_functions(ns: Namespace, numbers: Seq<usize>, n: nat) -> Option<
    Seq<Definition>,
>
    decreases n,
{
    if n == 0 || n > numbers.len() {
        Some(Seq::empty())
    } else {
        let f = numbers[n - 1];
        match declared_functions(ns, numbers, (n - 1) as nat) {
            Some(before) if f < ns.functions@.len() => match file_at(
                ns,
                ns.functions@[f as int].loc,
            ) {
                Some(file) => Some(
                    before.push(
                        Definition { path: file.path@, def: DefinitionType::Function(f) },
                    ),
                ),
                None => None,
            },
            _ => None,
        }
    }
}

/// What is collected from functions that override each other: the last of them, which belongs to the
/// contract, overrides those that belong to its bases. A contract without bases overrides none.
pub open spec fn override_built(
    ns: Namespace,
    contract: Contract,
    indices: Seq<usize>,
    b: Option<Built>,
) -> Option<Built> {
    if indices.len() == 0 {
        None
    } else if contract.bases@.len() == 0 {
        b
    } else {
        match overridden(ns, contract.bases@, contract.bases@.len(), indices) {
            None => None,
            Some(numbers) => match declared_functions(ns, numbers, numbers.len()) {
                None => None,
                Some(functions) => overrides(
                    ns,
                    b,
                    contract.loc,
                    DefinitionType::Function(indices.last()),
                    functions,
                ),
            },
        }
    }
}

pub open spec fn overrides_built(ns: Namespace, contract: Contract, n: nat, b: Option<Built>) -> Option<
    Built,
>
    decreases n,
{
    if n == 0 || n > contract.virtual_functions@.len() {
        b
    } else {
        override_built(
            ns,
            contract,
            contract.virtual_functions@[n - 1]@,
            overrides_built(ns, contract, (n - 1) as nat, b),
        )
    }
}

/// The names of the first `n` functions.
pub open spec fn function_names(ns: Namespace, numbers: Seq<usize>, n: nat) -> NamesModel
    decreases n,
{
    if n == 0 || n > numbers.len() {
        Seq::empty()
    } else {
        let before = function_names(ns, numbers, (n - 1) as nat);
        if numbers[n - 1] < ns.functions@.len() {
            before.push((ns.functions@[numbers[n - 1] as int].id.name@, None))
        } else {
            before
        }
    }
}

/// Whether something is declared in the contract with this name.
pub open spec fn within(contract: Option<String>, name: Seq<char>) -> bool {
    match contract {
        Some(c) => c@ == name,
        None => false,
    }
}

/// `done` and those of the first `n` structs that are declared in the contract.
pub open spec fn contract_structs(
    ns: Namespace,
    contract: Seq<char>,
    path: Seq<char>,
    n: nat,
    done: NamesModel,
) -> NamesModel
    decreases n,
{
    if n == 0 || n > ns.structs@.len() {
        done
    } else {
        let before = contract_structs(ns, contract, path, (n - 1) as nat, done);
        let decl = ns.structs@[n - 1];
        if within(decl.contract, contract) {
            let def = DefinitionType::Struct(StructType::UserDefined((n - 1) as usize));
            before.push((decl.id.name@, Some(Definition { path, def })))
        } else {
            before
        }
    }
}

/// `done` and those of the first `n` enums that are declared in the contract.
pub open spec fn contract_enums(
    ns: Namespace,
    contract: Seq<char>,
    path: Seq<char>,
    n: nat,
    done: NamesModel,
) -> NamesModel
    decreases n,
{
    if n == 0 || n > ns.enums@.len() {
        done
    } else {
        let before = contract_enums(ns, contract, path, (n - 1) as nat, done);
        let decl = ns.enums@[n - 1];
        if within(decl.contract, contract) {
            let def = DefinitionType::Enum((n - 1) as usize);
            before.push((decl.id.name@, Some(Definition { path, def })))
        } else {
            before
        }
    }
}

/// `done` and those of the first `n` events that are declared in the contract with number `ci`.
pub open spec fn contract_events(
    ns: Namespace,
    ci: usize,
    path: Seq<char>,
    n: nat,
    done: NamesModel,
) -> NamesModel
    decreases n,
{
    if n == 0 || n > ns.events@.len() {
        done
    } else {
        let before = contract_events(ns, ci, path, (n - 1) as nat, done);
        let decl = ns.events@[n - 1];
        if decl.contract == Some(ci) {
            let def = DefinitionType::Event((n - 1) as usize);
            before.push((decl.id.name@, Some(Definition { path, def })))
        } else {
            before
        }
    }
}

/// `done` and the first `n` variables.
pub open spec fn contract_variables(variables: Seq<StateVariable>, n: nat, done: NamesModel) -> NamesModel
    decreases n,
{
    if n == 0 || n > variables.len() {
        done
    } else {
        contract_variables(variables, (n - 1) as nat, done).push(
            (variables[n - 1].name@, type_object(variables[n - 1].ty)),
        )
    }
}

/// What a contract names: its functions, structs, enums, events and variables.
pub open spec fn contents(ns: Namespace, contract: Contract, ci: usize, path: Seq<char>) -> NamesModel {
    let functions = function_names(ns, contract.functions@, contract.functions@.len());
    let name = contract.id.name@;
    let with_structs = contract_structs(ns, name, path, ns.structs@.len(), functions);
    let with_enums = contract_enums(ns, name, path, ns.enums@.len(), with_structs);
    let with_events = contract_events(ns, ci, path, ns.events@.len(), with_enums);
    contract_variables(contract.variables@, contract.variables@.len(), with_events)
}

/// What is collected from the contract with number `ci`.
pub open spec fn contract_built(ns: Namespace, contract: Contract, ci: usize, b: Option<Built>) -> Option<
    Built,
> {
    let def = DefinitionType::Contract(ci);
    let with_bases = bases_built(ns, contract.bases@, contract.bases@.len(), b);
    let with_variables = state_variables_built(
        ns,
        contract.variables@,
        Some(ci),
        contract.variables@.len(),
        with_bases,
    );
    match file_at(ns, contract.loc) {
        None => None,
        Some(file) => {
            let shown = hovered_in(
                with_variables,
                contract.loc,
                contract.id.loc,
                contract.tags@,
            );
            let placed = defined_in(ns, shown, contract.loc, contract.id.loc, def);
            let implemented = implements(
                ns,
                placed,
                contract.loc,
                def,
                functions_in(file.path@, contract.functions@),
            );
            let with_overrides = overrides_built(
                ns,
                contract,
                contract.virtual_functions@.len(),
                implemented,
            );
            let names = contents(ns, contract, ci, file.path@);
            let listed = has_members(
                ns,
                with_overrides,
                contract.loc,
                def,
                with_pairs(Seq::empty(), names, names.len()),
            );
            let with_scope = scoped(listed, contract.loc, contract.loc, names);
            object_at_top_level(ns, with_scope, contract.loc, contract.id.name@, def)
        },
    }
}

fn contains_number(numbers: &Vec<usize>, n: usize) -> (r: bool)
    ensures
        r == numbers@.contains(n),
{
    let mut i: usize = 0;
    while i < numbers.len()
        invariant
            i <= numbers@.len(),
            forall|k: int| 0 <= k < i ==> numbers@[k] != n,
        decreases numbers@.len() - i,
    {
        if numbers[i] == n {
            return true;
        }
        i = i + 1;
    }
    false
}

fn add_overridden(functions: &Vec<usize>, all: &Vec<usize>, done: &mut Vec<usize>)
    ensures
        final(done)@ == overridden_in(functions@, functions@.len(), all@, old(done)@),
{
    let mut i: usize = 0;
    while i < functions.len()
        invariant
            i <= functions@.len(),
            done@ == overridden_in(functions@, i as nat, all@, old(done)@),
        decreases functions@.len() - i,
    {
        let f: usize = functions[i];
        if contains_number(all, f) && !contains_number(done, f) {
            done.push(f);
        }
        i = i + 1;
    }
}

fn find_overridden(ns: &Namespace, bases: &Vec<Base>, all: &Vec<usize>) -> (r: Option<Vec<usize>>)
    ensures
        match overridden(*ns, bases@, bases@.len(), all@) {
            Some(numbers) => r is Some && r->Some_0@ == numbers,
            None => r is None,
        },
{
    let mut done: Vec<usize> = Vec::new();
    assert(done@ =~= Seq::<usize>::empty());
    let mut i: usize = 0;
    while i < bases.len()
        invariant
            i <= bases@.len(),
            overridden(*ns, bases@, i as nat, all@) == Some(done@),
        decreases bases@.len() - i,
    {
        let no: usize = bases[i].contract_no;
        if no >= ns.contracts.len() {
            proof {
                lemma_overridden_fails(*ns, bases@, (i + 1) as nat, all@);
            }
            return None;
        }
        add_overridden(&ns.contracts[no].functions, all, &mut done);
        i = i + 1;
    }
    Some(done)
}

proof fn lemma_overridden_fails(ns: Namespace, bases: Seq<Base>, n: nat, all: Seq<usize>)
    requires
        0 < n <= bases.len(),
        overridden(ns, bases, n, all) is None,
    ensures
        overridden(ns, bases, bases.len(), all) is None,
    decreases bases.len() - n,
{
    if n < bases.len() {
        lemma_overridden_fails(ns, bases, n + 1, all);
    }
}

proof fn lemma_declared_fails(ns: Namespace, numbers: Seq<usize>, n: nat)
    requires
        0 < n <= numbers.len(),
        declared_functions(ns, numbers, n) is None,
    ensures
        declared_functions(ns, numbers, numbers.len()) is None,
    decreases numbers.len() - n,
{
    if n < numbers.len() {
        lemma_declared_fails(ns, numbers, n + 1);
    }
}

fn place_functions(path: &str, numbers: &Vec<usize>) -> (r: Vec<DefinitionIndex>)
    ensures
        definition_models(r@) == functions_in(path@, numbers@),
{
    let mut functions: Vec<DefinitionIndex> = Vec::new();
    let mut i: usize = 0;
    while i < numbers.len()
        invariant
            i <= numbers@.len(),
            functions@.len() == i,
            forall|k: int|
                0 <= k < i ==> (#[trigger] functions@[k])@ == (Definition {
                    path: path@,
                    def: DefinitionType::Function(numbers@[k]),
                }),
        decreases numbers@.len() - i,
    {
        functions.push(DefinitionIndex::at(path, DefinitionType::Function(numbers[i])));
        i = i + 1;
    }
    assert(definition_models(functions@) =~= functions_in(path@, numbers@));
    functions
}

fn push_object(names: &mut Vec<NamedObject>, name: &String, object: Option<DefinitionIndex>)
    ensures
        named_models(final(names)@) == named_models(old(names)@).push(
            (name@, optional_definition(object)),
        ),
{
    let ghost before = named_models(names@);
    let ghost added = (name@, optional_definition(object));
    names.push((name.clone(), object));
    assert(named_models(names@) =~= before.push(added));
}

fn is_within(contract: &Option<String>, name: &String) -> (r: bool)
    ensures
        r == within(*contract, name@),
{
    match contract {
        Some(c) => same_text(c.as_str(), name.as_str()),
        None => false,
    }
}

fn contract_contents(ns: &Namespace, contract: &Contract, ci: usize, path: &str) -> (r: Vec<
    NamedObject,
>)
    ensures
        named_models(r@) == contents(*ns, *contract, ci, path@),
{
    let mut names: Vec<NamedObject> = Vec::new();
    assert(named_models(names@) =~= Seq::empty());
    let mut i: usize = 0;
    while i < contract.functions.len()
        invariant
            i <= contract.functions@.len(),
            named_models(names@) == function_names(*ns, contract.functions@, i as nat),
        decreases contract.functions@.len() - i,
    {
        let f: usize = contract.functions[i];
        if f < ns.functions.len() {
            push_object(&mut names, &ns.functions[f].id.name, None);
        }
        i = i + 1;
    }
    let ghost done = named_models(names@);
    i = 0;
    while i < ns.structs.len()
        invariant
            i <= ns.structs@.len(),
            named_models(names@) == contract_structs(
                *ns,
                contract.id.name@,
                path@,
                i as nat,
                done,
            ),
        decreases ns.structs@.len() - i,
    {
        let decl = &ns.structs[i];
        if is_within(&decl.contract, &contract.id.name) {
            let def = DefinitionType::Struct(StructType::UserDefined(i));
            push_object(&mut names, &decl.id.name, Some(DefinitionIndex::at(path, def)));
        }
        i = i + 1;
    }
    let ghost done = named_models(names@);
    i = 0;
    while i < ns.enums.len()
        invariant
            i <= ns.enums@.len(),
            named_models(names@) == contract_enums(
                *ns,
                contract.id.name@,
                path@,
                i as nat,
                done,
            ),
        decreases ns.enums@.len() - i,
    {
        let decl = &ns.enums[i];
        if is_within(&decl.contract, &contract.id.name) {
            let def = DefinitionType::Enum(i);
            push_object(&mut names, &decl.id.name, Some(DefinitionIndex::at(path, def)));
        }
        i = i + 1;
    }
    let ghost done = named_models(names@);
    i = 0;
    while i < ns.events.len()
        invariant
            i <= ns.events@.len(),
            named_models(names@) == contract_events(*ns, ci, path@, i as nat, done),
        decreases ns.events@.len() - i,
    {
        let decl = &ns.events[i];
        let inside: bool = match decl.contract {
            Some(no) => no == ci,
            None => false,
        };
        if inside {
            let def = DefinitionType::Event(i);
            push_object(&mut names, &decl.id.name, Some(DefinitionIndex::at(path, def)));
        }
        i = i + 1;
    }
    let ghost done = named_models(names@);
    i = 0;
    while i < contract.variables.len()
        invariant
            i <= contract.variables@.len(),
            named_models(names@) == contract_variables(contract.variables@, i as nat, done),
        decreases contract.variables@.len() - i,
    {
        let variable = &contract.variables[i];
        push_object(&mut names, &variable.name, get_type_object(&variable.ty));
        i = i + 1;
    }
    names
}

fn copy_object(object: &Option<DefinitionIndex>) -> (r: Option<DefinitionIndex>)
    ensures
        optional_definition(r) == optional_definition(*object),
{
    match object {
        Some(index) => Some(index.copy()),
        None => None,
    }
}

fn by_name(names: &Vec<NamedObject>) -> (r: Vec<NamedObject>)
    ensures
        named_models(r@) == with_pairs(
            Seq::empty(),
            named_models(names@),
            named_models(names@).len(),
        ),
{
    let ghost all = named_models(names@);
    let mut unique: Vec<NamedObject> = Vec::new();
    assert(named_models(unique@) =~= Seq::empty());
    let mut i: usize = 0;
    while i < names.len()
        invariant
            i <= names@.len(),
            all == named_models(names@),
            named_models(unique@) == with_pairs(Seq::empty(), all, i as nat),
        decreases names@.len() - i,
    {
        assert(all[i as int] == (names@[i as int].0@, optional_definition(names@[i as int].1)));
        put_name(&mut unique, names[i].0.clone(), copy_object(&names[i].1));
        i = i + 1;
    }
    unique
}

impl<'a> Builder<'a> {
    fn bases(&mut self, bases: &Vec<Base>)
        ensures
            final(self).built() == bases_built(
                old(self).namespace(),
                bases@,
                bases@.len(),
                old(self).built(),
            ),
            final(self).namespace() == old(self).namespace(),
    {
        let mut i: usize = 0;
        while i < bases.len()
            invariant
                i <= bases@.len(),
                self.namespace() == old(self).namespace(),
                self.built() == bases_built(
                    old(self).namespace(),
                    bases@,
                    i as nat,
                    old(self).built(),
                ),
            decreases bases@.len() - i,
        {
            let base = &bases[i];
            let ns: &Namespace = self.ns();
            let text = if base.contract_no < ns.contracts.len() {
                let mut title = "contract ".to_string();
                title.append(ns.contracts[base.contract_no].id.name.as_str());
                Some(make_code_block(title.as_str()))
            } else {
                None
            };
            self.hover_some(&base.loc, text);
            self.refer(&base.loc, DefinitionType::Contract(base.contract_no));
            i = i + 1;
        }
    }

    fn state_variables(&mut self, variables: &Vec<StateVariable>, contract_no: Option<usize>)
        ensures
            final(self).built() == state_variables_built(
                old(self).namespace(),
                variables@,
                contract_no,
                variables@.len(),
                old(self).built(),
            ),
            final(self).namespace() == old(self).namespace(),
    {
        let mut i: usize = 0;
        while i < variables.len()
            invariant
                i <= variables@.len(),
                self.namespace() == old(self).namespace(),
                self.built() == state_variables_built(
                    old(self).namespace(),
                    variables@,
                    contract_no,
                    i as nat,
                    old(self).built(),
                ),
            decreases variables@.len() - i,
        {
            self.contract_variable(&variables[i], contract_no, i);
            i = i + 1;
        }
    }

    fn find_declarations(&self, numbers: &Vec<usize>) -> (r: Option<Vec<DefinitionIndex>>)
        ensures
            match declared_functions(self.namespace(), numbers@, numbers@.len()) {
                Some(functions) => r is Some && definition_models(r->Some_0@) == functions,
                None => r is None,
            },
    {
        let ns: &Namespace = self.ns();
        let mut functions: Vec<DefinitionIndex> = Vec::new();
        assert(definition_models(functions@) =~= Seq::<Definition>::empty());
        let mut i: usize = 0;
        while i < numbers.len()
            invariant
                i <= numbers@.len(),
                *ns == self.namespace(),
                declared_functions(*ns, numbers@, i as nat) == Some(definition_models(functions@)),
            decreases numbers@.len() - i,
        {
            let f: usize = numbers[i];
            if f >= ns.functions.len() {
                proof {
                    lemma_declared_fails(*ns, numbers@, (i + 1) as nat);
                }
                return None;
            }
            match self.file_of(&ns.functions[f].loc) {
                Some(file) => {
                    let ghost before = definition_models(functions@);
                    let index = DefinitionIndex::at(
                        file.path.as_str(),
                        DefinitionType::Function(f),
                    );
                    let ghost added = index@;
                    functions.push(index);
                    assert(definition_models(functions@) =~= before.push(added));
                },
                None => {
                    proof {
                        lemma_declared_fails(*ns, numbers@, (i + 1) as nat);
                    }
                    return None;
                },
            }
            i = i + 1;
        }
        Some(functions)
    }

    fn overriding(&mut self, contract: &Contract, indices: &Vec<usize>)
        ensures
            final(self).built() == override_built(
                old(self).namespace(),
                *contract,
                indices@,
                old(self).built(),
            ),
            final(self).namespace() == old(self).namespace(),
    {
        let n: usize = indices.len();
        if n == 0 {
            self.fail();
            return ;
        }
        if contract.bases.len() == 0 {
            return ;
        }
        let numbers = match find_overridden(self.ns(), &contract.bases, indices) {
            Some(numbers) => numbers,
            None => {
                self.fail();
                return ;
            },
        };
        match self.find_declarations(&numbers) {
            Some(functions) => {
                self.set_declarations(
                    &contract.loc,
                    DefinitionType::Function(indices[n - 1]),
                    functions,
                );
            },
            None => {
                self.fail();
            },
        }
    }

    fn all_overriding(&mut self, contract: &Contract)
        ensures
            final(self).built() == overrides_built(
                old(self).namespace(),
                *contract,
                contract.virtual_functions@.len(),
                old(self).built(),
            ),
            final(self).namespace() == old(self).namespace(),
    {
        let mut i: usize = 0;
        while i < contract.virtual_functions.len()
            invariant
                i <= contract.virtual_functions@.len(),
                self.namespace() == old(self).namespace(),
                self.built() == overrides_built(
                    old(self).namespace(),
                    *contract,
                    i as nat,
                    old(self).built(),
                ),
            decreases contract.virtual_functions@.len() - i,
        {
            self.overriding(contract, &contract.virtual_functions[i]);
            i = i + 1;
        }
    }

    fn contract_decl(&mut self, contract: &Contract, ci: usize)
        ensures
            final(self).built() == contract_built(
                old(self).namespace(),
                *contract,
                ci,
                old(self).built(),
            ),
            final(self).namespace() == old(self).namespace(),
    {
        let def = DefinitionType::Contract(ci);
        self.bases(&contract.bases);
        self.state_variables(&contract.variables, Some(ci));
        match self.file_of(&contract.loc) {
            Some(file) => {
                self.hover_in(&contract.loc, &contract.id.loc, contract.tags.clone());
                self.define_in(&contract.loc, &contract.id.loc, def);
                // all the implementations for a contract are present in the same file
                let implementations = place_functions(file.path.as_str(), &contract.functions);
                self.set_implementations(&contract.loc, def, implementations);
                self.all_overriding(contract);
                let names = contract_contents(self.ns(), contract, ci, file.path.as_str());
                let members = by_name(&names);
                self.set_members(&contract.loc, def, members);
                self.add_scope(&contract.loc, &contract.loc, names);
                // contracts cannot be defined within other contracts
                self.top_level_object(&contract.loc, &contract.id.name, def);
            },
            None => {
                self.fail();
            },
        }
    }
}

pub open spec fn enums_built(ns: Namespace, n: nat, b: Option<Built>) -> Option<Built>
    decreases n,
{
    if n == 0 || n > ns.enums@.len() {
        b
    } else {
        enum_built(ns, ns.enums@[n - 1], (n - 1) as usize, enums_built(ns, (n - 1) as nat, b))
    }
}

pub open spec fn structs_built(ns: Namespace, n: nat, b: Option<Built>) -> Option<Built>
    decreases n,
{
    if n == 0 || n > ns.structs@.len() {
        b
    } else {
        struct_built(
            ns,
            ns.structs@[n - 1],
            (n - 1) as usize,
            structs_built(ns, (n - 1) as nat, b),
        )
    }
}

pub open spec fn functions_built(ns: Namespace, n: nat, b: Option<Built>) -> Option<Built>
    decreases n,
{
    if n == 0 || n > ns.functions@.len() {
        b
    } else {
        function_built(
            ns,
            ns.functions@[n - 1],
            (n - 1) as usize,
            functions_built(ns, (n - 1) as nat, b),
        )
    }
}

pub open spec fn contracts_built(ns: Namespace, n: nat, b: Option<Built>) -> Option<Built>
    decreases n,
{
    if n == 0 || n > ns.contracts@.len() {
        b
    } else {
        contract_built(
            ns,
            ns.contracts@[n - 1],
            (n - 1) as usize,
            contracts_built(ns, (n - 1) as nat, b),
        )
    }
}

pub open spec fn events_built(ns: Namespace, n: nat, b: Option<Built>) -> Option<Built>
    decreases n,
{
    if n == 0 || n > ns.events@.len() {
        b
    } else {
        event_built(ns, ns.events@[n - 1], (n - 1) as usize, events_built(ns, (n - 1) as nat, b))
    }
}

/// What is collected from a namespace: enums first, then structs, functions, constants, contracts
/// and events.
pub open spec fn namespace_built(ns: Namespace, b: Option<Built>) -> Option<Built> {
    let with_enums = enums_built(ns, ns.enums@.len(), b);
    let with_structs = structs_built(ns, ns.structs@.len(), with_enums);
    let with_functions = functions_built(ns, ns.functions@.len(), with_structs);
    let with_constants = state_variables_built(
        ns,
        ns.constants@,
        None,
        ns.constants@.len(),
        with_functions,
    );
    let with_contracts = contracts_built(ns, ns.contracts@.len(), with_constants);
    events_built(ns, ns.events@.len(), with_contracts)
}

impl<'a> Builder<'a> {
    // Collects from everything that the namespace declares.
    pub(crate) fn traverse(&mut self)
        ensures
            final(self).built() == namespace_built(old(self).namespace(), old(self).built()),
            final(self).namespace() == old(self).namespace(),
    {
        let ns: &Namespace = self.ns();
        let ghost start = self.built();
        let mut i: usize = 0;
        while i < ns.enums.len()
            invariant
                i <= ns.enums@.len(),
                *ns == self.namespace(),
                self.built() == enums_built(*ns, i as nat, start),
            decreases ns.enums@.len() - i,
        {
            self.enum_decl(&ns.enums[i], i);
            i = i + 1;
        }
        let ghost start = self.built();
        i = 0;
        while i < ns.structs.len()
            invariant
                i <= ns.structs@.len(),
                *ns == self.namespace(),
                self.built() == structs_built(*ns, i as nat, start),
            decreases ns.structs@.len() - i,
        {
            self.struct_decl(&ns.structs[i], i);
            i = i + 1;
        }
        let ghost start = self.built();
        i = 0;
        while i < ns.functions.len()
            invariant
                i <= ns.functions@.len(),
                *ns == self.namespace(),
                self.built() == functions_built(*ns, i as nat, start),
            decreases ns.functions@.len() - i,
        {
            self.function_decl(&ns.functions[i], i);
            i = i + 1;
        }
        self.state_variables(&ns.constants, None);
        let ghost start = self.built();
        i = 0;
        while i < ns.contracts.len()
            invariant
                i <= ns.contracts@.len(),
                *ns == self.namespace(),
                self.built() == contracts_built(*ns, i as nat, start),
            decreases ns.contracts@.len() - i,
        {
            self.contract_decl(&ns.contracts[i], i);
            i = i + 1;
        }
        let ghost start = self.built();
        i = 0;
        while i < ns.events.len()
            invariant
                i <= ns.events@.len(),
                *ns == self.namespace(),
                self.built() == events_built(*ns, i as nat, start),
            decreases ns.events@.len() - i,
        {
            self.event_decl(&ns.events[i], i);
            i = i + 1;
        }
    }
}

} // verus!

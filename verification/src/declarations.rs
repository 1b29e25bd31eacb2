//! What is collected from the declarations of a namespace.

use vstd::prelude::*;
use vstd::string::StringExecFns;
use vstd::utf8::encode_utf8;

use crate::builder::{
    at_top_level, defined, expressions_built, file_at, has_members, hovered, hovered_start,
    named_models, parameter_type_referred, scoped, typed, variable_defined, Builder, Built,
    NamedObject, NamesModel,
};
use crate::definitions::{
    optional_definition, unplaced, with_pair, key_place, Definition, DefinitionIndex,
    DefinitionType, FieldOwner, StructType,
};
use crate::hover_text::{
    below_tags, code_block, expanded, expanded_ty, find_local, local_variable, make_code_block,
    parameter_text, render_parameter, tags_above,
};
use crate::namespace::{
    get_type_definition, type_definition, EnumDecl, EventDecl, FunctionDecl, LocalVariable, Loc,
    Namespace, Parameter, SolidityType, StateVariable, StructDecl, Symtable,
};
use crate::statements::{some_expression_built, statements_built};
use crate::text::{decimal, decimal_text, same_text};

verus! {

/// The code object of a type, in a file that is not known yet.
pub open spec fn type_object(ty: SolidityType) -> Option<Definition> {
    match type_definition(ty) {
        Some(def) => Some(unplaced(def)),
        None => None,
    }
}

pub(crate) fn get_type_object(ty: &SolidityType) -> (r: Option<DefinitionIndex>)
    ensures
        optional_definition(r) == type_object(*ty),
{
    match get_type_definition(ty) {
        Some(def) => Some(DefinitionIndex::from(def)),
        None => None,
    }
}

/// What is collected from a state variable, or from a constant outside of all contracts.
pub open spec fn state_variable_built(
    ns: Namespace,
    variable: StateVariable,
    contract_no: Option<usize>,
    var_no: usize,
    b: Option<Built>,
) -> Option<Built> {
    let def = DefinitionType::NonLocalVariable(contract_no, var_no);
    let with_value = some_expression_built(ns, Seq::empty(), variable.initializer, b);
    let shown = hovered_start(
        with_value,
        variable.loc,
        encode_utf8(variable.name@).len(),
        tags_above(variable.tags@) + code_block(variable.ty.text@ + " "@ + variable.name@),
    );
    let placed = typed(
        ns,
        defined(ns, shown, variable.loc, def),
        variable.loc,
        def,
        type_definition(variable.ty),
    );
    if contract_no is None {
        at_top_level(placed, variable.loc, variable.name@, type_object(variable.ty))
    } else {
        placed
    }
}

/// The location of the name of a parameter, or else its own.
pub open spec fn name_loc(param: Parameter) -> Loc {
    match param.id {
        Some(id) => id.loc,
        None => param.loc,
    }
}

fn get_name_loc(param: &Parameter) -> (r: Loc)
    ensures
        r == name_loc(*param),
{
    match &param.id {
        Some(id) => id.loc,
        None => param.loc,
    }
}

/// What is collected from a field of a struct or an event.
pub open spec fn field_built(
    ns: Namespace,
    owner: FieldOwner,
    field_id: usize,
    field: Parameter,
    b: Option<Built>,
) -> Option<Built> {
    let loc = name_loc(field);
    let def = DefinitionType::Field(owner, field_id);
    let shown = hovered(
        parameter_type_referred(b, field),
        loc,
        Some(code_block(parameter_text(field))),
    );
    typed(ns, defined(ns, shown, loc, def), loc, def, type_definition(field.ty))
}

/// The owner of the fields of the struct with number `si`.
pub open spec fn struct_owner(si: usize) -> FieldOwner {
    FieldOwner::Struct(StructType::UserDefined(si))
}

/// What is collected from the first `n` fields.
pub open spec fn all_fields_built(
    ns: Namespace,
    owner: FieldOwner,
    fields: Seq<Parameter>,
    n: nat,
    b: Option<Built>,
) -> Option<Built>
    decreases n,
{
    if n == 0 || n > fields.len() {
        b
    } else {
        field_built(
            ns,
            owner,
            (n - 1) as usize,
            fields[n - 1],
            all_fields_built(ns, owner, fields, (n - 1) as nat, b),
        )
    }
}

/// What is collected from the first `n` values of the enum with number `ei`.
pub open spec fn values_built(ns: Namespace, decl: EnumDecl, ei: usize, n: nat, b: Option<Built>) -> Option<
    Built,
>
    decreases n,
{
    if n == 0 || n > decl.values@.len() {
        b
    } else {
        let (name, loc) = decl.values@[n - 1];
        let def = DefinitionType::Variant(ei, (n - 1) as usize);
        let shown = hovered(
            values_built(ns, decl, ei, (n - 1) as nat, b),
            loc,
            Some(
                code_block(
                    "enum "@ + decl.id.name@ + "."@ + name@ + " "@ + decimal((n - 1) as nat),
                ),
            ),
        );
        typed(ns, defined(ns, shown, loc, def), loc, def, Some(DefinitionType::Enum(ei)))
    }
}

/// The names of the first `n` values of an enum.
pub open spec fn value_names(values: Seq<(String, Loc)>, n: nat) -> NamesModel
    decreases n,
{
    if n == 0 || n > values.len() {
        Seq::empty()
    } else {
        with_pair(value_names(values, (n - 1) as nat), values[n - 1].0@, None)
    }
}

/// A code object of the file in which `file_loc` lies is named at the top level of the file.
pub open spec fn object_at_top_level(
    ns: Namespace,
    b: Option<Built>,
    file_loc: Loc,
    name: Seq<char>,
    def: DefinitionType,
) -> Option<Built> {
    match file_at(ns, file_loc) {
        Some(file) => at_top_level(
            b,
            file_loc,
            name,
            Some(Definition { path: file.path@, def }),
        ),
        None => None,
    }
}

/// What is collected from the enum with number `ei`.
pub open spec fn enum_built(ns: Namespace, decl: EnumDecl, ei: usize, b: Option<Built>) -> Option<
    Built,
> {
    let loc = decl.id.loc;
    let def = DefinitionType::Enum(ei);
    let shown = hovered(
        values_built(ns, decl, ei, decl.values@.len(), b),
        loc,
        Some(decl.tags@),
    );
    let listed = has_members(
        ns,
        defined(ns, shown, loc, def),
        loc,
        def,
        value_names(decl.values@, decl.values@.len()),
    );
    if decl.contract is None {
        object_at_top_level(ns, listed, loc, decl.id.name@, def)
    } else {
        listed
    }
}

/// The names of the first `n` fields that have one, with the code objects of their types taken to
/// be in the file at `path`.
pub open spec fn field_names(fields: Seq<Parameter>, path: Seq<char>, n: nat) -> NamesModel
    decreases n,
{
    if n == 0 || n > fields.len() {
        Seq::empty()
    } else {
        let before = field_names(fields, path, (n - 1) as nat);
        match fields[n - 1].id {
            Some(id) => with_pair(before, id.name@, placed_type(fields[n - 1].ty, path)),
            None => before,
        }
    }
}

/// The code object of a type, taken to be in the file at `path`.
pub open spec fn placed_type(ty: SolidityType, path: Seq<char>) -> Option<Definition> {
    match type_definition(ty) {
        Some(def) => Some(Definition { path, def }),
        None => None,
    }
}

/// What is collected from the struct with number `si`; nothing from one of the language itself.
pub open spec fn struct_built(ns: Namespace, decl: StructDecl, si: usize, b: Option<Built>) -> Option<
    Built,
> {
    let loc = decl.id.loc;
    let def = DefinitionType::Struct(StructType::UserDefined(si));
    if decl.loc is File {
        let shown = hovered(
            all_fields_built(ns, struct_owner(si), decl.fields@, decl.fields@.len(), b),
            loc,
            Some(decl.tags@),
        );
        match file_at(ns, loc) {
            None => None,
            Some(file) => {
                let listed = has_members(
                    ns,
                    defined(ns, shown, loc, def),
                    loc,
                    def,
                    field_names(decl.fields@, file.path@, decl.fields@.len()),
                );
                if decl.contract is None {
                    object_at_top_level(ns, listed, loc, decl.id.name@, def)
                } else {
                    listed
                }
            },
        }
    } else {
        b
    }
}

/// What is collected from the event with number `ei`.
pub open spec fn event_built(ns: Namespace, decl: EventDecl, ei: usize, b: Option<Built>) -> Option<
    Built,
> {
    let loc = decl.id.loc;
    let def = DefinitionType::Event(ei);
    let shown = hovered(
        all_fields_built(ns, FieldOwner::Event(ei), decl.fields@, decl.fields@.len(), b),
        loc,
        Some(decl.tags@),
    );
    let placed = defined(ns, shown, loc, def);
    if decl.contract is None {
        object_at_top_level(ns, placed, loc, decl.id.name@, def)
    } else {
        placed
    }
}

/// What is collected from the annotations of a function.
pub open spec fn annotations_built(ns: Namespace, f: FunctionDecl, b: Option<Built>) -> Option<Built> {
    let vars = f.symtable.vars@;
    let with_bump = some_expression_built(ns, vars, f.annotations.bump, b);
    let seeds = f.annotations.seeds@;
    let with_seeds = expressions_built(ns, vars, seeds, seeds.len(), with_bump);
    let with_space = some_expression_built(ns, vars, f.annotations.space, with_seeds);
    match f.annotations.payer {
        Some((loc, name)) => hovered(with_space, loc, Some("payer account: "@ + name@)),
        None => with_space,
    }
}

/// The number of the variable that argument `i` is kept in.
pub open spec fn argument_variable(symtable: Symtable, i: int) -> Option<usize> {
    if 0 <= i < symtable.arguments@.len() {
        symtable.arguments@[i]
    } else {
        None
    }
}

/// The number of the variable that return value `i` is kept in.
pub open spec fn return_variable(symtable: Symtable, i: int) -> Option<usize> {
    if 0 <= i < symtable.returns@.len() {
        Some(symtable.returns@[i])
    } else {
        None
    }
}

/// What is collected from a parameter or a return value.
pub open spec fn parameter_built(
    ns: Namespace,
    param: Parameter,
    var_no: Option<usize>,
    b: Option<Built>,
) -> Option<Built> {
    let shown = hovered(b, name_loc(param), expanded(ns, param.ty));
    let placed = match var_no {
        Some(no) => variable_defined(ns, shown, param, no),
        None => shown,
    };
    parameter_type_referred(placed, param)
}

pub open spec fn parameters_built(ns: Namespace, f: FunctionDecl, n: nat, b: Option<Built>) -> Option<
    Built,
>
    decreases n,
{
    if n == 0 || n > f.params@.len() {
        b
    } else {
        parameter_built(
            ns,
            f.params@[n - 1],
            argument_variable(f.symtable, n - 1),
            parameters_built(ns, f, (n - 1) as nat, b),
        )
    }
}

pub open spec fn results_built(ns: Namespace, f: FunctionDecl, n: nat, b: Option<Built>) -> Option<
    Built,
>
    decreases n,
{
    if n == 0 || n > f.returns@.len() {
        b
    } else {
        parameter_built(
            ns,
            f.returns@[n - 1],
            return_variable(f.symtable, n - 1),
            results_built(ns, f, (n - 1) as nat, b),
        )
    }
}

/// The variables that the first `n` names of a scope stand for, with the code objects of their
/// types.
pub open spec fn scope_names(symtable: Symtable, names: Seq<(String, usize)>, n: nat) -> NamesModel
    decreases n,
{
    if n == 0 || n > names.len() {
        Seq::empty()
    } else {
        let before = scope_names(symtable, names, (n - 1) as nat);
        match local_variable(symtable.vars@, names[n - 1].1, 0) {
            Some(var) => before.push((var.name@, type_object(var.ty))),
            None => before,
        }
    }
}

/// What is collected from the first `n` scopes of a function.
pub open spec fn scopes_built(f: FunctionDecl, n: nat, b: Option<Built>) -> Option<Built>
    decreases n,
{
    if n == 0 || n > f.symtable.scopes@.len() {
        b
    } else {
        let scope = f.symtable.scopes@[n - 1];
        let before = scopes_built(f, (n - 1) as nat, b);
        match scope.loc {
            Some(loc) => scoped(
                before,
                f.id.loc,
                loc,
                scope_names(f.symtable, scope.names@, scope.names@.len()),
            ),
            None => None,
        }
    }
}

/// What is collected from the function with number `i`; nothing from one that the compiler made.
pub open spec fn function_built(ns: Namespace, f: FunctionDecl, i: usize, b: Option<Built>) -> Option<
    Built,
> {
    if f.is_accessor || f.loc is Builtin {
        b
    } else {
        let def = DefinitionType::Function(i);
        let with_params = parameters_built(ns, f, f.params@.len(), annotations_built(ns, f, b));
        let with_results = results_built(ns, f, f.returns@.len(), with_params);
        let with_body = statements_built(
            ns,
            f.symtable.vars@,
            f.body@,
            f.body@.len(),
            with_results,
        );
        let placed = defined(ns, with_body, f.id.loc, def);
        object_at_top_level(
            ns,
            scopes_built(f, f.symtable.scopes@.len(), placed),
            f.id.loc,
            f.id.name@,
            def,
        )
    }
}

impl<'a> Builder<'a> {
    // Collects from a state variable, or from a constant outside of all contracts.
    pub(crate) fn contract_variable(
        &mut self,
        variable: &StateVariable,
        contract_no: Option<usize>,
        var_no: usize,
    )
        ensures
            final(self).built() == state_variable_built(
                old(self).namespace(),
                *variable,
                contract_no,
                var_no,
                old(self).built(),
            ),
            final(self).namespace() == old(self).namespace(),
    {
        let def = DefinitionType::NonLocalVariable(contract_no, var_no);
        let no_vars: Vec<(usize, LocalVariable)> = Vec::new();
        assert(no_vars@ =~= Seq::<(usize, LocalVariable)>::empty());
        if let Some(expr) = &variable.initializer {
            self.expression(expr, &no_vars);
        }
        let mut val = variable.ty.text.clone();
        val.append(" ");
        val.append(variable.name.as_str());
        let block = make_code_block(val.as_str());
        let text = below_tags(&variable.tags, block.as_str());
        let len: usize = variable.name.as_str().as_bytes().len();
        self.hover_start(&variable.loc, len, text);
        self.define(&variable.loc, def);
        self.set_type(&variable.loc, def, get_type_definition(&variable.ty));
        if contract_no.is_none() {
            self.add_top_level(
                &variable.loc,
                variable.name.clone(),
                get_type_object(&variable.ty),
            );
        }
    }

    // Collects from a field of a struct or an event.
    fn field(&mut self, owner: FieldOwner, field_id: usize, field: &Parameter)
        ensures
            final(self).built() == field_built(
                old(self).namespace(),
                owner,
                field_id,
                *field,
                old(self).built(),
            ),
            final(self).namespace() == old(self).namespace(),
    {
        let loc = get_name_loc(field);
        let def = DefinitionType::Field(owner, field_id);
        self.refer_parameter_type(field);
        let text = render_parameter(field);
        self.hover(&loc, make_code_block(text.as_str()));
        self.define(&loc, def);
        self.set_type(&loc, def, get_type_definition(&field.ty));
    }

    fn all_fields(&mut self, owner: FieldOwner, fields: &Vec<Parameter>)
        ensures
            final(self).built() == all_fields_built(
                old(self).namespace(),
                owner,
                fields@,
                fields@.len(),
                old(self).built(),
            ),
            final(self).namespace() == old(self).namespace(),
    {
        let mut i: usize = 0;
        while i < fields.len()
            invariant
                i <= fields@.len(),
                self.namespace() == old(self).namespace(),
                self.built() == all_fields_built(
                    old(self).namespace(),
                    owner,
                    fields@,
                    i as nat,
                    old(self).built(),
                ),
            decreases fields@.len() - i,
        {
            self.field(owner, i, &fields[i]);
            i = i + 1;
        }
    }

    pub(crate) fn top_level_object(&mut self, file_loc: &Loc, name: &String, def: DefinitionType)
        ensures
            final(self).built() == object_at_top_level(
                old(self).namespace(),
                old(self).built(),
                *file_loc,
                name@,
                def,
            ),
            final(self).namespace() == old(self).namespace(),
    {
        match self.file_of(file_loc) {
            Some(file) => {
                let index = DefinitionIndex::at(file.path.as_str(), def);
                self.add_top_level(file_loc, name.clone(), Some(index));
            },
            None => {
                self.fail();
            },
        }
    }

    fn enum_values(&mut self, decl: &EnumDecl, ei: usize)
        ensures
            final(self).built() == values_built(
                old(self).namespace(),
                *decl,
                ei,
                decl.values@.len(),
                old(self).built(),
            ),
            final(self).namespace() == old(self).namespace(),
    {
        let mut i: usize = 0;
        while i < decl.values.len()
            invariant
                i <= decl.values@.len(),
                self.namespace() == old(self).namespace(),
                self.built() == values_built(
                    old(self).namespace(),
                    *decl,
                    ei,
                    i as nat,
                    old(self).built(),
                ),
            decreases decl.values@.len() - i,
        {
            let value = &decl.values[i];
            let def = DefinitionType::Variant(ei, i);
            let mut text = "enum ".to_string();
            text.append(decl.id.name.as_str());
            text.append(".");
            text.append(value.0.as_str());
            text.append(" ");
            let number = decimal_text(i as u128);
            text.append(number.as_str());
            self.hover(&value.1, make_code_block(text.as_str()));
            self.define(&value.1, def);
            self.set_type(&value.1, def, Some(DefinitionType::Enum(ei)));
            i = i + 1;
        }
    }

    pub(crate) fn enum_decl(&mut self, decl: &EnumDecl, ei: usize)
        ensures
            final(self).built() == enum_built(old(self).namespace(), *decl, ei, old(self).built()),
            final(self).namespace() == old(self).namespace(),
    {
        let def = DefinitionType::Enum(ei);
        self.enum_values(decl, ei);
        self.hover(&decl.id.loc, decl.tags.clone());
        self.define(&decl.id.loc, def);
        let names = enum_names(&decl.values);
        self.set_members(&decl.id.loc, def, names);
        if decl.contract.is_none() {
            self.top_level_object(&decl.id.loc, &decl.id.name, def);
        }
    }

    pub(crate) fn struct_decl(&mut self, decl: &StructDecl, si: usize)
        ensures
            final(self).built() == struct_built(old(self).namespace(), *decl, si, old(self).built()),
            final(self).namespace() == old(self).namespace(),
    {
        match decl.loc {
            Loc::File(_, _, _) => {},
            _ => {
                return ;
            },
        }
        let def = DefinitionType::Struct(StructType::UserDefined(si));
        self.all_fields(FieldOwner::Struct(StructType::UserDefined(si)), &decl.fields);
        self.hover(&decl.id.loc, decl.tags.clone());
        match self.file_of(&decl.id.loc) {
            Some(file) => {
                self.define(&decl.id.loc, def);
                let names = struct_names(&decl.fields, file.path.as_str());
                self.set_members(&decl.id.loc, def, names);
                if decl.contract.is_none() {
                    self.top_level_object(&decl.id.loc, &decl.id.name, def);
                }
            },
            None => {
                self.fail();
            },
        }
    }

    pub(crate) fn event_decl(&mut self, decl: &EventDecl, ei: usize)
        ensures
            final(self).built() == event_built(old(self).namespace(), *decl, ei, old(self).built()),
            final(self).namespace() == old(self).namespace(),
    {
        let def = DefinitionType::Event(ei);
        self.all_fields(FieldOwner::Event(ei), &decl.fields);
        self.hover(&decl.id.loc, decl.tags.clone());
        self.define(&decl.id.loc, def);
        if decl.contract.is_none() {
            self.top_level_object(&decl.id.loc, &decl.id.name, def);
        }
    }

    fn annotations(&mut self, f: &FunctionDecl)
        ensures
            final(self).built() == annotations_built(old(self).namespace(), *f, old(self).built()),
            final(self).namespace() == old(self).namespace(),
    {
        if let Some(bump) = &f.annotations.bump {
            self.expression(bump, &f.symtable.vars);
        }
        self.expressions(&f.annotations.seeds, &f.symtable.vars);
        if let Some(space) = &f.annotations.space {
            self.expression(space, &f.symtable.vars);
        }
        if let Some(payer) = &f.annotations.payer {
            let mut text = "payer account: ".to_string();
            text.append(payer.1.as_str());
            self.hover(&payer.0, text);
        }
    }

    fn parameter(&mut self, param: &Parameter, var_no: Option<usize>)
        ensures
            final(self).built() == parameter_built(
                old(self).namespace(),
                *param,
                var_no,
                old(self).built(),
            ),
            final(self).namespace() == old(self).namespace(),
    {
        let loc = get_name_loc(param);
        let text = expanded_ty(self.ns(), &param.ty);
        self.hover_some(&loc, text);
        if let Some(no) = var_no {
            self.define_variable(param, no);
        }
        self.refer_parameter_type(param);
    }

    fn parameters(&mut self, f: &FunctionDecl)
        ensures
            final(self).built() == parameters_built(
                old(self).namespace(),
                *f,
                f.params@.len(),
                old(self).built(),
            ),
            final(self).namespace() == old(self).namespace(),
    {
        let mut i: usize = 0;
        while i < f.params.len()
            invariant
                i <= f.params@.len(),
                self.namespace() == old(self).namespace(),
                self.built() == parameters_built(
                    old(self).namespace(),
                    *f,
                    i as nat,
                    old(self).built(),
                ),
            decreases f.params@.len() - i,
        {
            let var_no: Option<usize> = if i < f.symtable.arguments.len() {
                f.symtable.arguments[i]
            } else {
                None
            };
            self.parameter(&f.params[i], var_no);
            i = i + 1;
        }
    }

    fn results(&mut self, f: &FunctionDecl)
        ensures
            final(self).built() == results_built(
                old(self).namespace(),
                *f,
                f.returns@.len(),
                old(self).built(),
            ),
            final(self).namespace() == old(self).namespace(),
    {
        let mut i: usize = 0;
        while i < f.returns.len()
            invariant
                i <= f.returns@.len(),
                self.namespace() == old(self).namespace(),
                self.built() == results_built(
                    old(self).namespace(),
                    *f,
                    i as nat,
                    old(self).built(),
                ),
            decreases f.returns@.len() - i,
        {
            let var_no: Option<usize> = if i < f.symtable.returns.len() {
                Some(f.symtable.returns[i])
            } else {
                None
            };
            self.parameter(&f.returns[i], var_no);
            i = i + 1;
        }
    }

    fn function_scopes(&mut self, f: &FunctionDecl)
        ensures
            final(self).built() == scopes_built(
                *f,
                f.symtable.scopes@.len(),
                old(self).built(),
            ),
            final(self).namespace() == old(self).namespace(),
    {
        let mut i: usize = 0;
        while i < f.symtable.scopes.len()
            invariant
                i <= f.symtable.scopes@.len(),
                self.namespace() == old(self).namespace(),
                self.built() == scopes_built(*f, i as nat, old(self).built()),
            decreases f.symtable.scopes@.len() - i,
        {
            let scope = &f.symtable.scopes[i];
            match &scope.loc {
                Some(loc) => {
                    let names = names_in_scope(&f.symtable, &scope.names);
                    self.add_scope(&f.id.loc, loc, names);
                },
                None => {
                    self.fail();
                },
            }
            i = i + 1;
        }
    }

    pub(crate) fn function_decl(&mut self, f: &FunctionDecl, i: usize)
        ensures
            final(self).built() == function_built(old(self).namespace(), *f, i, old(self).built()),
            final(self).namespace() == old(self).namespace(),
    {
        // accessor functions are synthetic; all their locations are fake
        if f.is_accessor {
            return ;
        }
        if let Loc::Builtin = f.loc {
            return ;
        }
        let def = DefinitionType::Function(i);
        self.annotations(f);
        self.parameters(f);
        self.results(f);
        self.statements(&f.body, &f.symtable.vars);
        self.define(&f.id.loc, def);
        self.function_scopes(f);
        self.top_level_object(&f.id.loc, &f.id.name, def);
    }
}

/// Puts something under a name, in the place of what had the name before.
pub fn put_name(names: &mut Vec<NamedObject>, name: String, object: Option<DefinitionIndex>)
    ensures
        named_models(final(names)@) == with_pair(
            named_models(old(names)@),
            name@,
            optional_definition(object),
        ),
{
    let ghost before = named_models(names@);
    let mut i: usize = 0;
    while i < names.len()
        invariant
            i <= names@.len(),
            *names == *old(names),
            before == named_models(names@),
            key_place(before, name@, 0) == key_place(before, name@, i as nat),
        decreases names@.len() - i,
    {
        assert(before[i as int].0 == names@[i as int].0@);
        if same_text(names[i].0.as_str(), name.as_str()) {
            let ghost added = (name@, optional_definition(object));
            names.set(i, (name, object));
            assert(named_models(names@) =~= before.update(i as int, added));
            return ;
        }
        i = i + 1;
    }
    let ghost added = (name@, optional_definition(object));
    names.push((name, object));
    assert(named_models(names@) =~= before.push(added));
}

fn enum_names(values: &Vec<(String, Loc)>) -> (r: Vec<NamedObject>)
    ensures
        named_models(r@) == value_names(values@, values@.len()),
{
    let mut names: Vec<NamedObject> = Vec::new();
    assert(named_models(names@) =~= Seq::empty());
    let mut i: usize = 0;
    while i < values.len()
        invariant
            i <= values@.len(),
            named_models(names@) == value_names(values@, i as nat),
        decreases values@.len() - i,
    {
        put_name(&mut names, values[i].0.clone(), None);
        i = i + 1;
    }
    names
}

fn struct_names(fields: &Vec<Parameter>, path: &str) -> (r: Vec<NamedObject>)
    ensures
        named_models(r@) == field_names(fields@, path@, fields@.len()),
{
    let mut names: Vec<NamedObject> = Vec::new();
    assert(named_models(names@) =~= Seq::empty());
    let mut i: usize = 0;
    while i < fields.len()
        invariant
            i <= fields@.len(),
            named_models(names@) == field_names(fields@, path@, i as nat),
        decreases fields@.len() - i,
    {
        if let Some(id) = &fields[i].id {
            let object = match get_type_definition(&fields[i].ty) {
                Some(def) => Some(DefinitionIndex::at(path, def)),
                None => None,
            };
            put_name(&mut names, id.name.clone(), object);
        }
        i = i + 1;
    }
    names
}

fn names_in_scope(symtable: &Symtable, names: &Vec<(String, usize)>) -> (r: Vec<NamedObject>)
    ensures
        named_models(r@) == scope_names(*symtable, names@, names@.len()),
{
    let mut objects: Vec<NamedObject> = Vec::new();
    assert(named_models(objects@) =~= Seq::empty());
    let mut i: usize = 0;
    while i < names.len()
        invariant
            i <= names@.len(),
            named_models(objects@) == scope_names(*symtable, names@, i as nat),
        decreases names@.len() - i,
    {
        if let Some(var) = find_local(&symtable.vars, names[i].1) {
            let ghost before = named_models(objects@);
            let object = get_type_object(&var.ty);
            let ghost added = (var.name@, optional_definition(object));
            objects.push((var.name.clone(), object));
            assert(named_models(objects@) =~= before.push(added));
        }
        i = i + 1;
    }
    objects
}

} // verus!

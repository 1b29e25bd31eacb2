//! What the declarations of structs and events leave alone.

use vstd::prelude::*;

use crate::builder::{
    at_top_level, defined, defined_in, file_at, has_members, hovered, parameter_type_referred,
    referred, typed, Built,
};
use crate::declarations::{
    all_fields_built, event_built, field_built, name_loc, struct_built, struct_owner,
};
use crate::definitions::{
    law_put_then_find, unplaced, value_at, Definition, DefinitionType, FieldOwner, StructType,
};
use crate::hover_text::{code_block, parameter_text};
use crate::namespace::{
    range_of, type_definition, EventDecl, Loc, Namespace, Parameter, StructDecl,
};

verus! {

/// Whether what is known of the place and the type of a code object is the same in both.
pub open spec fn known_alike(before: Built, after: Built, key: Definition) -> bool {
    &&& value_at(after.definitions, key) == value_at(before.definitions, key)
    &&& value_at(after.types, key) == value_at(before.types, key)
}

proof fn lemma_defined_elsewhere(
    ns: Namespace,
    b: Option<Built>,
    loc: Loc,
    def: DefinitionType,
    key: Definition,
)
    requires
        key.def != def,
        defined(ns, b, loc, def) is Some,
    ensures
        b is Some,
        known_alike(b->Some_0, defined(ns, b, loc, def)->Some_0, key),
{
    reveal(defined_in);
    let file = file_at(ns, loc)->Some_0;
    let start = loc->File_1;
    let end = loc->File_2;
    law_put_then_find(
        b->Some_0.definitions,
        Definition { path: file.path@, def },
        range_of(file.line_starts@, start, end),
        key,
    );
}

proof fn lemma_typed_elsewhere(
    ns: Namespace,
    b: Option<Built>,
    loc: Loc,
    def: DefinitionType,
    ty: Option<DefinitionType>,
    key: Definition,
)
    requires
        key.def != def,
        typed(ns, b, loc, def, ty) is Some,
    ensures
        b is Some,
        known_alike(b->Some_0, typed(ns, b, loc, def, ty)->Some_0, key),
{
    reveal(typed);
    if let Some(t) = ty {
        let file = file_at(ns, loc)->Some_0;
        law_put_then_find(
            b->Some_0.types,
            Definition { path: file.path@, def },
            unplaced(t),
            key,
        );
    }
}

proof fn lemma_fields_elsewhere(
    ns: Namespace,
    owner: FieldOwner,
    fields: Seq<Parameter>,
    n: nat,
    b: Option<Built>,
    key: Definition,
)
    requires
        !(key.def matches DefinitionType::Field(o, _) && o == owner),
        all_fields_built(ns, owner, fields, n, b) is Some,
    ensures
        b is Some,
        known_alike(b->Some_0, all_fields_built(ns, owner, fields, n, b)->Some_0, key),
    decreases n,
{
    if n > 0 && n <= fields.len() {
        let field = fields[n - 1];
        let id = (n - 1) as usize;
        let before = all_fields_built(ns, owner, fields, (n - 1) as nat, b);
        let loc = name_loc(field);
        let def = DefinitionType::Field(owner, id);
        let shown = hovered(
            parameter_type_referred(before, field),
            loc,
            Some(code_block(parameter_text(field))),
        );
        assert(all_fields_built(ns, owner, fields, n, b) == field_built(ns, owner, id, field, before));
        lemma_typed_elsewhere(ns, defined(ns, shown, loc, def), loc, def, type_definition(field.ty), key);
        lemma_defined_elsewhere(ns, shown, loc, def, key);
        reveal(hovered);
        reveal(referred);
        lemma_fields_elsewhere(ns, owner, fields, (n - 1) as nat, b, key);
    }
}

/// An event says where it is defined itself and where its fields are and of which types they are.
/// What is known of all other code objects stays, the fields of a struct with the same number
/// among them.
pub proof fn law_events_leave_others_alone(
    ns: Namespace,
    decl: EventDecl,
    ei: usize,
    before: Built,
    key: Definition,
)
    requires
        key.def != DefinitionType::Event(ei),
        !(key.def matches DefinitionType::Field(owner, _) && owner == FieldOwner::Event(ei)),
        event_built(ns, decl, ei, Some(before)) is Some,
    ensures
        known_alike(before, event_built(ns, decl, ei, Some(before))->Some_0, key),
{
    let loc = decl.id.loc;
    let def = DefinitionType::Event(ei);
    let b = Some(before);
    let fields = all_fields_built(ns, FieldOwner::Event(ei), decl.fields@, decl.fields@.len(), b);
    let shown = hovered(fields, loc, Some(decl.tags@));
    reveal(at_top_level);
    lemma_defined_elsewhere(ns, shown, loc, def, key);
    reveal(hovered);
    lemma_fields_elsewhere(ns, FieldOwner::Event(ei), decl.fields@, decl.fields@.len(), b, key);
}

/// A struct says where it is defined itself and where its fields are and of which types they are.
/// What is known of all other code objects stays, the fields of an event with the same number
/// among them.
pub proof fn law_structs_leave_others_alone(
    ns: Namespace,
    decl: StructDecl,
    si: usize,
    before: Built,
    key: Definition,
)
    requires
        key.def != DefinitionType::Struct(StructType::UserDefined(si)),
        !(key.def matches DefinitionType::Field(owner, _) && owner == struct_owner(si)),
        struct_built(ns, decl, si, Some(before)) is Some,
    ensures
        known_alike(before, struct_built(ns, decl, si, Some(before))->Some_0, key),
{
    if decl.loc is File {
        let loc = decl.id.loc;
        let def = DefinitionType::Struct(StructType::UserDefined(si));
        let b = Some(before);
        let fields = all_fields_built(ns, struct_owner(si), decl.fields@, decl.fields@.len(), b);
        let shown = hovered(fields, loc, Some(decl.tags@));
        reveal(at_top_level);
        reveal(has_members);
        lemma_defined_elsewhere(ns, shown, loc, def, key);
        reveal(hovered);
        lemma_fields_elsewhere(ns, struct_owner(si), decl.fields@, decl.fields@.len(), b, key);
    }
}

} // verus!

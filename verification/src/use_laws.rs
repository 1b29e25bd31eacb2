//! What is found where a code object is used.

use vstd::prelude::*;

use crate::builder::{nothing_built, Built, HoverModel, ReferenceModel, ScopeModel};
use crate::caches::{
    caches_file, file_hovers, file_references, file_scopes, final_hover, hover_ranges, last_path,
    lookups, overriding_text, own_references, placed, placed_references, reference_ranges,
    FileCache,
};
use crate::contracts::namespace_built;
use crate::definitions::{
    definition_models, key_place, lemma_key_place, unplaced, value_at, Definition, DefinitionType,
    FieldOwner, Range, StructType,
};
use crate::expression_laws::{is_struct, leads_down, points, says, tells};
use crate::hover_text::{code_block, event_text, function_text};
use crate::lookup::{intervals_in, sorted_from};
use crate::namespace::{offset_of, range_of, span, Expression, Loc, Namespace, Statement, TypeShape};
use crate::namespace_laws::{
    law_declarations_are_told, name_place, tells_all, tells_contract, tells_enum, tells_event,
    tells_field, tells_function, tells_struct, tells_value, tells_variable,
};
use crate::queries::{
    all_locations, exclusive_range, found_at, hover_at, locations_in, reference_at, references_to,
    LocationModel,
};
use crate::query_laws::{law_found_is_the_shortest, lemma_last_path};
use crate::statement_laws::{has_expression, leads_in, placed_at, tells_statement};
use crate::text::texts;

verus! {

/// What is collected from a namespace before it is completed.
pub open spec fn collected(ns: Namespace) -> Option<Built> {
    namespace_built(ns, Some(nothing_built()))
}

/// Whether the range `loc` refers to the code object that is defined at `place`, in the file in which
/// `file_loc` lies, and looking up where it is defined gives that place.
pub open spec fn leads_to(
    ns: Namespace,
    b: Built,
    loc: Loc,
    file_loc: Loc,
    place: Loc,
    def: DefinitionType,
) -> bool {
    &&& span(loc) is Some && file_loc is File && place is File
    &&& file_loc->File_0 < ns.files@.len()
    &&& ({
        let file = ns.files@[file_loc->File_0 as int];
        let d = Definition { path: file.path@, def };
        &&& b.references.contains(
            ReferenceModel {
                file_no: span(loc)->Some_0.0,
                start: span(loc)->Some_0.1,
                stop: span(loc)->Some_0.2,
                val: d,
            },
        )
        &&& value_at(b.definitions, d) == Some(
            range_of(file.line_starts@, place->File_1, place->File_2),
        )
    })
}

/// Whether the text is shown for the range `loc`, unless the namespace has another for it.
pub open spec fn shows(ns: Namespace, b: Built, loc: Loc, text: Seq<char>) -> bool {
    &&& span(loc) is Some
    &&& (forall|k: int|
        0 <= k < ns.hover_overrides@.len() ==> (#[trigger] ns.hover_overrides@[k]).0 != Loc::File(
            span(loc)->Some_0.0,
            span(loc)->Some_0.1,
            span(loc)->Some_0.2,
        )) ==> b.hovers.contains(
        HoverModel {
            file_no: span(loc)->Some_0.0,
            start: span(loc)->Some_0.1,
            stop: span(loc)->Some_0.2,
            val: text,
        },
    )
}

proof fn lemma_own_references_keep(
    ns: Namespace,
    definitions: Seq<(Definition, Range)>,
    n: nat,
    done: Seq<ReferenceModel>,
)
    requires
        own_references(ns, definitions, n, done) is Some,
    ensures
        done.is_prefix_of(own_references(ns, definitions, n, done)->Some_0),
    decreases n,
{
    if n > 0 && n <= definitions.len() {
        lemma_own_references_keep(ns, definitions, (n - 1) as nat, done);
    }
}

/// What refers to a code object leads to the one place where it is defined.
pub proof fn law_uses_lead_to_definitions(
    ns: Namespace,
    loc: Loc,
    file_loc: Loc,
    place: Loc,
    def: DefinitionType,
)
    requires
        lookups(ns) is Some,
        points(collected(ns), loc, def),
        placed_at(ns, collected(ns), file_loc, place, def),
    ensures
        leads_to(ns, lookups(ns)->Some_0, loc, file_loc, place, def),
{
    let built = collected(ns)->Some_0;
    let b = lookups(ns)->Some_0;
    let defs = built.definitions;
    let file = ns.files@[file_loc->File_0 as int];
    let d = Definition { path: file.path@, def };
    let all = own_references(ns, defs, defs.len(), built.references)->Some_0;
    lemma_own_references_keep(ns, defs, defs.len(), built.references);
    let r = ReferenceModel {
        file_no: span(loc)->Some_0.0,
        start: span(loc)->Some_0.1,
        stop: span(loc)->Some_0.2,
        val: unplaced(def),
    };
    let k = choose|k: int| 0 <= k < built.references.len() && built.references[k] == r;
    assert(all[k] == r);
    assert(b.references == placed_references(defs, all));
    // the only definition is the one in the file
    lemma_key_place(defs, d, 0);
    let i = key_place(defs, d, 0)->Some_0 as int;
    assert(defs[i].0 == d);
    lemma_last_path(defs, def, defs.len(), i);
    let path = last_path(defs, def, defs.len())->Some_0;
    let found = Definition { path, def };
    let j = choose|j: int|
        0 <= j < defs.len() && #[trigger] defs[j].0 == (Definition {
            path: last_path(defs, def, defs.len())->Some_0,
            def,
        });
    lemma_key_place(defs, found, 0);
    assert(defs[j].0 == found);
    assert(value_at(defs, found) is Some);
    assert(path == file.path@);
    assert(placed(defs, unplaced(def)) == d);
    assert(b.references[k] == (ReferenceModel { val: d, ..r }));
}

proof fn lemma_no_override(texts: Seq<(Loc, String)>, loc: Loc, i: nat)
    requires
        forall|k: int| i <= k < texts.len() ==> (#[trigger] texts[k]).0 != loc,
    ensures
        overriding_text(texts, loc, i) is None,
    decreases (if i < texts.len() { texts.len() - i } else { 0 }),
{
    if i < texts.len() {
        assert(texts[i as int].0 != loc);
        lemma_no_override(texts, loc, i + 1);
    }
}

/// What is shown for a range stays, unless the namespace has another text for it.
pub proof fn law_texts_are_shown(ns: Namespace, loc: Loc, text: Seq<char>)
    requires
        lookups(ns) is Some,
        says(collected(ns), loc, text),
    ensures
        shows(ns, lookups(ns)->Some_0, loc, text),
{
    let built = collected(ns)->Some_0;
    let b = lookups(ns)->Some_0;
    let (file_no, start, stop) = span(loc)->Some_0;
    let h = HoverModel { file_no, start, stop, val: text };
    let k = choose|k: int| 0 <= k < built.hovers.len() && built.hovers[k] == h;
    if forall|j: int|
        0 <= j < ns.hover_overrides@.len() ==> (#[trigger] ns.hover_overrides@[j]).0 != Loc::File(
            file_no,
            start,
            stop,
        ) {
        lemma_no_override(ns.hover_overrides@, Loc::File(file_no, start, stop), 0);
        assert(b.hovers[k] == final_hover(ns, h));
        assert(b.hovers[k] == h);
    }
}

/// A text that the namespace has for a range is shown in the place of the one that was collected.
pub proof fn law_overriding_texts_are_shown(ns: Namespace, h: HoverModel, k: int)
    requires
        0 <= k < ns.hover_overrides@.len(),
        ns.hover_overrides@[k].0 == Loc::File(h.file_no, h.start, h.stop),
        forall|j: int|
            0 <= j < k ==> (#[trigger] ns.hover_overrides@[j]).0 != Loc::File(
                h.file_no,
                h.start,
                h.stop,
            ),
    ensures
        final_hover(ns, h) == (HoverModel { val: ns.hover_overrides@[k].1@, ..h }),
{
    lemma_override(ns.hover_overrides@, Loc::File(h.file_no, h.start, h.stop), 0, k);
}

proof fn lemma_override(texts: Seq<(Loc, String)>, loc: Loc, i: nat, k: int)
    requires
        i <= k < texts.len(),
        texts[k].0 == loc,
        forall|j: int| i <= j < k ==> (#[trigger] texts[j]).0 != loc,
    ensures
        overriding_text(texts, loc, i) == Some(texts[k].1@),
    decreases k - i,
{
    if i < k {
        assert(texts[i as int].0 != loc);
        lemma_override(texts, loc, i + 1, k);
    }
}

/// Whether the expression stands in the body of the function `i`: in one of its statements, at the
/// end of the path `statements`, and there at the end of the path `expressions`.
pub open spec fn stands_in(
    ns: Namespace,
    i: int,
    statements: Seq<Statement>,
    expressions: Seq<Expression>,
) -> bool {
    &&& 0 <= i < ns.functions@.len()
    &&& !ns.functions@[i].is_accessor
    &&& !(ns.functions@[i].loc is Builtin)
    &&& leads_in(statements)
    &&& ns.functions@[i].body@.contains(statements[0])
    &&& leads_down(expressions)
    &&& has_expression(statements.last(), expressions[0])
}

proof fn lemma_stands(
    ns: Namespace,
    i: int,
    statements: Seq<Statement>,
    expressions: Seq<Expression>,
)
    requires
        lookups(ns) is Some,
        stands_in(ns, i, statements, expressions),
    ensures
        collected(ns) is Some,
        tells(ns, ns.functions@[i].symtable.vars@, expressions.last(), collected(ns)),
        tells_all(ns, collected(ns)),
{
    law_declarations_are_told(ns);
    assert(tells_function(ns, i, collected(ns)));
}

/// A member access in a function leads to the field that it names, where the name of the field
/// stands: whatever struct is accessed, and however deep the access stands.
pub proof fn law_member_accesses_lead_to_their_field(
    ns: Namespace,
    i: int,
    statements: Seq<Statement>,
    expressions: Seq<Expression>,
    s: usize,
)
    requires
        lookups(ns) is Some,
        stands_in(ns, i, statements, expressions),
        expressions.last() is StructMember,
        is_struct(expressions.last()->StructMember_expr_ty, s),
        s < ns.structs@.len(),
        ns.structs@[s as int].loc is File,
        expressions.last()->StructMember_field < ns.structs@[s as int].fields@.len(),
    ensures
        ({
            let loc = expressions.last()->StructMember_loc;
            let k = expressions.last()->StructMember_field;
            let place = name_place(ns.structs@[s as int].fields@[k as int]);
            let def = DefinitionType::Field(FieldOwner::Struct(StructType::UserDefined(s)), k);
            leads_to(ns, lookups(ns)->Some_0, loc, place, place, def)
        }),
{
    lemma_stands(ns, i, statements, expressions);
    let b = collected(ns);
    let loc = expressions.last()->StructMember_loc;
    let k = expressions.last()->StructMember_field;
    let owner = FieldOwner::Struct(StructType::UserDefined(s));
    let fields = ns.structs@[s as int].fields@;
    assert(tells_struct(ns, s as int, b));
    assert(tells_field(ns, owner, fields, k as int, b));
    let place = name_place(fields[k as int]);
    law_uses_lead_to_definitions(ns, loc, place, place, DefinitionType::Field(owner, k));
}

/// A use of a state variable shows its type, the name of its contract and its own, and leads to where
/// it is declared.
pub proof fn law_state_variables_are_shown(
    ns: Namespace,
    i: int,
    statements: Seq<Statement>,
    expressions: Seq<Expression>,
)
    requires
        lookups(ns) is Some,
        stands_in(ns, i, statements, expressions),
        expressions.last() is StorageVariable,
    ensures
        ({
            let loc = expressions.last()->StorageVariable_loc;
            let c = expressions.last()->StorageVariable_contract_no;
            let v = expressions.last()->StorageVariable_var_no;
            let contract = ns.contracts@[c as int];
            let place = contract.variables@[v as int].loc;
            &&& c < ns.contracts@.len() && v < contract.variables@.len()
            &&& shows(
                ns,
                lookups(ns)->Some_0,
                loc,
                code_block(
                    expressions.last()->StorageVariable_ty.text@ + " "@ + contract.id.name@ + "."@
                        + contract.variables@[v as int].name@,
                ),
            )
            &&& leads_to(
                ns,
                lookups(ns)->Some_0,
                loc,
                place,
                place,
                DefinitionType::NonLocalVariable(Some(c), v),
            )
        }),
{
    lemma_stands(ns, i, statements, expressions);
    let b = collected(ns);
    let loc = expressions.last()->StorageVariable_loc;
    let c = expressions.last()->StorageVariable_contract_no;
    let v = expressions.last()->StorageVariable_var_no;
    let contract = ns.contracts@[c as int];
    assert(tells_contract(ns, c as int, b));
    assert(tells_variable(ns, contract.variables@, Some(c), v as int, b));
    let place = contract.variables@[v as int].loc;
    law_uses_lead_to_definitions(
        ns,
        loc,
        place,
        place,
        DefinitionType::NonLocalVariable(Some(c), v),
    );
    law_texts_are_shown(
        ns,
        loc,
        code_block(
            expressions.last()->StorageVariable_ty.text@ + " "@ + contract.id.name@ + "."@
                + contract.variables@[v as int].name@,
        ),
    );
}

/// A use of a constant outside of all contracts leads to where it is declared.
pub proof fn law_constants_lead_to_their_declaration(
    ns: Namespace,
    i: int,
    statements: Seq<Statement>,
    expressions: Seq<Expression>,
)
    requires
        lookups(ns) is Some,
        stands_in(ns, i, statements, expressions),
        expressions.last() is ConstantVariable,
        expressions.last()->ConstantVariable_contract_no is None,
    ensures
        ({
            let loc = expressions.last()->ConstantVariable_loc;
            let v = expressions.last()->ConstantVariable_var_no;
            let place = ns.constants@[v as int].loc;
            &&& v < ns.constants@.len()
            &&& leads_to(
                ns,
                lookups(ns)->Some_0,
                loc,
                place,
                place,
                DefinitionType::NonLocalVariable(None, v),
            )
        }),
{
    lemma_stands(ns, i, statements, expressions);
    let b = collected(ns);
    let loc = expressions.last()->ConstantVariable_loc;
    let v = expressions.last()->ConstantVariable_var_no;
    assert(tells_variable(ns, ns.constants@, None, v as int, b));
    let place = ns.constants@[v as int].loc;
    law_uses_lead_to_definitions(
        ns,
        loc,
        place,
        place,
        DefinitionType::NonLocalVariable(None, v),
    );
}

/// A value of an enum that is written in a function leads to where the value is declared.
pub proof fn law_enum_values_lead_to_their_declaration(
    ns: Namespace,
    i: int,
    statements: Seq<Statement>,
    expressions: Seq<Expression>,
    e: usize,
    k: usize,
)
    requires
        lookups(ns) is Some,
        stands_in(ns, i, statements, expressions),
        expressions.last() is NumberLiteral,
        expressions.last()->NumberLiteral_ty.shape == TypeShape::Enum(e),
        expressions.last()->NumberLiteral_value == Some(k as u64),
        k <= u64::MAX,
        e < ns.enums@.len(),
        k < ns.enums@[e as int].values@.len(),
    ensures
        ({
            let place = ns.enums@[e as int].values@[k as int].1;
            leads_to(
                ns,
                lookups(ns)->Some_0,
                expressions.last()->NumberLiteral_loc,
                place,
                place,
                DefinitionType::Variant(e, k),
            )
        }),
{
    lemma_stands(ns, i, statements, expressions);
    let b = collected(ns);
    assert(tells_enum(ns, e as int, b));
    assert(tells_value(ns, e as int, k as int, b));
    let place = ns.enums@[e as int].values@[k as int].1;
    law_uses_lead_to_definitions(
        ns,
        expressions.last()->NumberLiteral_loc,
        place,
        place,
        DefinitionType::Variant(e, k),
    );
}

/// A function that is named in another shows its declaration, and leads to it.
pub proof fn law_functions_are_shown(
    ns: Namespace,
    i: int,
    statements: Seq<Statement>,
    expressions: Seq<Expression>,
    f: usize,
    loc: Loc,
)
    requires
        lookups(ns) is Some,
        stands_in(ns, i, statements, expressions),
        match expressions.last() {
            Expression::InternalFunction { id, function_no } => function_no == f && loc
                == id@.last(),
            Expression::ExternalFunction { loc: l, address, function_no } => function_no == f && loc
                == l,
            _ => false,
        },
    ensures
        f < ns.functions@.len(),
        function_text(ns, ns.functions@[f as int]) is Some,
        shows(
            ns,
            lookups(ns)->Some_0,
            loc,
            function_text(ns, ns.functions@[f as int])->Some_0,
        ),
        !ns.functions@[f as int].is_accessor && !(ns.functions@[f as int].loc is Builtin)
            ==> leads_to(
            ns,
            lookups(ns)->Some_0,
            loc,
            ns.functions@[f as int].id.loc,
            ns.functions@[f as int].id.loc,
            DefinitionType::Function(f),
        ),
{
    lemma_stands(ns, i, statements, expressions);
    let b = collected(ns);
    law_texts_are_shown(ns, loc, function_text(ns, ns.functions@[f as int])->Some_0);
    if !ns.functions@[f as int].is_accessor && !(ns.functions@[f as int].loc is Builtin) {
        assert(tells_function(ns, f as int, b));
        let place = ns.functions@[f as int].id.loc;
        law_uses_lead_to_definitions(ns, loc, place, place, DefinitionType::Function(f));
    }
}

/// Where an event is emitted it is shown, and leads to its declaration.
pub proof fn law_emitted_events_are_shown(ns: Namespace, i: int, statements: Seq<Statement>)
    requires
        lookups(ns) is Some,
        0 <= i < ns.functions@.len(),
        !ns.functions@[i].is_accessor,
        !(ns.functions@[i].loc is Builtin),
        leads_in(statements),
        ns.functions@[i].body@.contains(statements[0]),
        statements.last() is Emit,
    ensures
        ({
            let e = statements.last()->Emit_event_no;
            let loc = statements.last()->Emit_event_loc;
            let place = ns.events@[e as int].id.loc;
            &&& e < ns.events@.len()
            &&& event_text(ns, ns.events@[e as int]) is Some
            &&& shows(ns, lookups(ns)->Some_0, loc, event_text(ns, ns.events@[e as int])->Some_0)
            &&& leads_to(
                ns,
                lookups(ns)->Some_0,
                loc,
                place,
                place,
                DefinitionType::Event(e),
            )
        }),
{
    law_declarations_are_told(ns);
    let b = collected(ns);
    let e = statements.last()->Emit_event_no;
    let loc = statements.last()->Emit_event_loc;
    assert(tells_function(ns, i, b));
    assert(tells_statement(ns, ns.functions@[i].symtable.vars@, statements.last(), b));
    assert(tells_event(ns, e as int, b));
    let place = ns.events@[e as int].id.loc;
    law_uses_lead_to_definitions(ns, loc, place, place, DefinitionType::Event(e));
    law_texts_are_shown(ns, loc, event_text(ns, ns.events@[e as int])->Some_0);
}

/// A file has its own hovers, references and scopes, all of them and in their order.
pub proof fn law_files_have_their_own(b: Built, file_no: usize)
    ensures
        file_hovers(b.hovers, file_no, b.hovers.len()) == b.hovers.filter(
            |h: HoverModel| h.file_no == file_no,
        ),
        file_references(b.references, file_no, b.references.len()) == b.references.filter(
            |r: ReferenceModel| r.file_no == file_no,
        ),
        file_scopes(b.scopes, file_no, b.scopes.len()) == b.scopes.filter(
            |s: ScopeModel| s.file_no == file_no,
        ),
{
    lemma_file_hovers(b.hovers, file_no, b.hovers.len());
    assert(b.hovers.take(b.hovers.len() as int) =~= b.hovers);
    lemma_file_references(b.references, file_no, b.references.len());
    assert(b.references.take(b.references.len() as int) =~= b.references);
    lemma_file_scopes(b.scopes, file_no, b.scopes.len());
    assert(b.scopes.take(b.scopes.len() as int) =~= b.scopes);
}

proof fn lemma_file_hovers(hovers: Seq<HoverModel>, file_no: usize, n: nat)
    requires
        n <= hovers.len(),
    ensures
        file_hovers(hovers, file_no, n) == hovers.take(n as int).filter(
            |h: HoverModel| h.file_no == file_no,
        ),
    decreases n,
{
    reveal(Seq::filter);
    if n > 0 {
        lemma_file_hovers(hovers, file_no, (n - 1) as nat);
        assert(hovers.take(n as int).drop_last() =~= hovers.take(n - 1));
    }
}

proof fn lemma_file_references(references: Seq<ReferenceModel>, file_no: usize, n: nat)
    requires
        n <= references.len(),
    ensures
        file_references(references, file_no, n) == references.take(n as int).filter(
            |r: ReferenceModel| r.file_no == file_no,
        ),
    decreases n,
{
    reveal(Seq::filter);
    if n > 0 {
        lemma_file_references(references, file_no, (n - 1) as nat);
        assert(references.take(n as int).drop_last() =~= references.take(n - 1));
    }
}

proof fn lemma_file_scopes(scopes: Seq<ScopeModel>, file_no: usize, n: nat)
    requires
        n <= scopes.len(),
    ensures
        file_scopes(scopes, file_no, n) == scopes.take(n as int).filter(
            |s: ScopeModel| s.file_no == file_no,
        ),
    decreases n,
{
    reveal(Seq::filter);
    if n > 0 {
        lemma_file_scopes(scopes, file_no, (n - 1) as nat);
        assert(scopes.take(n as int).drop_last() =~= scopes.take(n - 1));
    }
}

proof fn lemma_same_ranges(
    a: Seq<(usize, usize, usize)>,
    b: Seq<(usize, usize, usize)>,
    x: (usize, usize, usize),
)
    requires
        sorted_from(a, b),
    ensures
        a.contains(x) <==> b.contains(x),
{
    broadcast use vstd::seq_lib::group_to_multiset_ensures;

    assert(a.to_multiset().count(x) == b.to_multiset().count(x));
}

/// What is shown at a position of a file is the text of a range that covers it, and no range that
/// covers it is shorter. Something is shown wherever a range covers the position.
pub proof fn law_hovers_are_found(
    cache: FileCache,
    ns: Namespace,
    b: Built,
    i: usize,
    line: usize,
    character: usize,
    other: HoverModel,
) -> (found: HoverModel)
    requires
        caches_file(cache, ns, b, i),
        i < ns.files@.len(),
        b.hovers.len() <= usize::MAX,
        b.hovers.contains(other),
        other.file_no == i,
        offset_of(ns.files@[i as int].line_starts@, line, character) is Some,
        other.start <= offset_of(ns.files@[i as int].line_starts@, line, character)->Some_0
            < other.stop,
    ensures
        b.hovers.contains(found),
        found.file_no == i,
        found.start <= offset_of(ns.files@[i as int].line_starts@, line, character)->Some_0
            < found.stop,
        found.stop - found.start <= other.stop - other.start,
        hover_at(cache, line, character) == Some(
            (
                found.val,
                exclusive_range(ns.files@[i as int].line_starts@, found.start, found.stop),
            ),
        ),
{
    let offset = offset_of(ns.files@[i as int].line_starts@, line, character)->Some_0;
    let mine = file_hovers(b.hovers, i, b.hovers.len());
    let ranges = hover_ranges(mine);
    let held = intervals_in(cache.hovers);
    let keep = |h: HoverModel| h.file_no == i;
    law_files_have_their_own(b, i);
    b.hovers.lemma_filter_len(keep);
    let j = choose|j: int| 0 <= j < b.hovers.len() && b.hovers[j] == other;
    b.hovers.lemma_filter_contains(keep, j);
    let k = choose|k: int| 0 <= k < mine.len() && mine[k] == other;
    let own = (other.start, other.stop, k as usize);
    assert(ranges[k] == own);
    lemma_same_ranges(held, ranges, own);
    law_found_is_the_shortest(cache.hovers, offset, own);
    let f = found_at(cache.hovers, offset)->Some_0;
    lemma_same_ranges(held, ranges, f);
    let m = choose|m: int| 0 <= m < ranges.len() && ranges[m] == f;
    assert(f == (mine[m].start, mine[m].stop, m as usize));
    b.hovers.lemma_filter_pred(keep, m);
    b.hovers.lemma_filter_contains_rev(keep, mine[m]);
    let vals = mine.map_values(|h: HoverModel| h.val);
    assert(texts(cache.hover_texts@) == vals);
    assert(texts(cache.hover_texts@).len() == cache.hover_texts@.len());
    assert(vals[m] == mine[m].val);
    assert(texts(cache.hover_texts@)[m] == cache.hover_texts@[m]@);
    mine[m]
}

/// What a position of a file refers to is what a range refers to that covers it, and no range that
/// covers it is shorter. Something is referred to wherever a range covers the position.
pub proof fn law_references_are_found(
    cache: FileCache,
    ns: Namespace,
    b: Built,
    i: usize,
    line: usize,
    character: usize,
    other: ReferenceModel,
) -> (found: ReferenceModel)
    requires
        caches_file(cache, ns, b, i),
        i < ns.files@.len(),
        b.references.len() <= usize::MAX,
        b.references.contains(other),
        other.file_no == i,
        offset_of(ns.files@[i as int].line_starts@, line, character) is Some,
        other.start <= offset_of(ns.files@[i as int].line_starts@, line, character)->Some_0
            < other.stop,
    ensures
        b.references.contains(found),
        found.file_no == i,
        found.start <= offset_of(ns.files@[i as int].line_starts@, line, character)->Some_0
            < found.stop,
        found.stop - found.start <= other.stop - other.start,
        reference_at(cache, line, character) == Some(found.val),
{
    let offset = offset_of(ns.files@[i as int].line_starts@, line, character)->Some_0;
    let mine = file_references(b.references, i, b.references.len());
    let ranges = reference_ranges(mine);
    let held = intervals_in(cache.references);
    let keep = |r: ReferenceModel| r.file_no == i;
    law_files_have_their_own(b, i);
    b.references.lemma_filter_len(keep);
    let j = choose|j: int| 0 <= j < b.references.len() && b.references[j] == other;
    b.references.lemma_filter_contains(keep, j);
    let k = choose|k: int| 0 <= k < mine.len() && mine[k] == other;
    let own = (other.start, other.stop, k as usize);
    assert(ranges[k] == own);
    lemma_same_ranges(held, ranges, own);
    law_found_is_the_shortest(cache.references, offset, own);
    let f = found_at(cache.references, offset)->Some_0;
    lemma_same_ranges(held, ranges, f);
    let m = choose|m: int| 0 <= m < ranges.len() && ranges[m] == f;
    assert(f == (mine[m].start, mine[m].stop, m as usize));
    b.references.lemma_filter_pred(keep, m);
    b.references.lemma_filter_contains_rev(keep, mine[m]);
    let vals = mine.map_values(|r: ReferenceModel| r.val);
    let targets = definition_models(cache.reference_targets@);
    assert(targets == vals);
    assert(targets.len() == cache.reference_targets@.len());
    assert(vals[m] == mine[m].val);
    assert(targets[m] == cache.reference_targets@[m]@);
    mine[m]
}

proof fn lemma_locations_in(
    cache: FileCache,
    path: Seq<char>,
    ranges: Seq<(usize, usize, usize)>,
    d: Definition,
    n: nat,
    k: int,
)
    requires
        0 <= k < n <= ranges.len(),
        locations_in(cache, path, ranges, d, n) is Ok,
        ranges[k].2 < cache.reference_targets@.len(),
        cache.reference_targets@[ranges[k].2 as int]@ == d,
    ensures
        locations_in(cache, path, ranges, d, n)->Ok_0.contains(
            LocationModel {
                path,
                range: exclusive_range(cache.file.line_starts@, ranges[k].0, ranges[k].1),
            },
        ),
    decreases n,
{
    let all = locations_in(cache, path, ranges, d, n)->Ok_0;
    let before = locations_in(cache, path, ranges, d, (n - 1) as nat)->Ok_0;
    let own = LocationModel {
        path,
        range: exclusive_range(cache.file.line_starts@, ranges[k].0, ranges[k].1),
    };
    if k < n - 1 {
        lemma_locations_in(cache, path, ranges, d, (n - 1) as nat, k);
        let j = choose|j: int| 0 <= j < before.len() && before[j] == own;
        assert(all[j] == own);
    } else {
        assert(all[before.len() as int] == own);
    }
}

proof fn lemma_only_locations(
    cache: FileCache,
    path: Seq<char>,
    ranges: Seq<(usize, usize, usize)>,
    d: Definition,
    n: nat,
    l: LocationModel,
) -> (k: int)
    requires
        n <= ranges.len(),
        locations_in(cache, path, ranges, d, n) is Ok,
        locations_in(cache, path, ranges, d, n)->Ok_0.contains(l),
    ensures
        0 <= k < n,
        ranges[k].2 < cache.reference_targets@.len(),
        cache.reference_targets@[ranges[k].2 as int]@ == d,
        l == (LocationModel {
            path,
            range: exclusive_range(cache.file.line_starts@, ranges[k].0, ranges[k].1),
        }),
    decreases n,
{
    let all = locations_in(cache, path, ranges, d, n)->Ok_0;
    let before = locations_in(cache, path, ranges, d, (n - 1) as nat)->Ok_0;
    let j = choose|j: int| 0 <= j < all.len() && all[j] == l;
    if n == 0 || j < before.len() {
        assert(before[j] == l);
        lemma_only_locations(cache, path, ranges, d, (n - 1) as nat, l)
    } else {
        n - 1
    }
}

proof fn lemma_locations_of_file(
    caches: Seq<(Seq<char>, FileCache)>,
    d: Definition,
    n: nat,
    c: int,
    k: int,
)
    requires
        0 <= c < n <= caches.len(),
        all_locations(caches, d, n) is Ok,
        0 <= k < intervals_in(caches[c].1.references).len(),
        intervals_in(caches[c].1.references)[k].2 < caches[c].1.reference_targets@.len(),
        caches[c].1.reference_targets@[intervals_in(caches[c].1.references)[k].2 as int]@ == d,
    ensures
        all_locations(caches, d, n)->Ok_0.contains(
            LocationModel {
                path: caches[c].0,
                range: exclusive_range(
                    caches[c].1.file.line_starts@,
                    intervals_in(caches[c].1.references)[k].0,
                    intervals_in(caches[c].1.references)[k].1,
                ),
            },
        ),
    decreases n,
{
    let (path, cache) = caches[n - 1];
    let ranges = intervals_in(cache.references);
    let all = all_locations(caches, d, n)->Ok_0;
    let before = all_locations(caches, d, (n - 1) as nat)->Ok_0;
    let here = locations_in(cache, path, ranges, d, ranges.len())->Ok_0;
    let own = LocationModel {
        path: caches[c].0,
        range: exclusive_range(
            caches[c].1.file.line_starts@,
            intervals_in(caches[c].1.references)[k].0,
            intervals_in(caches[c].1.references)[k].1,
        ),
    };
    if c < n - 1 {
        lemma_locations_of_file(caches, d, (n - 1) as nat, c, k);
        let j = choose|j: int| 0 <= j < before.len() && before[j] == own;
        assert(all[j] == own);
    } else {
        lemma_locations_in(cache, path, ranges, d, ranges.len(), k);
        let j = choose|j: int| 0 <= j < here.len() && here[j] == own;
        assert(all[before.len() + j] == own);
    }
}

/// Searching for references finds every range, in whatever file, that refers to the code object.
pub proof fn law_every_reference_is_listed(
    caches: Seq<(Seq<char>, FileCache)>,
    definitions: Seq<(Definition, Range)>,
    d: Definition,
    c: int,
    k: int,
)
    requires
        references_to(caches, definitions, d, true) is Ok,
        0 <= c < caches.len(),
        0 <= k < intervals_in(caches[c].1.references).len(),
        intervals_in(caches[c].1.references)[k].2 < caches[c].1.reference_targets@.len(),
        caches[c].1.reference_targets@[intervals_in(caches[c].1.references)[k].2 as int]@ == d,
    ensures
        references_to(caches, definitions, d, true)->Ok_0.contains(
            LocationModel {
                path: caches[c].0,
                range: exclusive_range(
                    caches[c].1.file.line_starts@,
                    intervals_in(caches[c].1.references)[k].0,
                    intervals_in(caches[c].1.references)[k].1,
                ),
            },
        ),
{
    lemma_locations_of_file(caches, d, caches.len(), c, k);
}

proof fn lemma_listed_refer(
    caches: Seq<(Seq<char>, FileCache)>,
    d: Definition,
    n: nat,
    l: LocationModel,
) -> (r: (int, int))
    requires
        n <= caches.len(),
        all_locations(caches, d, n) is Ok,
        all_locations(caches, d, n)->Ok_0.contains(l),
    ensures
        refers_at(caches, d, r.0, r.1, l),
    decreases n,
{
    let all = all_locations(caches, d, n)->Ok_0;
    let j = choose|j: int| 0 <= j < all.len() && all[j] == l;
    let (path, cache) = caches[n - 1];
    let ranges = intervals_in(cache.references);
    let before = all_locations(caches, d, (n - 1) as nat)->Ok_0;
    let here = locations_in(cache, path, ranges, d, ranges.len())->Ok_0;
    if j < before.len() {
        assert(before[j] == l);
        lemma_listed_refer(caches, d, (n - 1) as nat, l)
    } else {
        assert(here[j - before.len()] == l);
        let k = lemma_only_locations(cache, path, ranges, d, ranges.len(), l);
        (n - 1, k)
    }
}

/// Whether the range `k` of the file `c` refers to the code object, and stands at the location.
pub open spec fn refers_at(
    caches: Seq<(Seq<char>, FileCache)>,
    d: Definition,
    c: int,
    k: int,
    l: LocationModel,
) -> bool {
    &&& 0 <= c < caches.len()
    &&& 0 <= k < intervals_in(caches[c].1.references).len()
    &&& ({
        let cache = caches[c].1;
        let (start, stop, no) = intervals_in(cache.references)[k];
        &&& no < cache.reference_targets@.len()
        &&& cache.reference_targets@[no as int]@ == d
        &&& l == (LocationModel {
            path: caches[c].0,
            range: exclusive_range(cache.file.line_starts@, start, stop),
        })
    })
}

/// Searching for references finds nothing but ranges that refer to the code object: the file and the
/// range are returned.
pub proof fn law_only_references_are_listed(
    caches: Seq<(Seq<char>, FileCache)>,
    definitions: Seq<(Definition, Range)>,
    d: Definition,
    l: LocationModel,
) -> (r: (int, int))
    requires
        references_to(caches, definitions, d, true) is Ok,
        references_to(caches, definitions, d, true)->Ok_0.contains(l),
    ensures
        refers_at(caches, d, r.0, r.1, l),
{
    lemma_listed_refer(caches, d, caches.len(), l)
}

} // verus!

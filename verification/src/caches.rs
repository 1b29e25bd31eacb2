//! What a language server looks up, by file and over all files.

use vstd::prelude::*;
use vstd::string::StrSliceExecFns;

use crate::builder::{
    hover_models, list_models, named_models, nothing_built, property_models, reference_models,
    scope_models, top_level_models, type_models, Builder, Built, HoverEntry, HoverModel,
    NamedObject, NamesModel, Parts, ReferenceEntry, ReferenceModel, ScopeEntry, ScopeModel,
};
use crate::contracts::namespace_built;
use crate::declarations::put_name;
use crate::definitions::{
    definition_models, optional_definition, with_pair, with_pairs, Definition, DefinitionIndex,
    DefinitionType, Range, Table,
};
use crate::lookup::{intervals_in, sorted_from, Intervals};
use crate::namespace::{offset_of, Loc, Namespace, SourceFile};
use crate::text::{same_text, texts};

verus! {

/// The file of the last of the first `n` definitions of a code object.
pub open spec fn last_path(definitions: Seq<(Definition, Range)>, def: DefinitionType, n: nat) -> Option<
    Seq<char>,
>
    decreases n,
{
    if n == 0 || n > definitions.len() {
        None
    } else if definitions[n - 1].0.def == def {
        Some(definitions[n - 1].0.path)
    } else {
        last_path(definitions, def, (n - 1) as nat)
    }
}

/// A code object in the file where it is defined.
pub open spec fn placed(definitions: Seq<(Definition, Range)>, d: Definition) -> Definition {
    match last_path(definitions, d.def, definitions.len()) {
        Some(path) => Definition { path, def: d.def },
        None => d,
    }
}

/// A code object in the file where it is defined, unless a file is given already.
pub open spec fn placed_if_open(definitions: Seq<(Definition, Range)>, d: Option<Definition>) -> Option<
    Definition,
> {
    match d {
        Some(object) => if object.path.len() == 0 {
            Some(placed(definitions, object))
        } else {
            d
        },
        None => None,
    }
}

/// The text that overrides what is shown for a range.
pub open spec fn overriding_text(texts: Seq<(Loc, String)>, loc: Loc, i: nat) -> Option<Seq<char>>
    decreases (if i < texts.len() { texts.len() - i } else { 0 }),
{
    if i >= texts.len() {
        None
    } else if texts[i as int].0 == loc {
        Some(texts[i as int].1@)
    } else {
        overriding_text(texts, loc, i + 1)
    }
}

/// A hover with the text that overrides it, where there is one.
pub open spec fn final_hover(ns: Namespace, h: HoverModel) -> HoverModel {
    match overriding_text(ns.hover_overrides@, Loc::File(h.file_no, h.start, h.stop), 0) {
        Some(val) => HoverModel { val, ..h },
        None => h,
    }
}

/// The number of the last of the first `n` files with this path.
pub open spec fn file_number(files: Seq<SourceFile>, path: Seq<char>, n: nat) -> Option<usize>
    decreases n,
{
    if n == 0 || n > files.len() {
        None
    } else if files[n - 1].path@ == path {
        Some((n - 1) as usize)
    } else {
        file_number(files, path, (n - 1) as nat)
    }
}

/// The reference of a code object to itself, at the place where it is defined. Ranges include
/// their end, references do not.
pub open spec fn own_reference(file: SourceFile, file_no: usize, d: Definition, range: Range) -> Option<
    ReferenceModel,
> {
    let lines = file.line_starts@;
    let start = offset_of(lines, range.start.line as usize, range.start.character as usize);
    let end = offset_of(lines, range.end.line as usize, range.end.character as usize);
    match (start, end) {
        (Some(s), Some(e)) if e < usize::MAX => Some(
            ReferenceModel { file_no, start: s, stop: (e + 1) as usize, val: d },
        ),
        _ => None,
    }
}

/// `done` and the references of the first `n` definitions to themselves.
pub open spec fn own_references(
    ns: Namespace,
    definitions: Seq<(Definition, Range)>,
    n: nat,
    done: Seq<ReferenceModel>,
) -> Option<Seq<ReferenceModel>>
    decreases n,
{
    if n == 0 || n > definitions.len() {
        Some(done)
    } else {
        let (d, range) = definitions[n - 1];
        match own_references(ns, definitions, (n - 1) as nat, done) {
            None => None,
            Some(before) => match file_number(ns.files@, d.path, ns.files@.len()) {
                None => Some(before),
                Some(no) => match own_reference(ns.files@[no as int], no, d, range) {
                    Some(reference) => Some(before.push(reference)),
                    None => None,
                },
            },
        }
    }
}

pub open spec fn placed_references(
    definitions: Seq<(Definition, Range)>,
    references: Seq<ReferenceModel>,
) -> Seq<ReferenceModel> {
    references.map_values(
        |r: ReferenceModel| ReferenceModel { val: placed(definitions, r.val), ..r },
    )
}

/// Names with each code object in the file where it is defined.
pub open spec fn placed_names(definitions: Seq<(Definition, Range)>, names: NamesModel) -> NamesModel {
    names.map_values(
        |n: (Seq<char>, Option<Definition>)|
            (
                n.0,
                match n.1 {
                    Some(d) => Some(placed(definitions, d)),
                    None => None,
                },
            ),
    )
}

/// Names with each code object whose file is not given in the file where it is defined.
pub open spec fn filled_names(definitions: Seq<(Definition, Range)>, names: NamesModel) -> NamesModel {
    names.map_values(
        |n: (Seq<char>, Option<Definition>)| (n.0, placed_if_open(definitions, n.1)),
    )
}

/// What has been collected, with texts overridden, with every definition a reference to itself,
/// and with code objects in the files where they are defined.
pub open spec fn completed(ns: Namespace, b: Built) -> Option<Built> {
    let defs = b.definitions;
    match own_references(ns, defs, defs.len(), b.references) {
        None => None,
        Some(references) => Some(
            Built {
                hovers: b.hovers.map_values(|h: HoverModel| final_hover(ns, h)),
                references: placed_references(defs, references),
                scopes: b.scopes.map_values(
                    |s: ScopeModel| ScopeModel { val: placed_names(defs, s.val), ..s },
                ),
                top_level: b.top_level.map_values(
                    |t: (usize, (Seq<char>, Option<Definition>))|
                        (t.0, (t.1.0, placed_if_open(defs, t.1.1))),
                ),
                types: b.types.map_values(
                    |t: (Definition, Definition)| (t.0, placed(defs, t.1)),
                ),
                properties: b.properties.map_values(
                    |p: (Definition, NamesModel)| (p.0, filled_names(defs, p.1)),
                ),
                ..b
            },
        ),
    }
}

/// What is looked up in a namespace; nothing where it refers to what is not there.
pub open spec fn lookups(ns: Namespace) -> Option<Built> {
    match namespace_built(ns, Some(nothing_built())) {
        Some(b) => completed(ns, b),
        None => None,
    }
}

fn find_path<'b>(definitions: &'b Table<Range>, def: DefinitionType) -> (r: Option<&'b String>)
    ensures
        match last_path(definitions.pairs(), def, definitions.pairs().len()) {
            Some(path) => r is Some && r->Some_0@ == path,
            None => r is None,
        },
{
    let mut n: usize = definitions.len();
    while n > 0
        invariant
            n <= definitions.pairs().len(),
            last_path(definitions.pairs(), def, definitions.pairs().len()) == last_path(
                definitions.pairs(),
                def,
                n as nat,
            ),
        decreases n,
    {
        let entry = definitions.entry(n - 1);
        if entry.0.def_type == def {
            return Some(&entry.0.def_path);
        }
        n = n - 1;
    }
    None
}

fn place(definitions: &Table<Range>, index: &DefinitionIndex) -> (r: DefinitionIndex)
    ensures
        r@ == placed(definitions.pairs(), index@),
{
    match find_path(definitions, index.def_type) {
        Some(path) => DefinitionIndex::at(path.as_str(), index.def_type),
        None => index.copy(),
    }
}

fn place_if_open(definitions: &Table<Range>, index: &Option<DefinitionIndex>) -> (r: Option<
    DefinitionIndex,
>)
    ensures
        optional_definition(r) == placed_if_open(
            definitions.pairs(),
            optional_definition(*index),
        ),
{
    match index {
        Some(i) => {
            if i.def_path.as_str().unicode_len() == 0 {
                Some(place(definitions, i))
            } else {
                Some(i.copy())
            }
        },
        None => None,
    }
}

fn override_hovers(ns: &Namespace, hovers: &mut Vec<(usize, HoverEntry)>)
    ensures
        hover_models(final(hovers)@) == hover_models(old(hovers)@).map_values(
            |h: HoverModel| final_hover(*ns, h),
        ),
{
    let ghost before = hover_models(hovers@);
    let mut i: usize = 0;
    while i < hovers.len()
        invariant
            i <= hovers@.len(),
            hovers@.len() == before.len(),
            forall|k: int|
                0 <= k < i ==> #[trigger] hover_models(hovers@)[k] == final_hover(*ns, before[k]),
            forall|k: int| i <= k < hovers@.len() ==> #[trigger] hover_models(hovers@)[k] == before[k],
        decreases hovers@.len() - i,
    {
        assert(hover_models(hovers@)[i as int] == before[i as int]);
        let file_no: usize = hovers[i].0;
        let start: usize = hovers[i].1.start;
        let stop: usize = hovers[i].1.stop;
        let loc = Loc::File(file_no, start, stop);
        let ghost now = hover_models(hovers@);
        if let Some(val) = find_override(&ns.hover_overrides, &loc) {
            let ghost text = val@;
            hovers.set(i, (file_no, HoverEntry { start, stop, val }));
            assert(hover_models(hovers@) =~= now.update(
                i as int,
                HoverModel { file_no, start, stop, val: text },
            ));
        }
        i = i + 1;
    }
    assert(hover_models(hovers@) =~= before.map_values(|h: HoverModel| final_hover(*ns, h)));
}

fn find_override(overrides: &Vec<(Loc, String)>, loc: &Loc) -> (r: Option<String>)
    ensures
        match overriding_text(overrides@, *loc, 0) {
            Some(text) => r is Some && r->Some_0@ == text,
            None => r is None,
        },
{
    let mut i: usize = 0;
    while i < overrides.len()
        invariant
            i <= overrides@.len(),
            overriding_text(overrides@, *loc, 0) == overriding_text(overrides@, *loc, i as nat),
        decreases overrides@.len() - i,
    {
        if overrides[i].0 == *loc {
            return Some(overrides[i].1.clone());
        }
        i = i + 1;
    }
    None
}

fn find_file(files: &Vec<SourceFile>, path: &str) -> (r: Option<usize>)
    ensures
        r == file_number(files@, path@, files@.len()),
        r is Some ==> r->Some_0 < files@.len(),
{
    let mut n: usize = files.len();
    while n > 0
        invariant
            n <= files@.len(),
            file_number(files@, path@, files@.len()) == file_number(files@, path@, n as nat),
        decreases n,
    {
        if same_text(files[n - 1].path.as_str(), path) {
            return Some(n - 1);
        }
        n = n - 1;
    }
    None
}

fn add_own_references(
    ns: &Namespace,
    definitions: &Table<Range>,
    references: &mut Vec<(usize, ReferenceEntry)>,
) -> (r: bool)
    ensures
        match own_references(
            *ns,
            definitions.pairs(),
            definitions.pairs().len(),
            reference_models(old(references)@),
        ) {
            Some(all) => r && reference_models(final(references)@) == all,
            None => !r,
        },
{
    let ghost start = reference_models(references@);
    let ghost defs = definitions.pairs();
    let mut i: usize = 0;
    while i < definitions.len()
        invariant
            i <= defs.len(),
            defs == definitions.pairs(),
            start == reference_models(old(references)@),
            own_references(*ns, defs, i as nat, start) == Some(reference_models(references@)),
        decreases defs.len() - i,
    {
        let entry = definitions.entry(i);
        if let Some(no) = find_file(&ns.files, entry.0.def_path.as_str()) {
            let file = &ns.files[no];
            let range: Range = entry.1;
            let from = file.get_offset(range.start.line as usize, range.start.character as usize);
            let to = file.get_offset(range.end.line as usize, range.end.character as usize);
            let (start_offset, end_offset): (usize, usize) = match (from, to) {
                (Some(s), Some(e)) => (s, e),
                _ => {
                    proof {
                        lemma_own_references_fail(*ns, defs, (i + 1) as nat, start);
                    }
                    return false;
                },
            };
            if end_offset == usize::MAX {
                proof {
                    lemma_own_references_fail(*ns, defs, (i + 1) as nat, start);
                }
                return false;
            }
            let ghost before = reference_models(references@);
            let val = entry.0.copy();
            let ghost added = ReferenceModel {
                file_no: no,
                start: start_offset,
                stop: (end_offset + 1) as usize,
                val: val@,
            };
            references.push(
                (no, ReferenceEntry { start: start_offset, stop: end_offset + 1, val }),
            );
            assert(reference_models(references@) =~= before.push(added));
        }
        i = i + 1;
    }
    true
}

proof fn lemma_own_references_fail(
    ns: Namespace,
    definitions: Seq<(Definition, Range)>,
    n: nat,
    done: Seq<ReferenceModel>,
)
    requires
        0 < n <= definitions.len(),
        own_references(ns, definitions, n, done) is None,
    ensures
        own_references(ns, definitions, definitions.len(), done) is None,
    decreases definitions.len() - n,
{
    if n < definitions.len() {
        lemma_own_references_fail(ns, definitions, n + 1, done);
    }
}

fn place_references(definitions: &Table<Range>, references: &mut Vec<(usize, ReferenceEntry)>)
    ensures
        reference_models(final(references)@) == placed_references(
            definitions.pairs(),
            reference_models(old(references)@),
        ),
{
    let ghost before = reference_models(references@);
    let ghost after = placed_references(definitions.pairs(), before);
    let mut i: usize = 0;
    while i < references.len()
        invariant
            i <= references@.len(),
            references@.len() == before.len(),
            after == placed_references(definitions.pairs(), before),
            forall|k: int| 0 <= k < i ==> #[trigger] reference_models(references@)[k] == after[k],
            forall|k: int|
                i <= k < references@.len() ==> #[trigger] reference_models(references@)[k]
                    == before[k],
        decreases references@.len() - i,
    {
        assert(reference_models(references@)[i as int] == before[i as int]);
        let ghost now = reference_models(references@);
        let file_no: usize = references[i].0;
        let start: usize = references[i].1.start;
        let stop: usize = references[i].1.stop;
        let val = place(definitions, &references[i].1.val);
        let ghost changed = ReferenceModel { file_no, start, stop, val: val@ };
        references.set(i, (file_no, ReferenceEntry { start, stop, val }));
        assert(reference_models(references@) =~= now.update(i as int, changed));
        i = i + 1;
    }
    assert(reference_models(references@) =~= after);
}

fn place_names(definitions: &Table<Range>, names: &Vec<NamedObject>) -> (r: Vec<NamedObject>)
    ensures
        named_models(r@) == placed_names(definitions.pairs(), named_models(names@)),
{
    let ghost before = named_models(names@);
    let ghost after = placed_names(definitions.pairs(), before);
    let mut out: Vec<NamedObject> = Vec::new();
    let mut i: usize = 0;
    while i < names.len()
        invariant
            i <= names@.len(),
            out@.len() == i,
            before == named_models(names@),
            after == placed_names(definitions.pairs(), before),
            forall|k: int| 0 <= k < i ==> #[trigger] named_models(out@)[k] == after[k],
        decreases names@.len() - i,
    {
        assert(before[i as int] == (names@[i as int].0@, optional_definition(names@[i as int].1)));
        let ghost now = named_models(out@);
        let object = match &names[i].1 {
            Some(index) => Some(place(definitions, index)),
            None => None,
        };
        let ghost added = (names@[i as int].0@, optional_definition(object));
        out.push((names[i].0.clone(), object));
        assert(named_models(out@) =~= now.push(added));
        i = i + 1;
    }
    assert(named_models(out@) =~= after);
    out
}

fn fill_names(definitions: &Table<Range>, names: &Vec<NamedObject>) -> (r: Vec<NamedObject>)
    ensures
        named_models(r@) == filled_names(definitions.pairs(), named_models(names@)),
{
    let ghost before = named_models(names@);
    let ghost after = filled_names(definitions.pairs(), before);
    let mut out: Vec<NamedObject> = Vec::new();
    let mut i: usize = 0;
    while i < names.len()
        invariant
            i <= names@.len(),
            out@.len() == i,
            before == named_models(names@),
            after == filled_names(definitions.pairs(), before),
            forall|k: int| 0 <= k < i ==> #[trigger] named_models(out@)[k] == after[k],
        decreases names@.len() - i,
    {
        assert(before[i as int] == (names@[i as int].0@, optional_definition(names@[i as int].1)));
        let ghost now = named_models(out@);
        let object = place_if_open(definitions, &names[i].1);
        let ghost added = (names@[i as int].0@, optional_definition(object));
        out.push((names[i].0.clone(), object));
        assert(named_models(out@) =~= now.push(added));
        i = i + 1;
    }
    assert(named_models(out@) =~= after);
    out
}

fn place_scopes(definitions: &Table<Range>, scopes: &Vec<(usize, ScopeEntry)>) -> (r: Vec<
    (usize, ScopeEntry),
>)
    ensures
        scope_models(r@) == scope_models(scopes@).map_values(
            |s: ScopeModel|
                ScopeModel { val: placed_names(definitions.pairs(), s.val), ..s },
        ),
{
    let ghost before = scope_models(scopes@);
    let ghost after = before.map_values(
        |s: ScopeModel| ScopeModel { val: placed_names(definitions.pairs(), s.val), ..s },
    );
    let mut out: Vec<(usize, ScopeEntry)> = Vec::new();
    let mut i: usize = 0;
    while i < scopes.len()
        invariant
            i <= scopes@.len(),
            out@.len() == i,
            before == scope_models(scopes@),
            after == before.map_values(
                |s: ScopeModel| ScopeModel { val: placed_names(definitions.pairs(), s.val), ..s },
            ),
            forall|k: int| 0 <= k < i ==> #[trigger] scope_models(out@)[k] == after[k],
        decreases scopes@.len() - i,
    {
        let file_no: usize = scopes[i].0;
        let entry = &scopes[i].1;
        assert(before[i as int].val == named_models(entry.val@));
        let ghost now = scope_models(out@);
        let val = place_names(definitions, &entry.val);
        let ghost added = ScopeModel {
            file_no,
            start: entry.start,
            stop: entry.stop,
            val: named_models(val@),
        };
        out.push((file_no, ScopeEntry { start: entry.start, stop: entry.stop, val }));
        assert(scope_models(out@) =~= now.push(added));
        assert(added == after[i as int]);
        i = i + 1;
    }
    assert(scope_models(out@) =~= after);
    out
}

fn place_top_level(definitions: &Table<Range>, objects: &Vec<(usize, NamedObject)>) -> (r: Vec<
    (usize, NamedObject),
>)
    ensures
        top_level_models(r@) == top_level_models(objects@).map_values(
            |t: (usize, (Seq<char>, Option<Definition>))|
                (t.0, (t.1.0, placed_if_open(definitions.pairs(), t.1.1))),
        ),
{
    let ghost before = top_level_models(objects@);
    let ghost after = before.map_values(
        |t: (usize, (Seq<char>, Option<Definition>))|
            (t.0, (t.1.0, placed_if_open(definitions.pairs(), t.1.1))),
    );
    let mut out: Vec<(usize, NamedObject)> = Vec::new();
    let mut i: usize = 0;
    while i < objects.len()
        invariant
            i <= objects@.len(),
            out@.len() == i,
            before == top_level_models(objects@),
            after == before.map_values(
                |t: (usize, (Seq<char>, Option<Definition>))|
                    (t.0, (t.1.0, placed_if_open(definitions.pairs(), t.1.1))),
            ),
            forall|k: int| 0 <= k < i ==> #[trigger] top_level_models(out@)[k] == after[k],
        decreases objects@.len() - i,
    {
        let file_no: usize = objects[i].0;
        let named = &objects[i].1;
        assert(before[i as int] == (file_no, (named.0@, optional_definition(named.1))));
        let ghost now = top_level_models(out@);
        let object = place_if_open(definitions, &named.1);
        let ghost added = (file_no, (named.0@, optional_definition(object)));
        out.push((file_no, (named.0.clone(), object)));
        assert(top_level_models(out@) =~= now.push(added));
        assert(added == after[i as int]);
        i = i + 1;
    }
    assert(top_level_models(out@) =~= after);
    out
}

fn place_types(definitions: &Table<Range>, types: &mut Table<DefinitionIndex>)
    ensures
        type_models(final(types).pairs()) == type_models(old(types).pairs()).map_values(
            |t: (Definition, Definition)| (t.0, placed(definitions.pairs(), t.1)),
        ),
{
    let ghost before = type_models(types.pairs());
    let ghost after = before.map_values(
        |t: (Definition, Definition)| (t.0, placed(definitions.pairs(), t.1)),
    );
    let mut i: usize = 0;
    while i < types.len()
        invariant
            i <= types.pairs().len(),
            types.pairs().len() == before.len(),
            after == before.map_values(
                |t: (Definition, Definition)| (t.0, placed(definitions.pairs(), t.1)),
            ),
            forall|k: int| 0 <= k < i ==> #[trigger] type_models(types.pairs())[k] == after[k],
            forall|k: int|
                i <= k < before.len() ==> #[trigger] type_models(types.pairs())[k] == before[k],
        decreases types.pairs().len() - i,
    {
        assert(type_models(types.pairs())[i as int] == before[i as int]);
        let ghost now = type_models(types.pairs());
        let value = place(definitions, &types.entry(i).1);
        let ghost changed = (before[i as int].0, value@);
        types.set_value(i, value);
        assert(type_models(types.pairs()) =~= now.update(i as int, changed));
        i = i + 1;
    }
    assert(type_models(types.pairs()) =~= after);
}

fn fill_properties(definitions: &Table<Range>, properties: &mut Table<Vec<NamedObject>>)
    ensures
        property_models(final(properties).pairs()) == property_models(
            old(properties).pairs(),
        ).map_values(
            |p: (Definition, NamesModel)| (p.0, filled_names(definitions.pairs(), p.1)),
        ),
{
    let ghost before = property_models(properties.pairs());
    let ghost after = before.map_values(
        |p: (Definition, NamesModel)| (p.0, filled_names(definitions.pairs(), p.1)),
    );
    let mut i: usize = 0;
    while i < properties.len()
        invariant
            i <= properties.pairs().len(),
            properties.pairs().len() == before.len(),
            after == before.map_values(
                |p: (Definition, NamesModel)| (p.0, filled_names(definitions.pairs(), p.1)),
            ),
            forall|k: int|
                0 <= k < i ==> #[trigger] property_models(properties.pairs())[k] == after[k],
            forall|k: int|
                i <= k < before.len() ==> #[trigger] property_models(properties.pairs())[k]
                    == before[k],
        decreases properties.pairs().len() - i,
    {
        assert(property_models(properties.pairs())[i as int] == before[i as int]);
        let ghost now = property_models(properties.pairs());
        let value = fill_names(definitions, &properties.entry(i).1);
        let ghost changed = (before[i as int].0, named_models(value@));
        properties.set_value(i, value);
        assert(property_models(properties.pairs()) =~= now.update(i as int, changed));
        i = i + 1;
    }
    assert(property_models(properties.pairs()) =~= after);
}

impl Parts {
    fn complete(self, ns: &Namespace) -> (r: Option<Parts>)
        ensures
            match completed(*ns, self.model()) {
                Some(b) => r is Some && r->Some_0.model() == b,
                None => r is None,
            },
    {
        let mut hovers = self.hovers;
        let mut references = self.references;
        let mut types = self.types;
        let mut properties = self.properties;
        let definitions = self.definitions;
        override_hovers(ns, &mut hovers);
        place_types(&definitions, &mut types);
        if !add_own_references(ns, &definitions, &mut references) {
            return None;
        }
        place_references(&definitions, &mut references);
        let scopes = place_scopes(&definitions, &self.scopes);
        let top_level_code_objects = place_top_level(&definitions, &self.top_level_code_objects);
        fill_properties(&definitions, &mut properties);
        Some(
            Parts {
                hovers,
                references,
                scopes,
                top_level_code_objects,
                definitions,
                types,
                declarations: self.declarations,
                implementations: self.implementations,
                properties,
            },
        )
    }
}

/// What is looked up in one file. Each range carries the number of what it stands for.
#[derive(Debug)]
pub struct FileCache {
    pub file: SourceFile,
    pub hovers: Intervals,
    pub hover_texts: Vec<String>,
    pub references: Intervals,
    pub reference_targets: Vec<DefinitionIndex>,
    pub scopes: Intervals,
    pub scope_names: Vec<Vec<NamedObject>>,
    pub top_level_code_objects: Vec<NamedObject>,
}

/// Stores information used by the language server to service requests over all files.
///
/// Each field stores some information about a code object, which is uniquely identified by its
/// `DefinitionIndex`.
/// * `definitions` maps a code object to its source code location where it is defined.
/// * `types` maps a code object to that of its type.
/// * `declarations` maps a contract method to the methods of the parent contracts that it
///   overrides.
/// * `implementations` maps a contract to the methods defined as part of it.
/// * `properties` maps a code object to the name and type of fields, variants or methods defined
///   in it.
#[derive(Debug)]
pub struct GlobalCache {
    pub definitions: Table<Range>,
    pub types: Table<DefinitionIndex>,
    pub declarations: Table<Vec<DefinitionIndex>>,
    pub implementations: Table<Vec<DefinitionIndex>>,
    pub properties: Table<Vec<NamedObject>>,
}

impl GlobalCache {
    /// A cache that knows nothing.
    pub fn new() -> (r: GlobalCache)
        ensures
            r.definitions.pairs().len() == 0,
            r.types.pairs().len() == 0,
            r.declarations.pairs().len() == 0,
            r.implementations.pairs().len() == 0,
            r.properties.pairs().len() == 0,
    {
        GlobalCache {
            definitions: Table::new(),
            types: Table::new(),
            declarations: Table::new(),
            implementations: Table::new(),
            properties: Table::new(),
        }
    }

    /// Adds what another cache knows; of what both know, what the other knows counts.
    pub fn extend(&mut self, other: GlobalCache)
        ensures
            final(self).definitions.pairs() == with_pairs(
                old(self).definitions.pairs(),
                other.definitions.pairs(),
                other.definitions.pairs().len(),
            ),
            final(self).types.pairs() == with_pairs(
                old(self).types.pairs(),
                other.types.pairs(),
                other.types.pairs().len(),
            ),
            final(self).declarations.pairs() == with_pairs(
                old(self).declarations.pairs(),
                other.declarations.pairs(),
                other.declarations.pairs().len(),
            ),
            final(self).implementations.pairs() == with_pairs(
                old(self).implementations.pairs(),
                other.implementations.pairs(),
                other.implementations.pairs().len(),
            ),
            final(self).properties.pairs() == with_pairs(
                old(self).properties.pairs(),
                other.properties.pairs(),
                other.properties.pairs().len(),
            ),
    {
        self.definitions.extend(other.definitions);
        self.types.extend(other.types);
        self.declarations.extend(other.declarations);
        self.implementations.extend(other.implementations);
        self.properties.extend(other.properties);
    }
}

/// Those of the first `n` hovers that belong to a file.
pub open spec fn file_hovers(hovers: Seq<HoverModel>, file_no: usize, n: nat) -> Seq<HoverModel>
    decreases n,
{
    if n == 0 || n > hovers.len() {
        Seq::empty()
    } else {
        let before = file_hovers(hovers, file_no, (n - 1) as nat);
        if hovers[n - 1].file_no == file_no {
            before.push(hovers[n - 1])
        } else {
            before
        }
    }
}

/// Those of the first `n` references that belong to a file.
pub open spec fn file_references(references: Seq<ReferenceModel>, file_no: usize, n: nat) -> Seq<
    ReferenceModel,
>
    decreases n,
{
    if n == 0 || n > references.len() {
        Seq::empty()
    } else {
        let before = file_references(references, file_no, (n - 1) as nat);
        if references[n - 1].file_no == file_no {
            before.push(references[n - 1])
        } else {
            before
        }
    }
}

/// Those of the first `n` scopes that belong to a file.
pub open spec fn file_scopes(scopes: Seq<ScopeModel>, file_no: usize, n: nat) -> Seq<ScopeModel>
    decreases n,
{
    if n == 0 || n > scopes.len() {
        Seq::empty()
    } else {
        let before = file_scopes(scopes, file_no, (n - 1) as nat);
        if scopes[n - 1].file_no == file_no {
            before.push(scopes[n - 1])
        } else {
            before
        }
    }
}

/// What those of the first `n` objects that belong to a file are named; a later one counts.
pub open spec fn file_objects(
    objects: Seq<(usize, (Seq<char>, Option<Definition>))>,
    file_no: usize,
    n: nat,
) -> NamesModel
    decreases n,
{
    if n == 0 || n > objects.len() {
        Seq::empty()
    } else {
        let before = file_objects(objects, file_no, (n - 1) as nat);
        if objects[n - 1].0 == file_no {
            with_pair(before, objects[n - 1].1.0, objects[n - 1].1.1)
        } else {
            before
        }
    }
}

/// The ranges of the hovers, numbered.
pub open spec fn hover_ranges(hovers: Seq<HoverModel>) -> Seq<(usize, usize, usize)> {
    hovers.map(|i: int, h: HoverModel| (h.start, h.stop, i as usize))
}

/// The ranges of the references, numbered.
pub open spec fn reference_ranges(references: Seq<ReferenceModel>) -> Seq<(usize, usize, usize)> {
    references.map(|i: int, r: ReferenceModel| (r.start, r.stop, i as usize))
}

/// The ranges of the scopes, numbered.
pub open spec fn scope_ranges(scopes: Seq<ScopeModel>) -> Seq<(usize, usize, usize)> {
    scopes.map(|i: int, s: ScopeModel| (s.start, s.stop, i as usize))
}

pub open spec fn name_lists(lists: Seq<Vec<NamedObject>>) -> Seq<NamesModel> {
    lists.map_values(|l: Vec<NamedObject>| named_models(l@))
}

/// Whether a cache holds what is looked up in the file with number `i`.
pub open spec fn caches_file(c: FileCache, ns: Namespace, b: Built, i: usize) -> bool {
    let hovers = file_hovers(b.hovers, i, b.hovers.len());
    let references = file_references(b.references, i, b.references.len());
    let scopes = file_scopes(b.scopes, i, b.scopes.len());
    &&& c.file.path@ == ns.files@[i as int].path@
    &&& c.file.line_starts@ == ns.files@[i as int].line_starts@
    &&& c.file.cache_no == ns.files@[i as int].cache_no
    &&& texts(c.hover_texts@) == hovers.map_values(|h: HoverModel| h.val)
    &&& sorted_from(intervals_in(c.hovers), hover_ranges(hovers))
    &&& definition_models(c.reference_targets@) == references.map_values(
        |r: ReferenceModel| r.val,
    )
    &&& sorted_from(intervals_in(c.references), reference_ranges(references))
    &&& name_lists(c.scope_names@) == scopes.map_values(|s: ScopeModel| s.val)
    &&& sorted_from(intervals_in(c.scopes), scope_ranges(scopes))
    &&& named_models(c.top_level_code_objects@) == file_objects(
        b.top_level,
        i,
        b.top_level.len(),
    )
}

fn cache_hovers(hovers: &Vec<(usize, HoverEntry)>, file_no: usize) -> (r: (Intervals, Vec<String>))
    ensures
        ({
            let all = hover_models(hovers@);
            let mine = file_hovers(all, file_no, all.len());
            &&& sorted_from(intervals_in(r.0), hover_ranges(mine))
            &&& texts(r.1@) == mine.map_values(|h: HoverModel| h.val)
        }),
{
    let ghost all = hover_models(hovers@);
    let mut ranges: Vec<(usize, usize, usize)> = Vec::new();
    let mut vals: Vec<String> = Vec::new();
    let mut i: usize = 0;
    while i < hovers.len()
        invariant
            i <= hovers@.len(),
            all == hover_models(hovers@),
            ranges@.len() == vals@.len(),
            ranges@ =~= hover_ranges(file_hovers(all, file_no, i as nat)),
            texts(vals@) =~= file_hovers(all, file_no, i as nat).map_values(|h: HoverModel| h.val),
        decreases hovers@.len() - i,
    {
        let entry = &hovers[i].1;
        assert(all[i as int] == HoverModel {
            file_no: hovers@[i as int].0,
            start: entry.start,
            stop: entry.stop,
            val: entry.val@,
        });
        let ghost mine = file_hovers(all, file_no, i as nat);
        if hovers[i].0 == file_no {
            let ghost before = texts(vals@);
            ranges.push((entry.start, entry.stop, vals.len()));
            vals.push(entry.val.clone());
            assert(texts(vals@) =~= before.push(entry.val@));
            assert(file_hovers(all, file_no, (i + 1) as nat) == mine.push(all[i as int]));
        }
        i = i + 1;
    }
    (Intervals::new(ranges), vals)
}

fn cache_references(references: &Vec<(usize, ReferenceEntry)>, file_no: usize) -> (r: (
    Intervals,
    Vec<DefinitionIndex>,
))
    ensures
        ({
            let all = reference_models(references@);
            let mine = file_references(all, file_no, all.len());
            &&& sorted_from(intervals_in(r.0), reference_ranges(mine))
            &&& definition_models(r.1@) == mine.map_values(|r: ReferenceModel| r.val)
        }),
{
    let ghost all = reference_models(references@);
    let mut ranges: Vec<(usize, usize, usize)> = Vec::new();
    let mut vals: Vec<DefinitionIndex> = Vec::new();
    let mut i: usize = 0;
    while i < references.len()
        invariant
            i <= references@.len(),
            all == reference_models(references@),
            ranges@.len() == vals@.len(),
            ranges@ =~= reference_ranges(file_references(all, file_no, i as nat)),
            definition_models(vals@) =~= file_references(all, file_no, i as nat).map_values(
                |r: ReferenceModel| r.val,
            ),
        decreases references@.len() - i,
    {
        let entry = &references[i].1;
        assert(all[i as int] == ReferenceModel {
            file_no: references@[i as int].0,
            start: entry.start,
            stop: entry.stop,
            val: entry.val@,
        });
        let ghost mine = file_references(all, file_no, i as nat);
        if references[i].0 == file_no {
            let ghost before = definition_models(vals@);
            ranges.push((entry.start, entry.stop, vals.len()));
            vals.push(entry.val.copy());
            assert(definition_models(vals@) =~= before.push(entry.val@));
            assert(file_references(all, file_no, (i + 1) as nat) == mine.push(all[i as int]));
        }
        i = i + 1;
    }
    (Intervals::new(ranges), vals)
}

fn copy_names(names: &Vec<NamedObject>) -> (r: Vec<NamedObject>)
    ensures
        named_models(r@) == named_models(names@),
{
    let mut out: Vec<NamedObject> = Vec::new();
    let mut i: usize = 0;
    while i < names.len()
        invariant
            i <= names@.len(),
            out@.len() == i,
            forall|k: int|
                0 <= k < i ==> (#[trigger] out@[k]).0@ == names@[k].0@ && optional_definition(
                    out@[k].1,
                ) == optional_definition(names@[k].1),
        decreases names@.len() - i,
    {
        let object = match &names[i].1 {
            Some(index) => Some(index.copy()),
            None => None,
        };
        out.push((names[i].0.clone(), object));
        i = i + 1;
    }
    assert(named_models(out@) =~= named_models(names@));
    out
}

fn cache_scopes(scopes: &Vec<(usize, ScopeEntry)>, file_no: usize) -> (r: (
    Intervals,
    Vec<Vec<NamedObject>>,
))
    ensures
        ({
            let all = scope_models(scopes@);
            let mine = file_scopes(all, file_no, all.len());
            &&& sorted_from(intervals_in(r.0), scope_ranges(mine))
            &&& name_lists(r.1@) == mine.map_values(|s: ScopeModel| s.val)
        }),
{
    let ghost all = scope_models(scopes@);
    let mut ranges: Vec<(usize, usize, usize)> = Vec::new();
    let mut vals: Vec<Vec<NamedObject>> = Vec::new();
    let mut i: usize = 0;
    while i < scopes.len()
        invariant
            i <= scopes@.len(),
            all == scope_models(scopes@),
            ranges@.len() == vals@.len(),
            ranges@ =~= scope_ranges(file_scopes(all, file_no, i as nat)),
            name_lists(vals@) =~= file_scopes(all, file_no, i as nat).map_values(
                |s: ScopeModel| s.val,
            ),
        decreases scopes@.len() - i,
    {
        let entry = &scopes[i].1;
        assert(all[i as int] == ScopeModel {
            file_no: scopes@[i as int].0,
            start: entry.start,
            stop: entry.stop,
            val: named_models(entry.val@),
        });
        let ghost mine = file_scopes(all, file_no, i as nat);
        if scopes[i].0 == file_no {
            let ghost before = name_lists(vals@);
            ranges.push((entry.start, entry.stop, vals.len()));
            vals.push(copy_names(&entry.val));
            assert(name_lists(vals@) =~= before.push(named_models(entry.val@)));
            assert(file_scopes(all, file_no, (i + 1) as nat) == mine.push(all[i as int]));
        }
        i = i + 1;
    }
    (Intervals::new(ranges), vals)
}

fn cache_objects(objects: &Vec<(usize, NamedObject)>, file_no: usize) -> (r: Vec<NamedObject>)
    ensures
        named_models(r@) == file_objects(
            top_level_models(objects@),
            file_no,
            top_level_models(objects@).len(),
        ),
{
    let ghost all = top_level_models(objects@);
    let mut names: Vec<NamedObject> = Vec::new();
    assert(named_models(names@) =~= Seq::empty());
    let mut i: usize = 0;
    while i < objects.len()
        invariant
            i <= objects@.len(),
            all == top_level_models(objects@),
            named_models(names@) == file_objects(all, file_no, i as nat),
        decreases objects@.len() - i,
    {
        let named = &objects[i].1;
        assert(all[i as int] == (objects@[i as int].0, (named.0@, optional_definition(named.1))));
        if objects[i].0 == file_no {
            let object = match &named.1 {
                Some(index) => Some(index.copy()),
                None => None,
            };
            put_name(&mut names, named.0.clone(), object);
        }
        i = i + 1;
    }
    names
}

/// Whether the caches hold what is looked up in a namespace.
pub open spec fn caches_namespace(files: Seq<FileCache>, global: GlobalCache, ns: Namespace, b: Built) -> bool {
    &&& files.len() == ns.files@.len()
    &&& forall|i: int| 0 <= i < files.len() ==> caches_file(#[trigger] files[i], ns, b, i as usize)
    &&& global.definitions.pairs() == b.definitions
    &&& type_models(global.types.pairs()) == b.types
    &&& list_models(global.declarations.pairs()) == b.declarations
    &&& list_models(global.implementations.pairs()) == b.implementations
    &&& property_models(global.properties.pairs()) == b.properties
}

impl<'a> Builder<'a> {
    /// Traverses the namespace to extract information used later by the language server.
    /// This includes hover messages, locations where code objects are declared and used.
    /// Nothing comes back where the namespace refers to what is not there.
    pub fn build(self) -> (r: Option<(Vec<FileCache>, GlobalCache)>)
        ensures
            match namespace_built(self.namespace(), self.built()) {
                None => r is None,
                Some(collected) => match completed(self.namespace(), collected) {
                    None => r is None,
                    Some(b) => r is Some && caches_namespace(
                        r->Some_0.0@,
                        r->Some_0.1,
                        self.namespace(),
                        b,
                    ),
                },
            },
    {
        let ns: &Namespace = self.ns();
        let mut builder = self;
        builder.traverse();
        let collected = match builder.into_parts() {
            Some(parts) => parts,
            None => {
                return None;
            },
        };
        let parts = match collected.complete(ns) {
            Some(parts) => parts,
            None => {
                return None;
            },
        };
        let ghost b = parts.model();
        let mut files: Vec<FileCache> = Vec::new();
        let mut i: usize = 0;
        while i < ns.files.len()
            invariant
                i <= ns.files@.len(),
                files@.len() == i,
                b == parts.model(),
                forall|k: int|
                    0 <= k < i ==> caches_file(#[trigger] files@[k], *ns, b, k as usize),
            decreases ns.files@.len() - i,
        {
            let (hovers, hover_texts) = cache_hovers(&parts.hovers, i);
            let (references, reference_targets) = cache_references(&parts.references, i);
            let (scopes, scope_names) = cache_scopes(&parts.scopes, i);
            let cache = FileCache {
                file: ns.files[i].copy(),
                hovers,
                hover_texts,
                references,
                reference_targets,
                scopes,
                scope_names,
                top_level_code_objects: cache_objects(&parts.top_level_code_objects, i),
            };
            assert(caches_file(cache, *ns, b, i));
            files.push(cache);
            i = i + 1;
        }
        let global = GlobalCache {
            definitions: parts.definitions,
            types: parts.types,
            declarations: parts.declarations,
            implementations: parts.implementations,
            properties: parts.properties,
        };
        Some((files, global))
    }
}

} // verus!

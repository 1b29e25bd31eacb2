//! What holds of what is looked up.

use vstd::prelude::*;
use vstd::seq_lib::lemma_seq_contains_after_push;

use crate::builder::{nothing_built, ReferenceModel};
use crate::caches::{
    file_number, last_path, lookups, own_reference, own_references, placed, placed_references,
    FileCache,
};
use crate::contracts::{namespace_built, overridden, overridden_in};
use crate::definitions::{Definition, DefinitionType, Range};
use crate::lookup::{intervals_in, overlapping, Intervals};
use crate::namespace::{Base, Namespace};
use crate::queries::{
    definition_location, found_at, references_to, shortest, without, LocationModel,
};

verus! {

proof fn lemma_shortest(ranges: Seq<(usize, usize, usize)>, n: nat)
    requires
        n <= ranges.len(),
    ensures
        n > 0 <==> shortest(ranges, n) is Some,
        shortest(ranges, n) is Some ==> ranges.contains(shortest(ranges, n)->Some_0),
        forall|k: int|
            0 <= k < n ==> shortest(ranges, n)->Some_0.1 - shortest(ranges, n)->Some_0.0 <= (
            #[trigger] ranges[k]).1 - ranges[k].0,
    decreases n,
{
    if n > 0 {
        lemma_shortest(ranges, (n - 1) as nat);
        assert(ranges[n - 1] == ranges[n - 1]);
    }
}

/// What is found at an offset covers it, and nothing that covers it is shorter. Something is found
/// wherever anything covers the offset.
pub proof fn law_found_is_the_shortest(
    intervals: Intervals,
    offset: usize,
    other: (usize, usize, usize),
)
    requires
        offset < usize::MAX,
        intervals_in(intervals).contains(other),
        other.0 <= offset < other.1,
    ensures
        ({
            let found = found_at(intervals, offset);
            &&& found is Some
            &&& intervals_in(intervals).contains(found->Some_0)
            &&& found->Some_0.0 <= offset < found->Some_0.1
            &&& found->Some_0.1 - found->Some_0.0 <= other.1 - other.0
        }),
{
    let all = intervals_in(intervals);
    let stop = (offset + 1) as usize;
    let keep = |r: (usize, usize, usize)| r.0 < stop && r.1 > offset;
    let covering = overlapping(all, offset, stop);
    let i = choose|i: int| 0 <= i < all.len() && all[i] == other;
    all.lemma_filter_contains(keep, i);
    lemma_shortest(covering, covering.len());
    let k = choose|k: int| 0 <= k < covering.len() && covering[k] == other;
    assert(covering[k].1 - covering[k].0 == other.1 - other.0);
    let f = choose|f: int|
        0 <= f < covering.len() && covering[f] == shortest(covering, covering.len())->Some_0;
    all.lemma_filter_pred(keep, f);
    all.lemma_filter_contains_rev(keep, covering[f]);
}

proof fn lemma_own_references(
    ns: Namespace,
    definitions: Seq<(Definition, Range)>,
    n: nat,
    done: Seq<ReferenceModel>,
    i: int,
)
    requires
        0 <= i < n <= definitions.len(),
        own_references(ns, definitions, n, done) is Some,
        file_number(ns.files@, definitions[i].0.path, ns.files@.len()) is Some,
    ensures
        ({
            let (d, range) = definitions[i];
            let no = file_number(ns.files@, d.path, ns.files@.len())->Some_0;
            let own = own_reference(ns.files@[no as int], no, d, range);
            &&& own is Some
            &&& own_references(ns, definitions, n, done)->Some_0.contains(own->Some_0)
        }),
    decreases n,
{
    let all = own_references(ns, definitions, n, done)->Some_0;
    let before = own_references(ns, definitions, (n - 1) as nat, done)->Some_0;
    let (d, range) = definitions[i];
    let no = file_number(ns.files@, d.path, ns.files@.len())->Some_0;
    let own = own_reference(ns.files@[no as int], no, d, range);
    if i < n - 1 {
        lemma_own_references(ns, definitions, (n - 1) as nat, done, i);
        let k = choose|k: int| 0 <= k < before.len() && before[k] == own->Some_0;
        assert(all[k] == own->Some_0);
    } else {
        assert(all[before.len() as int] == own->Some_0);
    }
}

/// Each code object that is defined in one of the files refers to itself, at the place where it is
/// defined.
pub proof fn law_definitions_refer_to_themselves(ns: Namespace, i: int)
    requires
        lookups(ns) is Some,
        0 <= i < lookups(ns)->Some_0.definitions.len(),
        file_number(
            ns.files@,
            lookups(ns)->Some_0.definitions[i].0.path,
            ns.files@.len(),
        ) is Some,
    ensures
        ({
            let b = lookups(ns)->Some_0;
            let (d, range) = b.definitions[i];
            let no = file_number(ns.files@, d.path, ns.files@.len())->Some_0;
            let own = own_reference(ns.files@[no as int], no, d, range);
            &&& own is Some
            &&& b.references.contains(
                ReferenceModel { val: placed(b.definitions, d), ..own->Some_0 },
            )
        }),
{
    let built = namespace_built(ns, Some(nothing_built()))->Some_0;
    let b = lookups(ns)->Some_0;
    let defs = built.definitions;
    assert(b.definitions == defs);
    lemma_own_references(ns, defs, defs.len(), built.references, i);
    let (d, range) = defs[i];
    let no = file_number(ns.files@, d.path, ns.files@.len())->Some_0;
    let own = own_reference(ns.files@[no as int], no, d, range)->Some_0;
    let all = own_references(ns, defs, defs.len(), built.references)->Some_0;
    let k = choose|k: int| 0 <= k < all.len() && all[k] == own;
    assert(b.references == placed_references(defs, all));
    assert(b.references[k] == (ReferenceModel { val: placed(defs, d), ..own }));
}

pub proof fn lemma_last_path(definitions: Seq<(Definition, Range)>, def: DefinitionType, n: nat, i: int)
    requires
        n <= definitions.len(),
        0 <= i < n,
        definitions[i].0.def == def,
    ensures
        last_path(definitions, def, n) is Some,
        exists|k: int|
            0 <= k < n && #[trigger] definitions[k].0 == (Definition {
                path: last_path(definitions, def, n)->Some_0,
                def,
            }),
    decreases n,
{
    if definitions[n - 1].0.def == def {
        assert(definitions[n - 1].0 == (Definition {
            path: last_path(definitions, def, n)->Some_0,
            def,
        }));
    } else {
        lemma_last_path(definitions, def, (n - 1) as nat, i);
        let k = choose|k: int|
            0 <= k < n - 1 && #[trigger] definitions[k].0 == (Definition {
                path: last_path(definitions, def, (n - 1) as nat)->Some_0,
                def,
            });
        assert(definitions[k].0 == (Definition {
            path: last_path(definitions, def, n)->Some_0,
            def,
        }));
    }
}

/// What refers to a code object that is defined somewhere refers to one of its definitions.
pub proof fn law_references_lead_to_definitions(ns: Namespace, k: int, i: int)
    requires
        lookups(ns) is Some,
        0 <= k < lookups(ns)->Some_0.references.len(),
        0 <= i < lookups(ns)->Some_0.definitions.len(),
        lookups(ns)->Some_0.definitions[i].0.def == lookups(ns)->Some_0.references[k].val.def,
    ensures
        exists|j: int|
            0 <= j < lookups(ns)->Some_0.definitions.len() && #[trigger] lookups(
                ns,
            )->Some_0.definitions[j].0 == lookups(ns)->Some_0.references[k].val,
{
    let built = namespace_built(ns, Some(nothing_built()))->Some_0;
    let b = lookups(ns)->Some_0;
    let defs = built.definitions;
    assert(b.definitions == defs);
    let all = own_references(ns, defs, defs.len(), built.references)->Some_0;
    assert(b.references == placed_references(defs, all));
    let d = all[k].val;
    assert(b.references[k].val == placed(defs, d));
    assert(placed(defs, d).def == d.def);
    lemma_last_path(defs, d.def, defs.len(), i);
}

proof fn lemma_without(locations: Seq<LocationModel>, left_out: LocationModel, n: nat)
    requires
        n <= locations.len(),
    ensures
        forall|l: LocationModel| #[trigger]
            without(locations, left_out, n).contains(l) <==> l != left_out && locations.take(
                n as int,
            ).contains(l),
    decreases n,
{
    let found = without(locations, left_out, n);
    let all = locations.take(n as int);
    if n > 0 {
        lemma_without(locations, left_out, (n - 1) as nat);
        let last = locations[n - 1];
        let before = without(locations, left_out, (n - 1) as nat);
        let shorter = locations.take(n - 1);
        assert(all =~= shorter.push(last));
        assert forall|l: LocationModel| #[trigger] found.contains(l) <==> l != left_out
            && all.contains(l) by {
            lemma_seq_contains_after_push(shorter, last, l);
            if last != left_out {
                lemma_seq_contains_after_push(before, last, l);
            }
        }
    }
}

/// Where the declaration is left out, the place where the code object is defined is missing, and
/// no other.
pub proof fn law_only_the_declaration_is_left_out(
    caches: Seq<(Seq<char>, FileCache)>,
    definitions: Seq<(Definition, Range)>,
    d: Definition,
)
    ensures
        match (
            references_to(caches, definitions, d, true),
            references_to(caches, definitions, d, false),
        ) {
            (Ok(all), Ok(found)) => forall|l: LocationModel| #[trigger]
                found.contains(l) <==> all.contains(l) && definition_location(definitions, d)
                    != Some(l),
            (Err(_), Err(_)) => true,
            _ => false,
        },
{
    if let Ok(all) = references_to(caches, definitions, d, true) {
        if let Some(left_out) = definition_location(definitions, d) {
            lemma_without(all, left_out, all.len());
            assert(all.take(all.len() as int) =~= all);
        }
    }
}

/// Whether one of the first `n` bases has this function.
pub open spec fn inherited(ns: Namespace, bases: Seq<Base>, n: nat, f: usize) -> bool {
    exists|i: int|
        0 <= i < n && i < bases.len() && ns.contracts@[(
        #[trigger] bases[i]).contract_no as int].functions@.contains(f)
}

proof fn lemma_overridden_in(functions: Seq<usize>, n: nat, all: Seq<usize>, done: Seq<usize>)
    requires
        n <= functions.len(),
        done.no_duplicates(),
    ensures
        overridden_in(functions, n, all, done).no_duplicates(),
        forall|f: usize| #[trigger]
            overridden_in(functions, n, all, done).contains(f) <==> done.contains(f)
                || all.contains(f) && functions.take(n as int).contains(f),
    decreases n,
{
    let found = overridden_in(functions, n, all, done);
    let taken = functions.take(n as int);
    if n > 0 {
        lemma_overridden_in(functions, (n - 1) as nat, all, done);
        let before = overridden_in(functions, (n - 1) as nat, all, done);
        let shorter = functions.take(n - 1);
        let last = functions[n - 1];
        assert(taken =~= shorter.push(last));
        assert forall|f: usize| #[trigger] found.contains(f) <==> done.contains(f) || all.contains(f)
            && taken.contains(f) by {
            lemma_seq_contains_after_push(shorter, last, f);
            lemma_seq_contains_after_push(before, last, f);
        }
    }
}

/// The functions that a function overrides belong to the bases of its contract, and no other
/// function of a base among those that it may override is missing. Each is listed once.
pub proof fn law_overridden_functions_are_inherited(
    ns: Namespace,
    bases: Seq<Base>,
    n: nat,
    all: Seq<usize>,
)
    requires
        n <= bases.len(),
        overridden(ns, bases, n, all) is Some,
    ensures
        overridden(ns, bases, n, all)->Some_0.no_duplicates(),
        forall|f: usize| #[trigger]
            overridden(ns, bases, n, all)->Some_0.contains(f) <==> all.contains(f) && inherited(
                ns,
                bases,
                n,
                f,
            ),
    decreases n,
{
    if n > 0 {
        law_overridden_functions_are_inherited(ns, bases, (n - 1) as nat, all);
        let before = overridden(ns, bases, (n - 1) as nat, all)->Some_0;
        let base = bases[n - 1];
        let functions = ns.contracts@[base.contract_no as int].functions@;
        lemma_overridden_in(functions, functions.len(), all, before);
        assert(functions.take(functions.len() as int) =~= functions);
        assert forall|f: usize| inherited(ns, bases, n, f) <==> inherited(
            ns,
            bases,
            (n - 1) as nat,
            f,
        ) || functions.contains(f) by {
            if functions.contains(f) {
                assert(ns.contracts@[bases[n - 1].contract_no as int].functions@.contains(f));
            }
        }
    }
}

} // verus!

//! What holds of what the editor asks for, and of the documents it keeps.

use vstd::prelude::*;
use vstd::utf8::encode_utf8;

use crate::ast::Node;
use crate::builder::NamesModel;
use crate::caches::FileCache;
use crate::commands::{debug_session, request_of, RequestModel};
use crate::debug_info::UnitModel;
use crate::definitions::{law_put_then_find, value_at, with_pair, Definition, Range};
use crate::documents::{edited, ContentChange};
use crate::json::Json;
use crate::queries::{changed, lenses, stored, LensModel};
use crate::text::begins_with;
use crate::units::{
    contract_unit, place_of, unit_named, with_artifacts, with_node, with_nodes, with_unit, Artifact,
    UnitError,
};

verus! {

/// Whether a named code object is a function that is named like a test.
pub open spec fn names_a_test(object: (Seq<char>, Option<Definition>)) -> bool {
    &&& object.1 is Some
    &&& object.1->Some_0.def is Function
    &&& begins_with(object.0, "test_"@)
}

/// Whether a command is offered for a test, with this title, where the test is defined, and asks for
/// this when it is given.
pub open spec fn offers(lens: LensModel, range: Range, title: Seq<char>, asked: RequestModel) -> bool {
    &&& lens.range == range
    &&& lens.title == title
    &&& request_of(lens.command, lens.arguments.map_values(|a: Seq<char>| Json::String(a))) == Some(
        asked,
    )
}

/// Whether the two commands are offered for the test: to run it, and to debug it.
pub open spec fn offered(
    definitions: Seq<(Definition, Range)>,
    path: Seq<char>,
    test: (Seq<char>, Option<Definition>),
    run: LensModel,
    debug: LensModel,
) -> bool {
    value_at(definitions, test.1->Some_0) matches Some(range) && {
        &&& offers(run, range, "run test"@, RequestModel::Test(path, test.0))
        &&& offers(debug, range, "debug test"@, RequestModel::Debug(path, test.0))
    }
}

/// Every test among the code objects of a file can be run and debugged, in their order: the command
/// that is offered at its definition asks for just this test. Nothing is offered for anything else,
/// and nothing at all where the definition of a test is unknown.
pub proof fn law_tests_can_be_run_and_debugged(
    definitions: Seq<(Definition, Range)>,
    objects: NamesModel,
    path: Seq<char>,
)
    ensures
        ({
            let tests = objects.filter(|o: (Seq<char>, Option<Definition>)| names_a_test(o));
            &&& lenses(definitions, objects, path, objects.len()) is Ok <==> forall|i: int|
                0 <= i < tests.len() ==> value_at(definitions, (#[trigger] tests[i]).1->Some_0) is Some
            &&& lenses(definitions, objects, path, objects.len()) matches Ok(found) ==> {
                &&& found.len() == 2 * tests.len()
                &&& forall|i: int|
                    0 <= i < tests.len() ==> offered(
                        definitions,
                        path,
                        #[trigger] tests[i],
                        found[2 * i],
                        found[2 * i + 1],
                    )
            }
        }),
{
    lemma_lenses(definitions, objects, path, objects.len());
    assert(objects.take(objects.len() as int) =~= objects);
}

proof fn lemma_lenses(
    definitions: Seq<(Definition, Range)>,
    objects: NamesModel,
    path: Seq<char>,
    n: nat,
)
    requires
        n <= objects.len(),
    ensures
        ({
            let tests = objects.take(n as int).filter(
                |o: (Seq<char>, Option<Definition>)| names_a_test(o),
            );
            &&& lenses(definitions, objects, path, n) is Ok <==> forall|i: int|
                0 <= i < tests.len() ==> value_at(definitions, (#[trigger] tests[i]).1->Some_0) is Some
            &&& lenses(definitions, objects, path, n) matches Ok(found) ==> {
                &&& found.len() == 2 * tests.len()
                &&& forall|i: int|
                    0 <= i < tests.len() ==> offered(
                        definitions,
                        path,
                        #[trigger] tests[i],
                        found[2 * i],
                        found[2 * i + 1],
                    )
            }
        }),
    decreases n,
{
    reveal(Seq::filter);
    let f = |o: (Seq<char>, Option<Definition>)| names_a_test(o);
    if n > 0 {
        lemma_lenses(definitions, objects, path, (n - 1) as nat);
        let last = objects[n - 1];
        let all = objects.take(n as int);
        assert(all.drop_last() =~= objects.take(n - 1));
        assert(all.last() == last);
        let tests = all.filter(f);
        let before = objects.take(n - 1).filter(f);
        if names_a_test(last) {
            assert(tests == before.push(last));
            assert forall|i: int| 0 <= i < before.len() implies #[trigger] before[i] == tests[i] by {}
            if lenses(definitions, objects, path, (n - 1) as nat) is Ok {
                let shown = lenses(definitions, objects, path, (n - 1) as nat)->Ok_0;
                if let Some(range) = value_at(definitions, last.1->Some_0) {
                    let found = lenses(definitions, objects, path, n)->Ok_0;
                    let k = before.len() as int;
                    lemma_asked(path, last.0);
                    assert(found[2 * k].arguments.map_values(|a: Seq<char>| Json::String(a)) =~= seq![
                        Json::String(path),
                        Json::String(last.0),
                    ]);
                    assert(found[2 * k + 1].arguments.map_values(|a: Seq<char>| Json::String(a))
                        =~= seq![Json::String(path), Json::String(last.0)]);
                    assert(offered(definitions, path, last, found[2 * k], found[2 * k + 1]));
                    assert forall|i: int| 0 <= i < tests.len() implies offered(
                        definitions,
                        path,
                        #[trigger] tests[i],
                        found[2 * i],
                        found[2 * i + 1],
                    ) by {
                        if i < k {
                            assert(tests[i] == before[i]);
                            assert(found[2 * i] == shown[2 * i]);
                            assert(found[2 * i + 1] == shown[2 * i + 1]);
                        }
                    }
                } else {
                    assert(tests[before.len() as int] == last);
                }
            } else {
                let i = choose|i: int|
                    0 <= i < before.len() && value_at(
                        definitions,
                        (#[trigger] before[i]).1->Some_0,
                    ) is None;
                assert(tests[i] == before[i]);
            }
        } else {
            assert(tests == before);
        }
    }
}

proof fn lemma_asked(path: Seq<char>, name: Seq<char>)
    ensures
        ({
            let arguments = seq![Json::String(path), Json::String(name)];
            &&& request_of("sol.test.file"@, arguments) == Some(RequestModel::Test(path, name))
            &&& request_of("sol.debug.file"@, arguments) == Some(RequestModel::Debug(path, name))
        }),
{
    reveal_strlit("sol.test.file");
    reveal_strlit("sol.debug.file");
    assert("sol.test.file"@.len() != "sol.debug.file"@.len());
}

/// A command that is not one of the two asks for nothing, whatever its arguments. One of the two asks
/// for something exactly if its first two arguments are texts.
pub proof fn law_commands_ask_with_two_texts(command: Seq<char>, arguments: Seq<Json>)
    ensures
        command != "sol.test.file"@ && command != "sol.debug.file"@ ==> request_of(
            command,
            arguments,
        ) == Some(RequestModel::Unknown),
        command == "sol.test.file"@ || command == "sol.debug.file"@ ==> (request_of(
            command,
            arguments,
        ) is Some <==> arguments.len() > 1 && arguments[0] is String && arguments[1] is String),
{
}

/// A debugging session is one that is launched, stops at its entry, and is told of the file with the
/// test.
pub proof fn law_sessions_are_launched(test_path: Seq<char>)
    ensures
        ({
            let config = debug_session(test_path);
            &&& config.dom().contains("request"@) && config["request"@] == Json::String("launch"@)
            &&& config.dom().contains("program"@) && config["program"@] == Json::String(test_path)
            &&& config.dom().contains("stopOnEntry"@) && config["stopOnEntry"@] == Json::Bool(true)
            &&& config.dom().contains("type"@) && config["type"@] == Json::String("mock"@)
            &&& config.dom().contains("name"@) && config["name"@] == Json::String("Debug Test"@)
            &&& config.dom() =~= set![
                "type"@,
                "name"@,
                "request"@,
                "program"@,
                "stopOnEntry"@,
            ]
        }),
{
    reveal_strlit("type");
    reveal_strlit("name");
    reveal_strlit("request");
    reveal_strlit("program");
    reveal_strlit("stopOnEntry");
    assert("type"@[0] == 't' && "name"@[0] == 'n');
    assert("request"@[0] == 'r' && "program"@[0] == 'p' && "stopOnEntry"@[0] == 's');
}

proof fn lemma_same_changes(bytes: Seq<u8>, a: Seq<ContentChange>, b: Seq<ContentChange>, n: nat)
    requires
        n <= a.len(),
    ensures
        changed(bytes, a + b, n) == changed(bytes, a, n),
    decreases n,
{
    if n > 0 {
        lemma_same_changes(bytes, a, b, (n - 1) as nat);
        assert((a + b)[n - 1] == a[n - 1]);
    }
}

proof fn lemma_more_changes(bytes: Seq<u8>, a: Seq<ContentChange>, b: Seq<ContentChange>, n: nat)
    requires
        n <= b.len(),
    ensures
        changed(bytes, a + b, a.len() + n) == match changed(bytes, a, a.len()) {
            Some(between) => changed(between, b, n),
            None => None,
        },
    decreases n,
{
    if n == 0 {
        lemma_same_changes(bytes, a, b, a.len());
    } else {
        lemma_more_changes(bytes, a, b, (n - 1) as nat);
        assert((a + b)[a.len() + n - 1] == b[n - 1]);
        assert((a.len() + n - 1) as nat == a.len() + (n - 1) as nat);
    }
}

/// Changes that come at once do what they do one after the other: the first ones, and then the others
/// on the text that those left. No change leaves the text as it is, and one without a range replaces
/// all of it.
pub proof fn law_changes_follow_one_another(
    bytes: Seq<u8>,
    a: Seq<ContentChange>,
    b: Seq<ContentChange>,
    change: ContentChange,
)
    ensures
        changed(bytes, a + b, (a + b).len()) == match changed(bytes, a, a.len()) {
            Some(between) => changed(between, b, b.len()),
            None => None,
        },
        changed(bytes, Seq::empty(), 0) == Some(bytes),
        change.range is None ==> changed(bytes, seq![change], 1) == Some(encode_utf8(change.text@)),
        change.range is Some ==> changed(bytes, seq![change], 1) == edited(
            bytes,
            change.range,
            encode_utf8(change.text@),
        ),
{
    lemma_more_changes(bytes, a, b, b.len());
    assert((a + b).len() == a.len() + b.len());
    reveal_with_fuel(changed, 2);
}

/// What is found for a path is what was stored last for a file with it that was read, or what was
/// found there before where there is none.
pub proof fn law_read_files_are_kept(
    caches: Seq<(Seq<char>, FileCache)>,
    files: Seq<FileCache>,
    n: nat,
    path: Seq<char>,
)
    requires
        n <= files.len(),
    ensures
        forall|i: int|
            0 <= i < n && (#[trigger] files[i]).file.cache_no is Some && files[i].file.path@ == path && (
            forall|j: int|
                i < j < n ==> (#[trigger] files[j]).file.cache_no is None || files[j].file.path@
                    != path) ==> value_at(stored(caches, files, n), path) == Some(files[i]),
        (forall|j: int|
            0 <= j < n ==> (#[trigger] files[j]).file.cache_no is None || files[j].file.path@ != path)
            ==> value_at(stored(caches, files, n), path) == value_at(caches, path),
    decreases n,
{
    if n > 0 {
        law_read_files_are_kept(caches, files, (n - 1) as nat, path);
        let before = stored(caches, files, (n - 1) as nat);
        let last = files[n - 1];
        if last.file.cache_no is Some {
            if last.file.path@ == path {
                lemma_found(before, path, last);
            } else {
                law_put_then_find(before, last.file.path@, last, path);
            }
        }
    }
}

proof fn lemma_found(pairs: Seq<(Seq<char>, FileCache)>, path: Seq<char>, file: FileCache)
    ensures
        value_at(with_pair(pairs, path, file), path) == Some(file),
{
    let other = path.push('x');
    assert(other.len() != path.len());
    law_put_then_find(pairs, path, file, other);
}

/// Whether the node defines a contract with this name that is asked for.
pub open spec fn defines_contract(node: Node, names: Option<Seq<Seq<char>>>, name: Seq<char>) -> bool {
    &&& node.node_type is ContractDefinition
    &&& node.name is Some
    &&& node.name->Some_0@ == name
    &&& names is None || names->Some_0.contains(name)
}

/// Whether an artifact has the bytecode of a contract.
pub open spec fn has_code(artifact: Artifact) -> bool {
    artifact.deployed_bytecode is Some
}

/// What is known of the contract that a node of an artifact defines.
pub open spec fn described(artifact: Artifact, node: Node) -> Result<UnitModel, UnitError> {
    contract_unit(
        artifact.deployed_bytecode->Some_0.bytecode->Some_0,
        artifact.bytecode->Some_0,
        artifact.path@,
        artifact.source->Some_0@,
        node,
    )
}

proof fn lemma_put(units: Seq<(Seq<char>, UnitModel)>, name: Seq<char>, unit: UnitModel, other: Seq<char>)
    ensures
        unit_named(with_unit(units, name, unit), name) == Some(unit),
        other != name ==> unit_named(with_unit(units, name, unit), other) == unit_named(units, other),
{
    let after = with_unit(units, name, unit);
    lemma_first_place(units, name, 0);
    lemma_first_place(after, name, 0);
    lemma_first_place(units, other, 0);
    lemma_first_place(after, other, 0);
    match place_of(units, name, 0) {
        Some(i) => {
            assert(after[i as int] == (name, unit));
        },
        None => {
            assert(after[units.len() as int] == (name, unit));
        },
    }
    if other != name {
        if let Some(j) = place_of(units, other, 0) {
            assert(after[j as int] == units[j as int]);
        }
        if let Some(j) = place_of(after, other, 0) {
            assert(after[j as int] == units[j as int]);
        }
    }
}

proof fn lemma_first_place(units: Seq<(Seq<char>, UnitModel)>, name: Seq<char>, i: nat)
    ensures
        match place_of(units, name, i) {
            Some(k) => {
                &&& i <= k < units.len()
                &&& units[k as int].0 == name
                &&& forall|j: int| i <= j < k ==> (#[trigger] units[j]).0 != name
            },
            None => forall|k: int| i <= k < units.len() ==> (#[trigger] units[k]).0 != name,
        },
    decreases (if i < units.len() { units.len() - i } else { 0 }),
{
    if i < units.len() && units[i as int].0 != name {
        lemma_first_place(units, name, i + 1);
    }
}

proof fn lemma_node(
    artifact: Artifact,
    node: Node,
    names: Option<Seq<Seq<char>>>,
    units: Seq<(Seq<char>, UnitModel)>,
    name: Seq<char>,
)
    requires
        with_node(artifact, node, names, units) is Ok,
    ensures
        has_code(artifact) && defines_contract(node, names, name) ==> described(artifact, node) is Ok
            && unit_named(with_node(artifact, node, names, units)->Ok_0, name) == Some(
            described(artifact, node)->Ok_0,
        ),
        !(has_code(artifact) && defines_contract(node, names, name)) ==> unit_named(
            with_node(artifact, node, names, units)->Ok_0,
            name,
        ) == unit_named(units, name),
{
    if with_node(artifact, node, names, units)->Ok_0 != units {
        lemma_put(units, node.name->Some_0@, described(artifact, node)->Ok_0, name);
    } else if has_code(artifact) && defines_contract(node, names, name) {
        lemma_put(units, name, described(artifact, node)->Ok_0, name);
    }
}

proof fn lemma_nodes(
    artifact: Artifact,
    nodes: Seq<Node>,
    i: nat,
    names: Option<Seq<Seq<char>>>,
    units: Seq<(Seq<char>, UnitModel)>,
    name: Seq<char>,
)
    requires
        i <= nodes.len(),
        with_nodes(artifact, nodes, i, names, units) is Ok,
    ensures
        forall|k: int|
            i <= k < nodes.len() && has_code(artifact) && defines_contract(
                #[trigger] nodes[k],
                names,
                name,
            ) && (forall|j: int|
                k < j < nodes.len() ==> !defines_contract(#[trigger] nodes[j], names, name))
                ==> described(artifact, nodes[k]) is Ok && unit_named(
                with_nodes(artifact, nodes, i, names, units)->Ok_0,
                name,
            ) == Some(described(artifact, nodes[k])->Ok_0),
        !has_code(artifact) || (forall|j: int|
            i <= j < nodes.len() ==> !defines_contract(#[trigger] nodes[j], names, name))
            ==> unit_named(with_nodes(artifact, nodes, i, names, units)->Ok_0, name) == unit_named(
            units,
            name,
        ),
    decreases nodes.len() - i,
{
    if i < nodes.len() {
        lemma_node(artifact, nodes[i as int], names, units, name);
        let after = with_node(artifact, nodes[i as int], names, units)->Ok_0;
        lemma_nodes(artifact, nodes, i + 1, names, after, name);
    }
}

/// Whether the artifact has the code of a contract with this name, and its syntax tree.
pub open spec fn has_contract(artifact: Artifact, names: Option<Seq<Seq<char>>>, name: Seq<char>) -> bool {
    &&& has_code(artifact)
    &&& artifact.ast is Some
    &&& exists|k: int|
        0 <= k < artifact.ast->Some_0.nodes@.len() && defines_contract(
            #[trigger] artifact.ast->Some_0.nodes@[k],
            names,
            name,
        )
}

/// What is found under a name is what is known of the last contract that is defined with it, in the
/// last artifact that defines one: all contracts count, or those that are asked for. A name that no
/// artifact defines a contract with is found where it was before.
pub proof fn law_contracts_are_described(
    artifacts: Seq<Artifact>,
    i: nat,
    names: Option<Seq<Seq<char>>>,
    units: Seq<(Seq<char>, UnitModel)>,
    name: Seq<char>,
    a: int,
    k: int,
)
    requires
        i <= artifacts.len(),
        with_artifacts(artifacts, i, names, units) is Ok,
    ensures
        ({
            let after = with_artifacts(artifacts, i, names, units)->Ok_0;
            let nodes = artifacts[a].ast->Some_0.nodes@;
            &&& i <= a < artifacts.len() && has_code(artifacts[a]) && artifacts[a].ast is Some && 0 <= k
                < nodes.len() && defines_contract(nodes[k], names, name) && (forall|j: int|
                k < j < nodes.len() ==> !defines_contract(#[trigger] nodes[j], names, name)) && (
            forall|b: int|
                a < b < artifacts.len() ==> !has_contract(#[trigger] artifacts[b], names, name))
                ==> described(artifacts[a], nodes[k]) is Ok && unit_named(after, name) == Some(
                described(artifacts[a], nodes[k])->Ok_0,
            )
            &&& (forall|b: int|
                i <= b < artifacts.len() ==> !has_contract(#[trigger] artifacts[b], names, name))
                ==> unit_named(after, name) == unit_named(units, name)
        }),
    decreases artifacts.len() - i,
{
    if i < artifacts.len() {
        let artifact = artifacts[i as int];
        match artifact.ast {
            None => {
                law_contracts_are_described(artifacts, i + 1, names, units, name, a, k);
            },
            Some(ast) => {
                lemma_nodes(artifact, ast.nodes@, 0, names, units, name);
                let between = with_nodes(artifact, ast.nodes@, 0, names, units)->Ok_0;
                law_contracts_are_described(artifacts, i + 1, names, between, name, a, k);
            },
        }
    }
}

} // verus!

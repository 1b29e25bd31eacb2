//! The debug information of all contracts of a project.

use vstd::prelude::*;

use crate::artifacts::{code_model, BytecodeError, CompactBytecode};
use crate::ast::{Ast, Node, NodeType};
use crate::debug_info::{DebugUnit, UnitModel};
use crate::text::{same_text, texts};
use crate::visitor::{members_of, StatementVisitor, VisitError};

verus! {

/// The runtime bytecode of an artifact, which interfaces do not have.
#[derive(Debug, PartialEq)]
pub struct CompactDeployedBytecode {
    pub bytecode: Option<CompactBytecode>,
}

/// What a build leaves of one contract, with the source file that it was built from.
#[derive(Debug, PartialEq)]
pub struct Artifact {
    pub ast: Option<Ast>,
    pub deployed_bytecode: Option<CompactDeployedBytecode>,
    pub bytecode: Option<CompactBytecode>,
    /// The full path of the source file.
    pub path: String,
    /// The text of the source file, where it could be read.
    pub source: Option<String>,
}

/// Why the debug information of a project cannot be collected.
#[derive(Clone, Copy, Debug, PartialEq, Eq, Structural)]
pub enum UnitError {
    /// An artifact has deployed bytecode in part only.
    MissingBytecode,
    /// A contract has no name.
    MissingName,
    /// The source file of a contract could not be read.
    MissingSource,
    /// A bytecode cannot be mapped to its source.
    Bytecode(BytecodeError),
    /// A contract cannot be described.
    Visit(VisitError),
}

/// The contracts by name.
pub open spec fn unit_models(units: Seq<(String, DebugUnit)>) -> Seq<(Seq<char>, UnitModel)> {
    units.map_values(|u: (String, DebugUnit)| (u.0@, u.1@))
}

/// The place of the first of the contracts from `i` on that has this name.
pub open spec fn place_of(units: Seq<(Seq<char>, UnitModel)>, name: Seq<char>, i: nat) -> Option<nat>
    decreases (if i < units.len() { units.len() - i } else { 0 }),
{
    if i >= units.len() {
        None
    } else if units[i as int].0 == name {
        Some(i)
    } else {
        place_of(units, name, i + 1)
    }
}

/// The contract with this name.
pub open spec fn unit_named(units: Seq<(Seq<char>, UnitModel)>, name: Seq<char>) -> Option<
    UnitModel,
> {
    match place_of(units, name, 0) {
        Some(i) => Some(units[i as int].1),
        None => None,
    }
}

/// The contracts with `unit` under `name`, in the place of one that had the name before.
pub open spec fn with_unit(
    units: Seq<(Seq<char>, UnitModel)>,
    name: Seq<char>,
    unit: UnitModel,
) -> Seq<(Seq<char>, UnitModel)> {
    match place_of(units, name, 0) {
        Some(i) => units.update(i as int, (name, unit)),
        None => units.push((name, unit)),
    }
}

pub proof fn lemma_place(units: Seq<(Seq<char>, UnitModel)>, name: Seq<char>, i: nat)
    ensures
        match place_of(units, name, i) {
            Some(k) => i <= k < units.len() && units[k as int].0 == name,
            None => forall|k: int| i <= k < units.len() ==> (#[trigger] units[k]).0 != name,
        },
    decreases (if i < units.len() { units.len() - i } else { 0 }),
{
    if i < units.len() && units[i as int].0 != name {
        lemma_place(units, name, i + 1);
    }
}

/// Whether the contract is asked for: all are where no names are given.
pub open spec fn involved(names: Option<Seq<Seq<char>>>, name: Seq<char>) -> bool {
    match names {
        Some(n) => n.contains(name),
        None => true,
    }
}

/// The debug information of one contract.
pub open spec fn contract_unit(
    deployed: CompactBytecode,
    creation: CompactBytecode,
    path: Seq<char>,
    source: Seq<char>,
    node: Node,
) -> Result<UnitModel, UnitError> {
    match code_model(deployed) {
        Err(e) => Err(UnitError::Bytecode(e)),
        Ok(runtime_code) => match code_model(creation) {
            Err(e) => Err(UnitError::Bytecode(e)),
            Ok(creation_code) => match members_of(
                source,
                runtime_code,
                creation_code,
                node.src,
                node.nodes@,
                node.nodes@.len(),
                UnitModel {
                    name: Seq::empty(),
                    path,
                    functions: Seq::empty(),
                    variables: Seq::empty(),
                },
            ) {
                Err(e) => Err(UnitError::Visit(e)),
                Ok(unit) => Ok(unit),
            },
        },
    }
}

/// `units` with the contract that `node` defines, if it defines one that is asked for.
pub open spec fn with_node(
    artifact: Artifact,
    node: Node,
    names: Option<Seq<Seq<char>>>,
    units: Seq<(Seq<char>, UnitModel)>,
) -> Result<Seq<(Seq<char>, UnitModel)>, UnitError> {
    match artifact.deployed_bytecode {
        None => Ok(units),
        Some(d) => match (d.bytecode, artifact.bytecode) {
            (Some(deployed), Some(creation)) => if node.node_type != NodeType::ContractDefinition {
                Ok(units)
            } else {
                match node.name {
                    None => Err(UnitError::MissingName),
                    Some(name) => if !involved(names, name@) {
                        Ok(units)
                    } else {
                        match artifact.source {
                            None => Err(UnitError::MissingSource),
                            Some(source) => match contract_unit(
                                deployed,
                                creation,
                                artifact.path@,
                                source@,
                                node,
                            ) {
                                Err(e) => Err(e),
                                Ok(unit) => Ok(with_unit(units, name@, unit)),
                            },
                        }
                    },
                }
            },
            _ => Err(UnitError::MissingBytecode),
        },
    }
}

/// `units` with the contracts that the nodes from `i` on define.
pub open spec fn with_nodes(
    artifact: Artifact,
    nodes: Seq<Node>,
    i: nat,
    names: Option<Seq<Seq<char>>>,
    units: Seq<(Seq<char>, UnitModel)>,
) -> Result<Seq<(Seq<char>, UnitModel)>, UnitError>
    decreases (if i < nodes.len() { nodes.len() - i } else { 0 }),
{
    if i >= nodes.len() {
        Ok(units)
    } else {
        match with_node(artifact, nodes[i as int], names, units) {
            Err(e) => Err(e),
            Ok(u) => with_nodes(artifact, nodes, i + 1, names, u),
        }
    }
}

/// `units` with the contracts of the artifacts from `i` on. An artifact without a syntax tree
/// adds none.
pub open spec fn with_artifacts(
    artifacts: Seq<Artifact>,
    i: nat,
    names: Option<Seq<Seq<char>>>,
    units: Seq<(Seq<char>, UnitModel)>,
) -> Result<Seq<(Seq<char>, UnitModel)>, UnitError>
    decreases (if i < artifacts.len() { artifacts.len() - i } else { 0 }),
{
    if i >= artifacts.len() {
        Ok(units)
    } else {
        match artifacts[i as int].ast {
            None => with_artifacts(artifacts, i + 1, names, units),
            Some(ast) => match with_nodes(artifacts[i as int], ast.nodes@, 0, names, units) {
                Err(e) => Err(e),
                Ok(u) => with_artifacts(artifacts, i + 1, names, u),
            },
        }
    }
}

pub open spec fn names_model(names: Option<&Vec<String>>) -> Option<Seq<Seq<char>>> {
    match names {
        Some(n) => Some(texts(n@)),
        None => None,
    }
}

/// Whether an entry of the build directory holds artifacts: the directories do, but for the one
/// with notes on the build.
pub fn holds_artifacts(name: &str, is_dir: bool) -> (r: bool)
    ensures
        r == (is_dir && name@ != "build-info"@),
{
    is_dir && !same_text(name, "build-info")
}

/// Whether a file with this extension is an artifact.
pub fn is_artifact(extension: Option<&str>) -> (r: bool)
    ensures
        r == (extension is Some && extension->Some_0@ == "json"@),
{
    match extension {
        Some(e) => same_text(e, "json"),
        None => false,
    }
}

/// Finds the contract with this name.
pub fn find_unit<'a>(units: &'a Vec<(String, DebugUnit)>, name: &str) -> (r: Option<&'a DebugUnit>)
    ensures
        match unit_named(unit_models(units@), name@) {
            Some(unit) => r is Some && r->Some_0@ == unit,
            None => r is None,
        },
{
    let mut i: usize = 0;
    while i < units.len()
        invariant
            i <= units@.len(),
            place_of(unit_models(units@), name@, 0) == place_of(
                unit_models(units@),
                name@,
                i as nat,
            ),
        decreases units@.len() - i,
    {
        assert(unit_models(units@)[i as int] == (units@[i as int].0@, units@[i as int].1@));
        if same_text(units[i].0.as_str(), name) {
            return Some(&units[i].1);
        }
        i = i + 1;
    }
    None
}

/// Adds a contract under its name, in the place of one that had the name before.
pub fn insert_unit(units: &mut Vec<(String, DebugUnit)>, name: String, unit: DebugUnit)
    ensures
        unit_models(final(units)@) == with_unit(unit_models(old(units)@), name@, unit@),
{
    let ghost before = unit_models(units@);
    let mut i: usize = 0;
    while i < units.len()
        invariant
            i <= units@.len(),
            *units == *old(units),
            before == unit_models(units@),
            place_of(before, name@, 0) == place_of(before, name@, i as nat),
        decreases units@.len() - i,
    {
        assert(before[i as int] == (units@[i as int].0@, units@[i as int].1@));
        if same_text(units[i].0.as_str(), name.as_str()) {
            let ghost added = (name@, unit@);
            units.set(i, (name, unit));
            assert(unit_models(units@) =~= before.update(i as int, added));
            return ;
        }
        i = i + 1;
    }
    let ghost added = (name@, unit@);
    units.push((name, unit));
    assert(unit_models(units@) =~= before.push(added));
}

fn is_involved(names: Option<&Vec<String>>, name: &str) -> (r: bool)
    ensures
        r == involved(names_model(names), name@),
{
    match names {
        None => true,
        Some(list) => {
            let mut i: usize = 0;
            while i < list.len()
                invariant
                    i <= list@.len(),
                    names == Some(list),
                    forall|k: int| 0 <= k < i ==> #[trigger] list@[k]@ != name@,
                decreases list@.len() - i,
            {
                if same_text(list[i].as_str(), name) {
                    assert(texts(list@)[i as int] == name@);
                    return true;
                }
                i = i + 1;
            }
            assert(!texts(list@).contains(name@));
            false
        },
    }
}

fn add_node(
    artifact: &Artifact,
    node: &Node,
    names: Option<&Vec<String>>,
    units: &mut Vec<(String, DebugUnit)>,
) -> (r: Result<(), UnitError>)
    ensures
        match with_node(*artifact, *node, names_model(names), unit_models(old(units)@)) {
            Err(e) => r == Err::<(), UnitError>(e) && *final(units) == *old(units),
            Ok(u) => r is Ok && unit_models(final(units)@) == u,
        },
{
    let deployed: &CompactDeployedBytecode = match &artifact.deployed_bytecode {
        None => {
            return Ok(());
        },
        Some(d) => d,
    };
    match (&deployed.bytecode, &artifact.bytecode) {
        (Some(deployed_bytecode), Some(bytecode)) => {
            if node.node_type != NodeType::ContractDefinition {
                return Ok(());
            }
            match &node.name {
                None => Err(UnitError::MissingName),
                Some(name) => {
                    if !is_involved(names, name.as_str()) {
                        return Ok(());
                    }
                    match &artifact.source {
                        None => Err(UnitError::MissingSource),
                        Some(source) => {
                            let mut visitor = match StatementVisitor::new(
                                deployed_bytecode,
                                bytecode,
                                artifact.path.clone(),
                                source.clone(),
                            ) {
                                Ok(visitor) => visitor,
                                Err(e) => {
                                    return Err(UnitError::Bytecode(e));
                                },
                            };
                            match visitor.visit_contract(node) {
                                Ok(()) => {},
                                Err(e) => {
                                    return Err(UnitError::Visit(e));
                                },
                            }
                            insert_unit(units, name.clone(), visitor.into_debug_unit());
                            Ok(())
                        },
                    }
                },
            }
        },
        _ => Err(UnitError::MissingBytecode),
    }
}

/// Collects the debug information of the contracts in `artifacts` that are asked for, by name.
pub fn generate_debug_units(artifacts: &Vec<Artifact>, contracts_involved: Option<&Vec<String>>) -> (r:
    Result<Vec<(String, DebugUnit)>, UnitError>)
    ensures
        match with_artifacts(artifacts@, 0, names_model(contracts_involved), Seq::empty()) {
            Err(e) => r == Err::<Vec<(String, DebugUnit)>, UnitError>(e),
            Ok(u) => r is Ok && unit_models(r->Ok_0@) == u,
        },
{
    let ghost names = names_model(contracts_involved);
    let ghost goal = with_artifacts(artifacts@, 0, names, Seq::empty());
    let mut units: Vec<(String, DebugUnit)> = Vec::new();
    assert(unit_models(units@) =~= Seq::<(Seq<char>, UnitModel)>::empty());
    let mut i: usize = 0;
    while i < artifacts.len()
        invariant
            i <= artifacts@.len(),
            names == names_model(contracts_involved),
            goal == with_artifacts(artifacts@, 0, names, Seq::empty()),
            goal == with_artifacts(artifacts@, i as nat, names, unit_models(units@)),
        decreases artifacts@.len() - i,
    {
        let artifact = &artifacts[i];
        if let Some(ast) = &artifact.ast {
            let ghost here = with_nodes(*artifact, ast.nodes@, 0, names, unit_models(units@));
            let ghost start = unit_models(units@);
            let mut k: usize = 0;
            while k < ast.nodes.len()
                invariant
                    k <= ast.nodes@.len(),
                    i < artifacts@.len(),
                    *artifact == artifacts@[i as int],
                    artifact.ast == Some(*ast),
                    names == names_model(contracts_involved),
                    goal == with_artifacts(artifacts@, 0, names, Seq::empty()),
                    goal == with_artifacts(artifacts@, i as nat, names, start),
                    here == with_nodes(*artifact, ast.nodes@, 0, names, start),
                    here == with_nodes(
                        *artifact,
                        ast.nodes@,
                        k as nat,
                        names,
                        unit_models(units@),
                    ),
                decreases ast.nodes@.len() - k,
            {
                match add_node(artifact, &ast.nodes[k], contracts_involved, &mut units) {
                    Ok(()) => {},
                    Err(e) => {
                        return Err(e);
                    },
                }
                k = k + 1;
            }
        }
        i = i + 1;
    }
    Ok(units)
}

} // verus!

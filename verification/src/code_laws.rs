//! What holds of bytecode and the contracts that are described from it.

use vstd::prelude::*;

use crate::artifacts::{code_model, BytecodeError, BytecodeObject, CodeModel, CompactBytecode};
use crate::ast::{Node, NodeType};
use crate::debug_info::{FunctionModel, UnitModel};
use crate::ic_pc::{ic_to_pc, instruction_starts, starts_from};
use crate::source_map::parsed_source_map;
use crate::units::{contract_unit, with_node, Artifact};
use crate::visit_laws::{describes_function, law_functions_are_described};

verus! {

/// How many bytes behind an instruction belong to it: the instructions that push a number have it
/// behind them.
pub open spec fn pushed_bytes(op: u8) -> int {
    if 0x60 <= op <= 0x7f {
        op - 0x5f
    } else {
        0
    }
}

/// Whether the starts go on from each instruction to the one right behind it and what belongs to it,
/// until the code ends.
pub open spec fn follows_the_code(code: Seq<u8>, starts: Seq<nat>) -> bool {
    &&& forall|i: int| 0 <= i < starts.len() ==> #[trigger] starts[i] < code.len()
    &&& forall|i: int, j: int|
        0 <= i && j == i + 1 && j < starts.len() ==> #[trigger] starts[j] == #[trigger] starts[i] + 1
            + pushed_bytes(code[starts[i] as int])
}

proof fn lemma_starts(code: Seq<u8>, pc: nat, done: Seq<nat>)
    requires
        follows_the_code(code, done),
        done.len() == 0 ==> pc == 0,
        done.len() > 0 ==> done[0] == 0 && pc == done.last() + 1 + pushed_bytes(
            code[done.last() as int],
        ),
    ensures
        ({
            let starts = starts_from(code, pc, done);
            &&& follows_the_code(code, starts)
            &&& starts.len() > 0 <==> done.len() > 0 || code.len() > 0
            &&& starts.len() > 0 ==> starts[0] == 0 && starts.last() + 1 + pushed_bytes(
                code[starts.last() as int],
            ) >= code.len()
        }),
    decreases (if pc < code.len() { code.len() - pc } else { 0 }),
{
    if pc < code.len() {
        let longer = done.push(pc);
        assert(follows_the_code(code, longer)) by {
            assert forall|i: int, j: int|
                0 <= i && j == i + 1 && j < longer.len() implies #[trigger] longer[j]
                == #[trigger] longer[i] + 1 + pushed_bytes(code[longer[i] as int]) by {
                if j < done.len() {
                    assert(done[j] == done[i] + 1 + pushed_bytes(code[done[i] as int]));
                }
            }
        }
        lemma_starts(code, pc + 1 + pushed_bytes(code[pc as int]) as nat, longer);
    }
}

/// The instructions of a code stand one behind the other: the first at its start, and each behind the
/// one before it and the number that one pushes. None is left out, up to the end of the code.
pub proof fn law_instructions_follow_one_another(code: Seq<u8>)
    ensures
        ({
            let starts = instruction_starts(code);
            &&& follows_the_code(code, starts)
            &&& starts.len() == 0 <==> code.len() == 0
            &&& starts.len() > 0 ==> starts[0] == 0 && starts.last() + 1 + pushed_bytes(
                code[starts.last() as int],
            ) >= code.len()
        }),
{
    lemma_starts(code, 0, Seq::empty());
}

/// The program counter of an instruction is where it starts.
pub proof fn law_instructions_are_numbered(code: Seq<u8>, ic: usize)
    requires
        code.len() <= usize::MAX,
    ensures
        ({
            let starts = instruction_starts(code);
            &&& ic_to_pc(starts).dom().contains(ic) <==> ic < starts.len()
            &&& ic < starts.len() ==> ic_to_pc(starts)[ic] == starts[ic as int]
        }),
{
    law_instructions_follow_one_another(code);
    let starts = instruction_starts(code);
    if ic < starts.len() {
        assert(starts[ic as int] < code.len());
    }
}

/// A linked bytecode with a source map that can be read shows its source by that map, and its
/// instructions by where they start. Every other bytecode is refused for what it lacks: the map
/// first, then one that can be read, then the links.
pub proof fn law_code_shows_its_source(code: CompactBytecode)
    ensures
        code.source_map is None <==> code_model(code) == Err::<CodeModel, BytecodeError>(
            BytecodeError::MissingSourceMap,
        ),
        code.source_map matches Some(text) ==> {
            &&& parsed_source_map(text@) is None <==> code_model(code) == Err::<
                CodeModel,
                BytecodeError,
            >(BytecodeError::MalformedSourceMap)
            &&& parsed_source_map(text@) is Some && code.object is Unlinked <==> code_model(code)
                == Err::<CodeModel, BytecodeError>(BytecodeError::Unlinked)
            &&& parsed_source_map(text@) matches Some(map) ==> (
            code.object matches BytecodeObject::Bytecode(bytes) ==> (code_model(code) matches Ok(c)
                && c.map == map && forall|ic: usize|
                c.pcs.dom().contains(ic) <==> ic < instruction_starts(bytes@).len()))
        },
{
}

/// A contract is described from its deployed code, but for its constructor, which runs in the code
/// that creates it. Its debug information names the file of its artifact.
pub proof fn law_contracts_are_described_from_their_code(
    deployed: CompactBytecode,
    creation: CompactBytecode,
    path: Seq<char>,
    source: Seq<char>,
    node: Node,
    k: int,
) -> (f: FunctionModel)
    requires
        contract_unit(deployed, creation, path, source, node) is Ok,
        0 <= k < node.nodes@.len(),
        node.nodes@[k].node_type == NodeType::FunctionDefinition,
        forall|j: int|
            k < j < node.nodes@.len() && (#[trigger] node.nodes@[j]).node_type
                == NodeType::FunctionDefinition ==> node.nodes@[j].name is Some
                && node.nodes@[k].name is Some && node.nodes@[j].name->Some_0@
                != node.nodes@[k].name->Some_0@,
    ensures
        code_model(deployed) is Ok,
        code_model(creation) is Ok,
        contract_unit(deployed, creation, path, source, node)->Ok_0.functions.contains(f),
        describes_function(
            source,
            code_model(deployed)->Ok_0,
            code_model(creation)->Ok_0,
            node.src,
            node.nodes@[k],
            f,
        ),
{
    law_functions_are_described(
        source,
        code_model(deployed)->Ok_0,
        code_model(creation)->Ok_0,
        node.src,
        node.nodes@,
        node.nodes@.len(),
        UnitModel {
            name: Seq::empty(),
            path,
            functions: Seq::empty(),
            variables: Seq::empty(),
        },
        k,
    )
}

/// Whether the node defines a contract that is asked for.
pub open spec fn is_asked_for(node: Node, names: Option<Seq<Seq<char>>>) -> bool {
    node.node_type is ContractDefinition && (node.name is None || names is None
        || names->Some_0.contains(node.name->Some_0@))
}

/// A node of an artifact can be taken in exactly if the artifact has no deployed code at all, or has
/// both bytecodes and, where the node defines a contract that is asked for, its name, its source, and
/// code that describes it.
pub proof fn law_complete_artifacts_are_taken_in(
    artifact: Artifact,
    node: Node,
    names: Option<Seq<Seq<char>>>,
    units: Seq<(Seq<char>, UnitModel)>,
)
    ensures
        with_node(artifact, node, names, units) is Ok <==> (artifact.deployed_bytecode matches Some(d)
            ==> {
            &&& d.bytecode is Some
            &&& artifact.bytecode is Some
            &&& is_asked_for(node, names) ==> {
                &&& node.name is Some
                &&& artifact.source is Some
                &&& contract_unit(
                    d.bytecode->Some_0,
                    artifact.bytecode->Some_0,
                    artifact.path@,
                    artifact.source->Some_0@,
                    node,
                ) is Ok
            }
        }),
{
}

} // verus!

//! What the compiler puts out for a contract.

use vstd::prelude::*;
use vstd::slice::slice_to_vec;

use crate::ast::Ast;
use crate::ic_pc::{ic_to_pc, instruction_starts, IcPcMap};
use crate::source_map::{parse, parsed_source_map, SourceElement, SourceMap};

verus! {

/// A bytecode, with library addresses filled in or not.
#[derive(Debug, PartialEq)]
pub enum BytecodeObject {
    /// Fully linked bytecode object.
    Bytecode(Vec<u8>),
    /// Bytecode as hex string that is not fully linked yet and contains library placeholders.
    Unlinked(String),
}

/// A bytecode with the text of its source map.
#[derive(Debug, PartialEq)]
pub struct CompactBytecode {
    pub object: BytecodeObject,
    pub source_map: Option<String>,
}

/// What the compiler says of one contract and its source file.
#[derive(Debug, PartialEq)]
pub struct CompilerOutput {
    /// The creation bytecode
    pub bin: Vec<u8>,
    pub srcmap: String,
    /// The runtime bytecode
    pub bin_runtime: Vec<u8>,
    pub srcmap_runtime: String,
    pub ast: Ast,
}

/// What the compiler says of one contract.
#[derive(Debug, PartialEq)]
pub struct ContractOutput {
    /// The creation bytecode
    pub bin: Vec<u8>,
    /// The runtime bytecode
    pub bin_runtime: Vec<u8>,
    pub srcmap: String,
    pub srcmap_runtime: String,
}

/// What the compiler says of one source file.
#[derive(Debug, PartialEq)]
pub struct SourceOutput {
    pub ast: Ast,
}

/// Why a bytecode cannot be mapped to its source.
#[derive(Clone, Copy, Debug, PartialEq, Eq, Structural)]
pub enum BytecodeError {
    /// It comes without a source map.
    MissingSourceMap,
    /// The text of its source map is malformed.
    MalformedSourceMap,
    /// It is not fully linked.
    Unlinked,
}

/// The source range of each instruction, and the program counter of each instruction.
pub struct CodeModel {
    pub map: Seq<SourceElement>,
    pub pcs: Map<usize, usize>,
}

/// How the instructions of a bytecode map to its source.
pub open spec fn code_model(code: CompactBytecode) -> Result<CodeModel, BytecodeError> {
    match code.source_map {
        None => Err(BytecodeError::MissingSourceMap),
        Some(text) => mapped_code(code.object, parsed_source_map(text@)),
    }
}

/// How the instructions of an object map to its source, when its source map says `map`.
pub open spec fn mapped_code(object: BytecodeObject, map: Option<Seq<SourceElement>>) -> Result<
    CodeModel,
    BytecodeError,
> {
    match (map, object) {
        (None, _) => Err(BytecodeError::MalformedSourceMap),
        (Some(_), BytecodeObject::Unlinked(_)) => Err(BytecodeError::Unlinked),
        (Some(map), BytecodeObject::Bytecode(bytes)) => Ok(
            CodeModel { map, pcs: ic_to_pc(instruction_starts(bytes@)) },
        ),
    }
}

impl CompilerOutput {
    /// The output for one contract out of one source file.
    pub fn new(contract: ContractOutput, source: SourceOutput) -> (r: CompilerOutput)
        ensures
            r.bin == contract.bin,
            r.srcmap == contract.srcmap,
            r.bin_runtime == contract.bin_runtime,
            r.srcmap_runtime == contract.srcmap_runtime,
            r.ast == source.ast,
    {
        CompilerOutput {
            bin: contract.bin,
            srcmap: contract.srcmap,
            bin_runtime: contract.bin_runtime,
            srcmap_runtime: contract.srcmap_runtime,
            ast: source.ast,
        }
    }

    /// The creation bytecode with the runtime source map.
    pub fn compact_deployed_bytecode(&self) -> (r: CompactBytecode)
        ensures
            r.object is Bytecode,
            r.object->Bytecode_0@ == self.bin@,
            r.source_map is Some,
            r.source_map->Some_0@ == self.srcmap_runtime@,
    {
        CompactBytecode {
            object: BytecodeObject::Bytecode(slice_to_vec(self.bin.as_slice())),
            source_map: Some(self.srcmap_runtime.clone()),
        }
    }

    /// The runtime bytecode with the runtime source map.
    pub fn compact_bytecode(&self) -> (r: CompactBytecode)
        ensures
            r.object is Bytecode,
            r.object->Bytecode_0@ == self.bin_runtime@,
            r.source_map is Some,
            r.source_map->Some_0@ == self.srcmap_runtime@,
    {
        CompactBytecode {
            object: BytecodeObject::Bytecode(slice_to_vec(self.bin_runtime.as_slice())),
            source_map: Some(self.srcmap_runtime.clone()),
        }
    }

    /// The creation bytecode.
    pub fn bytecode(&self) -> (r: Vec<u8>)
        ensures
            r@ == self.bin@,
    {
        slice_to_vec(self.bin.as_slice())
    }
}

impl CompactBytecode {
    /// The source map, and the program counters of the instructions.
    pub fn code(&self) -> (r: Result<(SourceMap, IcPcMap), BytecodeError>)
        ensures
            match code_model(*self) {
                Ok(m) => r is Ok && r->Ok_0.0@ == m.map && r->Ok_0.1.inner@ == m.pcs,
                Err(e) => r == Err::<(SourceMap, IcPcMap), BytecodeError>(e),
            },
    {
        match &self.source_map {
            None => Err(BytecodeError::MissingSourceMap),
            Some(text) => self.object.mapped(parse(text.as_str())),
        }
    }
}

impl BytecodeObject {
    /// The source map that was read, with the program counters of the instructions.
    pub fn mapped(&self, map: Option<SourceMap>) -> (r: Result<(SourceMap, IcPcMap), BytecodeError>)
        ensures
            match mapped_code(
                *self,
                match map {
                    Some(elements) => Some(elements@),
                    None => None,
                },
            ) {
                Ok(m) => r is Ok && r->Ok_0.0@ == m.map && r->Ok_0.1.inner@ == m.pcs,
                Err(e) => r == Err::<(SourceMap, IcPcMap), BytecodeError>(e),
            },
    {
        let map: SourceMap = match map {
            Some(map) => map,
            None => {
                return Err(BytecodeError::MalformedSourceMap);
            },
        };
        match self {
            BytecodeObject::Unlinked(_) => Err(BytecodeError::Unlinked),
            BytecodeObject::Bytecode(bytes) => Ok((map, IcPcMap::new(bytes.as_slice()))),
        }
    }
}

} // verus!

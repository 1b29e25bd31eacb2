//! The variables that a syntax tree declares, with their types.

use std::collections::HashMap;
use vstd::prelude::*;
use vstd::string::StrSliceExecFns;

use crate::artifacts::{code_model, CodeModel, CompactBytecode};
use crate::ast::{
    all_of_type, pointed, variables_of, visit_ast_nodes, visit_variables, Ast, Node, NodeType,
    TypeNode, TypeNodeType,
};
use crate::ic_pc::IcPcMap;
use crate::source_map::{first_match, SourceMap};
use crate::text::{begins_with, parse_u16, same_text, small_number, starts_with};
use crate::visitor::first_pc;
use crate::types::{
    lemma_tuple_model, member_models, Type, TypeArray, TypeMapping, TypeModel, TypeTuple,
};

verus! {

broadcast use vstd::std_specs::hash::group_hash_axioms;

/// The type that an elementary type name stands for.
pub open spec fn elementary_type(name: Seq<char>) -> Option<TypeModel> {
    if begins_with(name, "bytes"@) && name.len() > 5 {
        match small_number(name.subrange(5, name.len() as int)) {
            Some(size) if 1 <= size <= 32 => Some(TypeModel::FixedBytes(size)),
            _ => None,
        }
    } else if begins_with(name, "int"@) {
        match small_number(name.subrange(3, name.len() as int)) {
            Some(bits) => Some(TypeModel::Int(Some(bits))),
            None => None,
        }
    } else if begins_with(name, "uint"@) {
        match small_number(name.subrange(4, name.len() as int)) {
            Some(bits) => Some(TypeModel::Uint(Some(bits))),
            None => None,
        }
    } else if name == "address"@ {
        Some(TypeModel::Address)
    } else if name == "bool"@ {
        Some(TypeModel::Bool)
    } else if name == "bytes"@ {
        Some(TypeModel::Bytes)
    } else if name == "string"@ {
        Some(TypeModel::String)
    } else {
        None
    }
}

/// Where the last of the first `n` definitions with the given id stands.
pub open spec fn definition_at(structs: Seq<Node>, id: usize, n: nat) -> Option<nat>
    decreases n,
{
    if n == 0 || n > structs.len() {
        None
    } else if structs[n - 1].id == Some(id) {
        Some((n - 1) as nat)
    } else {
        definition_at(structs, id, (n - 1) as nat)
    }
}

/// The type that a type name stands for, where structs are nested at most `depth` deep.
pub open spec fn declared_type(typ: TypeNode, structs: Seq<Node>, depth: nat) -> Option<TypeModel>
    decreases depth, 0nat, typ, 0nat,
{
    match typ.node_type {
        TypeNodeType::UserDefinedTypeName => match typ.referenced_declaration {
            Some(id) => match definition_at(structs, id, structs.len()) {
                Some(at) => if depth == 0 {
                    None
                } else {
                    struct_type(structs, at, (depth - 1) as nat)
                },
                None => None,
            },
            None => None,
        },
        TypeNodeType::ElementaryTypeName => match typ.name {
            Some(name) => elementary_type(name@),
            None => None,
        },
        TypeNodeType::Mapping => match (typ.key_type, typ.value_type) {
            (Some(key), Some(value)) => match (
                declared_type(*key, structs, depth),
                declared_type(*value, structs, depth),
            ) {
                (Some(key), Some(value)) => Some(
                    TypeModel::Mapping(Box::new(key), Box::new(value)),
                ),
                _ => None,
            },
            _ => None,
        },
        TypeNodeType::ArrayTypeName => match typ.base_type {
            Some(base) => match (declared_type(*base, structs, depth), array_size(typ)) {
                (Some(ty), Some(size)) => Some(TypeModel::Array(Box::new(ty), size)),
                _ => None,
            },
            None => None,
        },
        TypeNodeType::Literal => None,
    }
}

/// The type of the struct whose definition stands at `at`.
pub open spec fn struct_type(structs: Seq<Node>, at: nat, depth: nat) -> Option<TypeModel>
    decreases depth, 3nat, structs, 0nat,
{
    match structs[at as int].members {
        Some(members) => match member_types(members@, members@.len(), structs, depth) {
            Some(types) => Some(TypeModel::Tuple(types)),
            None => None,
        },
        None => None,
    }
}

/// The names and types of the first `n` members.
pub open spec fn member_types(members: Seq<Node>, n: nat, structs: Seq<Node>, depth: nat) -> Option<
    Seq<(Seq<char>, TypeModel)>,
>
    decreases depth, 2nat, members, n,
{
    if n == 0 || n > members.len() {
        Some(Seq::empty())
    } else {
        match (
            member_types(members, (n - 1) as nat, structs, depth),
            named_type(members[n - 1], structs, depth),
        ) {
            (Some(before), Some(member)) => Some(before.push(member)),
            _ => None,
        }
    }
}

/// The name and the type that a variable is declared with.
pub open spec fn named_type(variable: Node, structs: Seq<Node>, depth: nat) -> Option<
    (Seq<char>, TypeModel),
>
    decreases depth, 1nat, variable, 0nat,
{
    match (variable.name, variable.declared_type) {
        (Some(name), Some(typ)) => match declared_type(typ, structs, depth) {
            Some(ty) => Some((name@, ty)),
            None => None,
        },
        _ => None,
    }
}

/// The size of an array type: none where it is dynamic, nothing where the length is malformed.
pub open spec fn array_size(typ: TypeNode) -> Option<Option<u16>> {
    match typ.length {
        None => Some(None),
        Some(length) => match length.value {
            Some(value) => match small_number(value@) {
                Some(size) => Some(Some(size)),
                None => None,
            },
            None => None,
        },
    }
}

/// Whether a type came out, and which.
pub open spec fn optional_type(r: Option<Type>) -> Option<TypeModel> {
    match r {
        Some(ty) => Some(ty@),
        None => None,
    }
}

fn parse_elementary(name: &str) -> (r: Option<Type>)
    ensures
        optional_type(r) == elementary_type(name@),
{
    proof {
        reveal_strlit("bytes");
        reveal_strlit("int");
        reveal_strlit("uint");
    }
    let len: usize = name.unicode_len();
    if starts_with(name, "bytes") && len > 5 {
        return match parse_u16(name.substring_char(5, len)) {
            Some(size) => if size >= 1 && size <= 32 {
                Some(Type::FixedBytes(size))
            } else {
                None
            },
            None => None,
        };
    }
    if starts_with(name, "int") {
        match parse_u16(name.substring_char(3, len)) {
            Some(bits) => Some(Type::Int(Some(bits))),
            None => None,
        }
    } else if starts_with(name, "uint") {
        match parse_u16(name.substring_char(4, len)) {
            Some(bits) => Some(Type::Uint(Some(bits))),
            None => None,
        }
    } else if same_text(name, "address") {
        Some(Type::Address)
    } else if same_text(name, "bool") {
        Some(Type::Bool)
    } else if same_text(name, "bytes") {
        Some(Type::Bytes)
    } else if same_text(name, "string") {
        Some(Type::String)
    } else {
        None
    }
}

fn find_definition(structs: &Vec<&Node>, id: usize) -> (r: Option<usize>)
    ensures
        match definition_at(pointed(structs@), id, structs@.len()) {
            Some(at) => r is Some && r->Some_0 == at && at < structs@.len(),
            None => r is None,
        },
{
    let mut n: usize = structs.len();
    while n > 0
        invariant
            n <= structs@.len(),
            definition_at(pointed(structs@), id, structs@.len()) == definition_at(
                pointed(structs@),
                id,
                n as nat,
            ),
        decreases n,
    {
        let found: bool = match structs[n - 1].id {
            Some(own) => own == id,
            None => false,
        };
        assert(pointed(structs@)[n - 1] == *structs@[n - 1]);
        if found {
            return Some(n - 1);
        }
        n = n - 1;
    }
    None
}

fn parse_type(typ: &TypeNode, structs: &Vec<&Node>, depth: usize) -> (r: Option<Type>)
    ensures
        optional_type(r) == declared_type(*typ, pointed(structs@), depth as nat),
    decreases depth, 0nat, typ, 0nat,
{
    assert(pointed(structs@).len() == structs@.len());
    match typ.node_type {
        TypeNodeType::UserDefinedTypeName => match typ.referenced_declaration {
            Some(id) => match find_definition(structs, id) {
                Some(at) => if depth == 0 {
                    None
                } else {
                    parse_struct(structs, at, depth - 1)
                },
                None => None,
            },
            None => None,
        },
        TypeNodeType::ElementaryTypeName => match &typ.name {
            Some(name) => parse_elementary(name.as_str()),
            None => None,
        },
        TypeNodeType::Mapping => match (&typ.key_type, &typ.value_type) {
            (Some(key), Some(value)) => {
                let key = parse_type(key, structs, depth);
                let value = parse_type(value, structs, depth);
                match (key, value) {
                    (Some(key), Some(value)) => Some(
                        Type::Mapping(TypeMapping { key: Box::new(key), value: Box::new(value) }),
                    ),
                    _ => None,
                }
            },
            _ => None,
        },
        TypeNodeType::ArrayTypeName => match &typ.base_type {
            Some(base) => {
                let ty = parse_type(base, structs, depth);
                let size: Option<Option<u16>> = match &typ.length {
                    None => Some(None),
                    Some(length) => match &length.value {
                        Some(value) => match parse_u16(value.as_str()) {
                            Some(size) => Some(Some(size)),
                            None => None,
                        },
                        None => None,
                    },
                };
                match (ty, size) {
                    (Some(ty), Some(size)) => Some(
                        Type::Array(TypeArray { ty: Box::new(ty), size }),
                    ),
                    _ => None,
                }
            },
            None => None,
        },
        TypeNodeType::Literal => None,
    }
}

fn parse_struct(structs: &Vec<&Node>, at: usize, depth: usize) -> (r: Option<Type>)
    requires
        at < structs@.len(),
    ensures
        optional_type(r) == struct_type(pointed(structs@), at as nat, depth as nat),
    decreases depth, 3nat, structs, 0nat,
{
    assert(pointed(structs@)[at as int] == *structs@[at as int]);
    match &structs[at].members {
        Some(members) => match parse_members(members, structs, depth) {
            Some(types) => {
                let tuple = TypeTuple { types };
                proof {
                    lemma_tuple_model(tuple);
                }
                Some(Type::Tuple(tuple))
            },
            None => None,
        },
        None => None,
    }
}

proof fn lemma_member_types_fail(members: Seq<Node>, n: nat, structs: Seq<Node>, depth: nat)
    requires
        0 < n <= members.len(),
        member_types(members, n, structs, depth) is None,
    ensures
        member_types(members, members.len(), structs, depth) is None,
    decreases members.len() - n,
{
    if n < members.len() {
        lemma_member_types_fail(members, n + 1, structs, depth);
    }
}

fn parse_members(members: &Vec<Node>, structs: &Vec<&Node>, depth: usize) -> (r: Option<
    Vec<(String, Type)>,
>)
    ensures
        match member_types(members@, members@.len(), pointed(structs@), depth as nat) {
            Some(types) => r is Some && member_models(r->Some_0@) == types,
            None => r is None,
        },
    decreases depth, 2nat, members, 0nat,
{
    let mut types: Vec<(String, Type)> = Vec::new();
    assert(member_models(types@) =~= Seq::<(Seq<char>, TypeModel)>::empty());
    let mut i: usize = 0;
    while i < members.len()
        invariant
            i <= members@.len(),
            member_types(members@, i as nat, pointed(structs@), depth as nat) == Some(
                member_models(types@),
            ),
        decreases members@.len() - i,
    {
        match parse_named(&members[i], structs, depth) {
            Some((name, ty)) => {
                let ghost before = member_models(types@);
                let ghost added = (name@, ty@);
                types.push((name, ty));
                assert(member_models(types@) =~= before.push(added));
            },
            None => {
                proof {
                    lemma_member_types_fail(
                        members@,
                        (i + 1) as nat,
                        pointed(structs@),
                        depth as nat,
                    );
                }
                return None;
            },
        }
        i = i + 1;
    }
    Some(types)
}

fn parse_named(variable: &Node, structs: &Vec<&Node>, depth: usize) -> (r: Option<(String, Type)>)
    ensures
        match named_type(*variable, pointed(structs@), depth as nat) {
            Some((name, ty)) => r is Some && r->Some_0.0@ == name && r->Some_0.1@ == ty,
            None => r is None,
        },
    decreases depth, 1nat, variable, 0nat,
{
    match (&variable.name, &variable.declared_type) {
        (Some(name), Some(typ)) => match parse_type(typ, structs, depth) {
            Some(ty) => Some((name.clone(), ty)),
            None => None,
        },
        _ => None,
    }
}

/// The type that a type name stands for. Nothing comes back where the name is unknown or
/// malformed, or where a struct holds itself.
pub fn parse_variable_declaration_type(typ: &TypeNode, structs: &Vec<&Node>) -> (r: Option<Type>)
    ensures
        optional_type(r) == declared_type(*typ, pointed(structs@), structs@.len()),
{
    parse_type(typ, structs, structs.len())
}

/// Those of the first `n` nodes that are of one type.
pub open spec fn of_type(nodes: Seq<Node>, n: nat, target: NodeType) -> Seq<Node>
    decreases n,
{
    if n == 0 || n > nodes.len() {
        Seq::empty()
    } else if nodes[n - 1].node_type == target {
        of_type(nodes, (n - 1) as nat, target).push(nodes[n - 1])
    } else {
        of_type(nodes, (n - 1) as nat, target)
    }
}

/// The children of one type of the first `n` nodes.
pub open spec fn children_of_type(nodes: Seq<Node>, n: nat, target: NodeType) -> Seq<Node>
    decreases n,
{
    if n == 0 || n > nodes.len() {
        Seq::empty()
    } else {
        children_of_type(nodes, (n - 1) as nat, target) + of_type(
            nodes[n - 1].nodes@,
            nodes[n - 1].nodes@.len(),
            target,
        )
    }
}

/// Whether each of the nodes has an id.
pub open spec fn ids_known(nodes: Seq<Node>) -> bool {
    forall|i: int| 0 <= i < nodes.len() ==> #[trigger] nodes[i].id is Some
}

/// The names and types of the state variables, in order.
pub open spec fn state_variables(ast: Ast) -> Option<Seq<(Seq<char>, TypeModel)>> {
    let structs = children_of_type(ast.nodes@, ast.nodes@.len(), NodeType::StructDefinition);
    let variables = children_of_type(ast.nodes@, ast.nodes@.len(), NodeType::VariableDeclaration);
    if ids_known(structs) {
        member_types(variables, variables.len(), structs, structs.len())
    } else {
        None
    }
}

fn collect_children<'a>(nodes: &'a Vec<Node>, target: NodeType) -> (r: Vec<&'a Node>)
    ensures
        pointed(r@) == children_of_type(nodes@, nodes@.len(), target),
{
    let mut found: Vec<&'a Node> = Vec::new();
    assert(pointed(found@) =~= Seq::<Node>::empty());
    let mut i: usize = 0;
    while i < nodes.len()
        invariant
            i <= nodes@.len(),
            pointed(found@) == children_of_type(nodes@, i as nat, target),
        decreases nodes@.len() - i,
    {
        let ghost before = pointed(found@);
        let children = &nodes[i].nodes;
        let mut j: usize = 0;
        assert(pointed(found@) =~= before + Seq::<Node>::empty());
        while j < children.len()
            invariant
                j <= children@.len(),
                pointed(found@) == before + of_type(children@, j as nat, target),
            decreases children@.len() - j,
        {
            let ghost so_far = of_type(children@, j as nat, target);
            if children[j].node_type == target {
                let ghost longer = pointed(found@).push(children@[j as int]);
                found.push(&children[j]);
                assert(pointed(found@) =~= longer);
                assert(longer =~= before + so_far.push(children@[j as int]));
            }
            j = j + 1;
        }
        i = i + 1;
    }
    found
}

fn have_ids(nodes: &Vec<&Node>) -> (r: bool)
    ensures
        r == ids_known(pointed(nodes@)),
{
    let mut i: usize = 0;
    while i < nodes.len()
        invariant
            i <= nodes@.len(),
            forall|j: int| 0 <= j < i ==> #[trigger] pointed(nodes@)[j].id is Some,
        decreases nodes@.len() - i,
    {
        assert(pointed(nodes@)[i as int] == *nodes@[i as int]);
        if nodes[i].id.is_none() {
            return false;
        }
        i = i + 1;
    }
    true
}

/// The names and types of the state variables of the contracts, in the order in which they are
/// declared. Nothing comes back where a type is unknown or malformed.
pub fn extract_state_variables(ast: &Ast) -> (r: Option<Vec<(String, Type)>>)
    ensures
        match state_variables(*ast) {
            Some(variables) => r is Some && member_models(r->Some_0@) == variables,
            None => r is None,
        },
{
    let structs = collect_children(&ast.nodes, NodeType::StructDefinition);
    if !have_ids(&structs) {
        return None;
    }
    let found = collect_children(&ast.nodes, NodeType::VariableDeclaration);
    let ghost declared = pointed(found@);
    let ghost defined = pointed(structs@);
    assert(defined.len() == structs@.len());
    let mut variables: Vec<(String, Type)> = Vec::new();
    assert(member_models(variables@) =~= Seq::<(Seq<char>, TypeModel)>::empty());
    let mut i: usize = 0;
    while i < found.len()
        invariant
            i <= found@.len(),
            declared == pointed(found@),
            defined == pointed(structs@),
            defined.len() == structs@.len(),
            state_variables(*ast) == member_types(declared, declared.len(), defined, defined.len()),
            member_types(declared, i as nat, defined, defined.len()) == Some(
                member_models(variables@),
            ),
        decreases found@.len() - i,
    {
        assert(declared[i as int] == *found@[i as int]);
        match parse_named(found[i], &structs, structs.len()) {
            Some((name, ty)) => {
                let ghost before = member_models(variables@);
                let ghost added = (name@, ty@);
                variables.push((name, ty));
                assert(member_models(variables@) =~= before.push(added));
            },
            None => {
                proof {
                    lemma_member_types_fail(declared, (i + 1) as nat, defined, defined.len());
                }
                return None;
            },
        }
        i = i + 1;
    }
    Some(variables)
}

/// Where a variable is kept.
#[derive(Clone, Copy, Debug, PartialEq, Eq, Structural)]
pub enum DataLocation {
    Storage,
    Memory,
    Stack,
}

/// A variable that is not part of a contract's state.
#[derive(Debug, PartialEq)]
pub struct LocatedVariable {
    pub name: String,
    pub typ: Type,
    pub location: DataLocation,
}

pub struct LocatedModel {
    pub name: Seq<char>,
    pub typ: TypeModel,
    pub location: DataLocation,
}

impl View for LocatedVariable {
    type V = LocatedModel;

    open spec fn view(&self) -> LocatedModel {
        LocatedModel { name: self.name@, typ: self.typ@, location: self.location }
    }
}

/// The location that a declaration names.
pub open spec fn data_location(variable: Node) -> Option<DataLocation> {
    match variable.storage_location {
        Some(text) => if text@ == "storage"@ {
            Some(DataLocation::Storage)
        } else if text@ == "memory"@ {
            Some(DataLocation::Memory)
        } else if text@ == "default"@ {
            Some(DataLocation::Stack)
        } else {
            None
        },
        None => None,
    }
}

/// A declared variable, with the program counter at which it is declared.
pub open spec fn located(variable: Node, structs: Seq<Node>, code: CodeModel) -> Option<
    (usize, LocatedModel),
> {
    match (
        first_pc(code, variable.src),
        named_type(variable, structs, structs.len()),
        data_location(variable),
    ) {
        (Some(pc), Some((name, typ)), Some(location)) => Some(
            (pc, LocatedModel { name, typ, location }),
        ),
        _ => None,
    }
}

/// The first `n` variables by their program counters; of two at one place the later counts.
pub open spec fn located_variables(
    variables: Seq<Node>,
    n: nat,
    structs: Seq<Node>,
    code: CodeModel,
) -> Option<Map<usize, LocatedModel>>
    decreases n,
{
    if n == 0 || n > variables.len() {
        Some(Map::empty())
    } else {
        match (
            located_variables(variables, (n - 1) as nat, structs, code),
            located(variables[n - 1], structs, code),
        ) {
            (Some(before), Some((pc, variable))) => Some(before.insert(pc, variable)),
            _ => None,
        }
    }
}

/// The variables that the tree declares, without parameters and the members of structs, by the
/// program counters of their declarations.
pub open spec fn non_state_variables(ast: Ast, bytecode: CompactBytecode) -> Option<
    Map<usize, LocatedModel>,
> {
    match code_model(bytecode) {
        Ok(code) => variables_in_code(ast, code),
        Err(_) => None,
    }
}

/// The variables that the tree declares, without parameters and the members of structs, by the
/// program counters of their declarations in `code`.
pub open spec fn variables_in_code(ast: Ast, code: CodeModel) -> Option<Map<usize, LocatedModel>> {
    let structs = all_of_type(ast.nodes@, ast.nodes@.len(), NodeType::StructDefinition);
    let variables = variables_of(ast);
    if ids_known(structs) {
        located_variables(variables, variables.len(), structs, code)
    } else {
        None
    }
}

proof fn lemma_located_fail(variables: Seq<Node>, n: nat, structs: Seq<Node>, code: CodeModel)
    requires
        0 < n <= variables.len(),
        located_variables(variables, n, structs, code) is None,
    ensures
        located_variables(variables, variables.len(), structs, code) is None,
    decreases variables.len() - n,
{
    if n < variables.len() {
        lemma_located_fail(variables, n + 1, structs, code);
    }
}

fn declaration_pc(variable: &Node, map: &SourceMap, pcs: &IcPcMap) -> (r: Option<usize>)
    ensures
        r == first_pc(CodeModel { map: map@, pcs: pcs.inner@ }, variable.src),
{
    let start: u32 = variable.src.start as u32;
    match variable.src.length {
        Some(length) => match first_match(map, start, length as u32) {
            Some(i) => pcs.get(i),
            None => None,
        },
        None => None,
    }
}

fn locate(variable: &Node, structs: &Vec<&Node>, map: &SourceMap, pcs: &IcPcMap) -> (r: Option<
    (usize, LocatedVariable),
>)
    ensures
        match located(*variable, pointed(structs@), CodeModel { map: map@, pcs: pcs.inner@ }) {
            Some((pc, v)) => r is Some && r->Some_0.0 == pc && r->Some_0.1@ == v,
            None => r is None,
        },
{
    assert(pointed(structs@).len() == structs@.len());
    let pc: usize = match declaration_pc(variable, map, pcs) {
        Some(pc) => pc,
        None => {
            return None;
        },
    };
    let (name, typ) = match parse_named(variable, structs, structs.len()) {
        Some(named) => named,
        None => {
            return None;
        },
    };
    let location = match &variable.storage_location {
        Some(text) => if same_text(text.as_str(), "storage") {
            DataLocation::Storage
        } else if same_text(text.as_str(), "memory") {
            DataLocation::Memory
        } else if same_text(text.as_str(), "default") {
            DataLocation::Stack
        } else {
            return None;
        },
        None => {
            return None;
        },
    };
    Some((pc, LocatedVariable { name, typ, location }))
}

/// Whether the values of the map say what the model says.
pub open spec fn shows(map: Map<usize, LocatedVariable>, model: Map<usize, LocatedModel>) -> bool {
    &&& map.dom() == model.dom()
    &&& forall|pc: usize| #[trigger] map.dom().contains(pc) ==> map[pc]@ == model[pc]
}

/// The variables that the tree declares, wherever they stand, by the program counters of their
/// declarations. Parameters and the members of structs are no variables of the code. Nothing comes
/// back where the bytecode does not show its source, where a type is unknown or malformed,
/// where a variable is kept elsewhere, or where no instruction belongs to a declaration.
pub fn extract_non_state_variables(ast: &Ast, bytecode: &CompactBytecode) -> (r: Option<
    HashMap<usize, LocatedVariable>,
>)
    ensures
        match non_state_variables(*ast, *bytecode) {
            Some(variables) => r is Some && shows(r->Some_0@, variables),
            None => r is None,
        },
{
    match bytecode.code() {
        Ok((map, pcs)) => locate_variables(ast, &map, &pcs),
        Err(_) => None,
    }
}

/// The variables that the tree declares, without parameters and the members of structs, by the
/// program counters of their declarations in the code with this source map and these program
/// counters. Nothing comes back where a type is unknown or malformed, where a variable is kept
/// elsewhere, or where no instruction belongs to a declaration.
pub fn locate_variables(ast: &Ast, map: &SourceMap, pcs: &IcPcMap) -> (r: Option<
    HashMap<usize, LocatedVariable>,
>)
    ensures
        match variables_in_code(*ast, CodeModel { map: map@, pcs: pcs.inner@ }) {
            Some(variables) => r is Some && shows(r->Some_0@, variables),
            None => r is None,
        },
{
    let structs = visit_ast_nodes(ast, NodeType::StructDefinition);
    if !have_ids(&structs) {
        return None;
    }
    let found = visit_variables(ast);
    let ghost declared = pointed(found@);
    let ghost defined = pointed(structs@);
    let ghost code = CodeModel { map: map@, pcs: pcs.inner@ };
    let mut variables: HashMap<usize, LocatedVariable> = HashMap::new();
    let ghost mut model: Map<usize, LocatedModel> = Map::empty();
    assert(variables@.dom() =~= model.dom());
    let mut i: usize = 0;
    while i < found.len()
        invariant
            i <= found@.len(),
            declared == pointed(found@),
            defined == pointed(structs@),
            code == (CodeModel { map: map@, pcs: pcs.inner@ }),
            variables_in_code(*ast, code) == located_variables(
                declared,
                declared.len(),
                defined,
                code,
            ),
            located_variables(declared, i as nat, defined, code) == Some(model),
            shows(variables@, model),
        decreases found@.len() - i,
    {
        assert(declared[i as int] == *found@[i as int]);
        match locate(found[i], &structs, map, pcs) {
            Some((pc, variable)) => {
                let ghost added = variable@;
                variables.insert(pc, variable);
                proof {
                    model = model.insert(pc, added);
                    assert(variables@.dom() =~= model.dom());
                }
            },
            None => {
                proof {
                    lemma_located_fail(declared, (i + 1) as nat, defined, code);
                }
                return None;
            },
        }
        i = i + 1;
    }
    Some(variables)
}

} // verus!

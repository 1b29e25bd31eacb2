//! What is found out about the variables that a syntax tree declares.

use vstd::prelude::*;

use crate::artifacts::CodeModel;
use crate::ast::{
    all_in, child_in, list_in, nodes_in, own, variables_of, Ast, Node, NodeType, TypeNode,
};
use crate::ast_laws::{as_list, list_of};
use crate::extraction::{
    children_of_type, declared_type, definition_at, elementary_type, located, located_variables,
    member_types, named_type, of_type, state_variables, struct_type, variables_in_code,
    DataLocation,
};
use crate::text::{begins_with, decimal, law_numbers_read_back};
use crate::types::TypeModel;
use crate::visit_laws::{belongs, law_nodes_are_found_by_their_range, stands_at};

verus! {

proof fn lemma_numeral_not_empty(n: nat)
    ensures
        decimal(n).len() > 0,
{
}

proof fn lemma_starts_otherwise(name: Seq<char>, start: Seq<char>)
    requires
        name.len() > 0,
        start.len() > 0,
        name[0] != start[0],
    ensures
        !begins_with(name, start),
{
    if begins_with(name, start) {
        assert(name.subrange(0, start.len() as int)[0] == start[0]);
    }
}

/// The number behind the name of an integer type is its width in bits, and the one behind the name of
/// a byte string its length, which is at least 1 and at most 32.
pub proof fn law_widths_are_read(n: u16)
    ensures
        elementary_type("uint"@ + decimal(n as nat)) == Some(TypeModel::Uint(Some(n))),
        elementary_type("int"@ + decimal(n as nat)) == Some(TypeModel::Int(Some(n))),
        1 <= n <= 32 ==> elementary_type("bytes"@ + decimal(n as nat)) == Some(
            TypeModel::FixedBytes(n),
        ),
        n == 0 || n > 32 ==> elementary_type("bytes"@ + decimal(n as nat)) is None,
{
    reveal_strlit("bytes");
    reveal_strlit("int");
    reveal_strlit("uint");
    let digits = decimal(n as nat);
    law_numbers_read_back(n);
    lemma_numeral_not_empty(n as nat);
    let unsigned = "uint"@ + digits;
    lemma_starts_otherwise(unsigned, "bytes"@);
    lemma_starts_otherwise(unsigned, "int"@);
    assert(unsigned.subrange(0, 4) =~= "uint"@);
    assert(unsigned.subrange(4, unsigned.len() as int) =~= digits);
    let signed = "int"@ + digits;
    lemma_starts_otherwise(signed, "bytes"@);
    assert(signed.subrange(0, 3) =~= "int"@);
    assert(signed.subrange(3, signed.len() as int) =~= digits);
    let bytes = "bytes"@ + digits;
    assert(bytes.subrange(0, 5) =~= "bytes"@);
    assert(bytes.subrange(5, bytes.len() as int) =~= digits);
}

/// The types whose names have no number behind them.
pub proof fn law_plain_names_are_read()
    ensures
        elementary_type("address"@) == Some(TypeModel::Address),
        elementary_type("bool"@) == Some(TypeModel::Bool),
        elementary_type("bytes"@) == Some(TypeModel::Bytes),
        elementary_type("string"@) == Some(TypeModel::String),
{
    reveal_strlit("bytes");
    reveal_strlit("int");
    reveal_strlit("uint");
    reveal_strlit("address");
    reveal_strlit("bool");
    reveal_strlit("string");
    lemma_starts_otherwise("address"@, "bytes"@);
    lemma_starts_otherwise("address"@, "int"@);
    lemma_starts_otherwise("address"@, "uint"@);
    lemma_starts_otherwise("bool"@, "int"@);
    lemma_starts_otherwise("bool"@, "uint"@);
    lemma_starts_otherwise("bytes"@, "int"@);
    lemma_starts_otherwise("bytes"@, "uint"@);
    lemma_starts_otherwise("string"@, "bytes"@);
    lemma_starts_otherwise("string"@, "int"@);
    lemma_starts_otherwise("string"@, "uint"@);
    assert("bool"@ != "address"@ && "bytes"@ != "address"@ && "string"@ != "address"@);
    assert("bytes"@ != "bool"@ && "string"@ != "bool"@ && "string"@ != "bytes"@) by {
        assert("bytes"@[1] == 'y' && "bool"@[1] == 'o' && "string"@[0] == 's');
    }
}

/// An array holds values of the type that its base has, and a mapping leads from values of the type
/// of its key to values of the type of its value: neither has a type where a part has none.
pub proof fn law_types_are_made_of_their_parts(typ: TypeNode, structs: Seq<Node>, depth: nat)
    ensures
        typ.node_type is ArrayTypeName && typ.base_type is Some && typ.length is None
            ==> match declared_type(*typ.base_type->Some_0, structs, depth) {
            Some(base) => declared_type(typ, structs, depth) matches Some(TypeModel::Array(of, size))
                && *of == base && size is None,
            None => declared_type(typ, structs, depth) is None,
        },
        typ.node_type is Mapping && typ.key_type is Some && typ.value_type is Some ==> match (
            declared_type(*typ.key_type->Some_0, structs, depth),
            declared_type(*typ.value_type->Some_0, structs, depth),
        ) {
            (Some(key), Some(value)) => declared_type(typ, structs, depth) matches Some(
                TypeModel::Mapping(from, to),
            ) && *from == key && *to == value,
            _ => declared_type(typ, structs, depth) is None,
        },
{
}

/// An array whose length is written as a number has that many elements.
pub proof fn law_array_lengths_are_read(typ: TypeNode, structs: Seq<Node>, depth: nat, n: u16)
    requires
        typ.node_type is ArrayTypeName,
        typ.base_type is Some,
        declared_type(*typ.base_type->Some_0, structs, depth) is Some,
        typ.length is Some,
        typ.length->Some_0.value is Some,
        typ.length->Some_0.value->Some_0@ == decimal(n as nat),
    ensures
        declared_type(typ, structs, depth) matches Some(TypeModel::Array(of, size)) && *of
            == declared_type(*typ.base_type->Some_0, structs, depth)->Some_0 && size == Some(n),
{
    law_numbers_read_back(n);
}

proof fn lemma_definition(structs: Seq<Node>, id: usize, n: nat, at: int)
    requires
        0 <= at < n <= structs.len(),
        structs[at].id == Some(id),
        forall|j: int| at < j < n ==> (#[trigger] structs[j]).id != Some(id),
    ensures
        definition_at(structs, id, n) == Some(at as nat),
    decreases n,
{
    if at < n - 1 {
        assert(structs[n - 1].id != Some(id));
        lemma_definition(structs, id, (n - 1) as nat, at);
    }
}

/// Whether the names and types are those of the declarations, one for one.
pub open spec fn declares(
    variables: Seq<Node>,
    structs: Seq<Node>,
    depth: nat,
    types: Seq<(Seq<char>, TypeModel)>,
) -> bool {
    &&& types.len() == variables.len()
    &&& forall|i: int|
        #![trigger types[i]]
        0 <= i < types.len() ==> {
            &&& variables[i].name is Some
            &&& types[i].0 == variables[i].name->Some_0@
            &&& variables[i].declared_type is Some
            &&& declared_type(variables[i].declared_type->Some_0, structs, depth) == Some(types[i].1)
        }
}

/// Whether a declaration has a name and a type.
pub open spec fn is_declared(variable: Node, structs: Seq<Node>, depth: nat) -> bool {
    &&& variable.name is Some
    &&& variable.declared_type is Some
    &&& declared_type(variable.declared_type->Some_0, structs, depth) is Some
}

proof fn lemma_members(variables: Seq<Node>, n: nat, structs: Seq<Node>, depth: nat)
    requires
        n <= variables.len(),
    ensures
        member_types(variables, n, structs, depth) is Some <==> forall|i: int|
            0 <= i < n ==> is_declared(#[trigger] variables[i], structs, depth),
        member_types(variables, n, structs, depth) matches Some(types) ==> declares(
            variables.take(n as int),
            structs,
            depth,
            types,
        ),
    decreases n,
{
    if n > 0 {
        lemma_members(variables, (n - 1) as nat, structs, depth);
        let last = variables[n - 1];
        assert(named_type(last, structs, depth) is Some <==> is_declared(last, structs, depth));
        assert(member_types(variables, n, structs, depth) is Some <==> member_types(
            variables,
            (n - 1) as nat,
            structs,
            depth,
        ) is Some && is_declared(last, structs, depth));
        if member_types(variables, n, structs, depth) is Some {
            let before = member_types(variables, (n - 1) as nat, structs, depth)->Some_0;
            let types = member_types(variables, n, structs, depth)->Some_0;
            let first = variables.take(n - 1);
            let all = variables.take(n as int);
            assert forall|i: int|
                #![trigger types[i]]
                0 <= i < types.len() implies all[i].name is Some && types[i].0
                == all[i].name->Some_0@ && all[i].declared_type is Some && declared_type(
                all[i].declared_type->Some_0,
                structs,
                depth,
            ) == Some(types[i].1) by {
                if i < n - 1 {
                    assert(types[i] == before[i]);
                    assert(first[i] == all[i]);
                } else {
                    assert(types[i] == named_type(last, structs, depth)->Some_0);
                }
            }
        }
    }
}

/// A name of a struct stands for the members of the struct with that id, with their names and types,
/// in their order. It has no type where a member has none.
pub proof fn law_structs_have_their_members(
    typ: TypeNode,
    structs: Seq<Node>,
    depth: nat,
    at: int,
)
    requires
        depth > 0,
        typ.node_type is UserDefinedTypeName,
        typ.referenced_declaration is Some,
        0 <= at < structs.len(),
        structs[at].id == typ.referenced_declaration,
        forall|j: int|
            at < j < structs.len() ==> (#[trigger] structs[j]).id != typ.referenced_declaration,
        structs[at].members is Some,
    ensures
        ({
            let members = structs[at].members->Some_0@;
            let inner = (depth - 1) as nat;
            &&& declared_type(typ, structs, depth) is Some <==> forall|i: int|
                0 <= i < members.len() ==> is_declared(#[trigger] members[i], structs, inner)
            &&& declared_type(typ, structs, depth) matches Some(ty) ==> (ty matches TypeModel::Tuple(
                types,
            ) && declares(members, structs, inner, types))
        }),
{
    let id = typ.referenced_declaration->Some_0;
    let members = structs[at].members->Some_0@;
    lemma_definition(structs, id, structs.len(), at);
    lemma_members(members, members.len(), structs, (depth - 1) as nat);
    assert(declared_type(typ, structs, depth) == struct_type(
        structs,
        at as nat,
        (depth - 1) as nat,
    ));
    assert(members.take(members.len() as int) =~= members);
}

/// A name that stands for no struct of the tree has no type.
pub proof fn law_unknown_names_have_no_type(typ: TypeNode, structs: Seq<Node>, depth: nat)
    requires
        typ.node_type is UserDefinedTypeName,
        typ.referenced_declaration is None || forall|j: int|
            0 <= j < structs.len() ==> (#[trigger] structs[j]).id != typ.referenced_declaration,
    ensures
        declared_type(typ, structs, depth) is None,
{
    if let Some(id) = typ.referenced_declaration {
        lemma_no_definition(structs, id, structs.len());
    }
}

proof fn lemma_no_definition(structs: Seq<Node>, id: usize, n: nat)
    requires
        n <= structs.len(),
        forall|j: int| 0 <= j < structs.len() ==> (#[trigger] structs[j]).id != Some(id),
    ensures
        definition_at(structs, id, n) is None,
    decreases n,
{
    if n > 0 {
        assert(structs[n - 1].id != Some(id));
        lemma_no_definition(structs, id, (n - 1) as nat);
    }
}

/// The children of a node that are of one type.
pub open spec fn inside(node: Node, target: NodeType) -> Seq<Node> {
    node.nodes@.filter(|child: Node| child.node_type == target)
}

/// The children of the nodes at the top of a tree that are of one type, in order.
pub open spec fn below_top(ast: Ast, target: NodeType) -> Seq<Node> {
    ast.nodes@.map_values(|node: Node| inside(node, target)).flatten()
}

proof fn lemma_of_type(nodes: Seq<Node>, n: nat, target: NodeType)
    requires
        n <= nodes.len(),
    ensures
        of_type(nodes, n, target) == nodes.take(n as int).filter(
            |child: Node| child.node_type == target,
        ),
    decreases n,
{
    reveal(Seq::filter);
    if n > 0 {
        lemma_of_type(nodes, (n - 1) as nat, target);
        assert(nodes.take(n as int).drop_last() =~= nodes.take(n - 1));
        assert(nodes.take(n as int).last() == nodes[n - 1]);
    }
}

proof fn lemma_children(nodes: Seq<Node>, n: nat, target: NodeType)
    requires
        n <= nodes.len(),
    ensures
        children_of_type(nodes, n, target) == nodes.take(n as int).map_values(
            |node: Node| inside(node, target),
        ).flatten(),
    decreases n,
{
    let f = |node: Node| inside(node, target);
    let lists = nodes.take(n as int).map_values(f);
    if n > 0 {
        let children = nodes[n - 1].nodes@;
        lemma_children(nodes, (n - 1) as nat, target);
        lemma_of_type(children, children.len(), target);
        assert(children.take(children.len() as int) =~= children);
        assert(lists.drop_last() =~= nodes.take(n - 1).map_values(f));
        assert(lists.last() == inside(nodes[n - 1], target));
        lists.lemma_flatten_and_flatten_alt_are_equivalent();
        lists.drop_last().lemma_flatten_and_flatten_alt_are_equivalent();
    } else {
        assert(lists =~= Seq::empty());
    }
}

/// The state variables of a tree are the variables that its contracts declare themselves, with their
/// names and types, in their order. None come back where one has no type, or where a struct has no
/// id.
pub proof fn law_state_variables_are_found(ast: Ast)
    ensures
        ({
            let variables = below_top(ast, NodeType::VariableDeclaration);
            let structs = below_top(ast, NodeType::StructDefinition);
            &&& state_variables(ast) is Some <==> {
                &&& forall|i: int| 0 <= i < structs.len() ==> (#[trigger] structs[i]).id is Some
                &&& forall|i: int|
                    0 <= i < variables.len() ==> is_declared(
                        #[trigger] variables[i],
                        structs,
                        structs.len(),
                    )
            }
            &&& state_variables(ast) matches Some(types) ==> declares(
                variables,
                structs,
                structs.len(),
                types,
            )
        }),
{
    let variables = below_top(ast, NodeType::VariableDeclaration);
    let structs = below_top(ast, NodeType::StructDefinition);
    assert(ast.nodes@.take(ast.nodes@.len() as int) =~= ast.nodes@);
    lemma_children(ast.nodes@, ast.nodes@.len(), NodeType::VariableDeclaration);
    lemma_children(ast.nodes@, ast.nodes@.len(), NodeType::StructDefinition);
    lemma_members(variables, variables.len(), structs, structs.len());
    assert(variables.take(variables.len() as int) =~= variables);
}

/// Where a declaration says that its variable is kept.
pub open spec fn kept_in(variable: Node, location: DataLocation) -> bool {
    variable.storage_location matches Some(word) && match location {
        DataLocation::Storage => word@ == "storage"@,
        DataLocation::Memory => word@ == "memory"@,
        DataLocation::Stack => word@ == "default"@,
    }
}

/// A declaration with a name, a type, a known location and code of its own is located at the first of
/// the instructions that belong to it.
pub proof fn law_declarations_are_located(
    variable: Node,
    structs: Seq<Node>,
    code: CodeModel,
    i: int,
    location: DataLocation,
)
    requires
        is_declared(variable, structs, structs.len()),
        kept_in(variable, location),
        belongs(code, i, variable.src),
        forall|j: int| 0 <= j < i ==> !#[trigger] belongs(code, j, variable.src),
        code.pcs.dom().contains(i as usize),
    ensures
        located(variable, structs, code) matches Some((pc, v)) && stands_at(code, i, Some(pc))
            && v.name == variable.name->Some_0@ && Some(v.typ) == declared_type(
            variable.declared_type->Some_0,
            structs,
            structs.len(),
        ) && v.location == location,
{
    reveal_strlit("storage");
    reveal_strlit("memory");
    reveal_strlit("default");
    assert("storage"@ != "memory"@ && "default"@ != "memory"@) by {
        assert("storage"@.len() == 7 && "memory"@.len() == 6 && "default"@.len() == 7);
    }
    assert("storage"@ != "default"@) by {
        assert("storage"@[0] == 's' && "default"@[0] == 'd');
    }
    law_nodes_are_found_by_their_range(code, variable.src, i);
}

/// A declaration whose variable is kept nowhere known is not located.
pub proof fn law_other_locations_are_refused(variable: Node, structs: Seq<Node>, code: CodeModel)
    requires
        forall|location: DataLocation| !#[trigger] kept_in(variable, location),
    ensures
        located(variable, structs, code) is None,
{
    assert(!kept_in(variable, DataLocation::Storage));
    assert(!kept_in(variable, DataLocation::Memory));
    assert(!kept_in(variable, DataLocation::Stack));
}

proof fn lemma_located(variables: Seq<Node>, n: nat, structs: Seq<Node>, code: CodeModel)
    requires
        n <= variables.len(),
    ensures
        located_variables(variables, n, structs, code) is Some <==> forall|k: int|
            0 <= k < n ==> located(#[trigger] variables[k], structs, code) is Some,
        located_variables(variables, n, structs, code) matches Some(map) ==> {
            &&& forall|k: int|
                0 <= k < n ==> map.dom().contains(
                    located(#[trigger] variables[k], structs, code)->Some_0.0,
                )
            &&& forall|k: int|
                0 <= k < n && (forall|j: int|
                    k < j < n ==> located(#[trigger] variables[j], structs, code)->Some_0.0
                        != located(variables[k], structs, code)->Some_0.0) ==> map[located(
                    #[trigger] variables[k],
                    structs,
                    code,
                )->Some_0.0] == located(variables[k], structs, code)->Some_0.1
            &&& forall|pc: usize| #[trigger]
                map.dom().contains(pc) ==> exists|k: int|
                    0 <= k < n && located(#[trigger] variables[k], structs, code)->Some_0.0 == pc
        },
    decreases n,
{
    if n > 0 {
        lemma_located(variables, (n - 1) as nat, structs, code);
        let last = located(variables[n - 1], structs, code);
        assert(located_variables(variables, n, structs, code) is Some <==> located_variables(
            variables,
            (n - 1) as nat,
            structs,
            code,
        ) is Some && last is Some);
        if located_variables(variables, n, structs, code) is Some {
            let before = located_variables(variables, (n - 1) as nat, structs, code)->Some_0;
            let map = located_variables(variables, n, structs, code)->Some_0;
            assert(map == before.insert(last->Some_0.0, last->Some_0.1));
            assert forall|k: int|
                0 <= k < n && (forall|j: int|
                    k < j < n ==> located(#[trigger] variables[j], structs, code)->Some_0.0
                        != located(variables[k], structs, code)->Some_0.0) implies map[located(
                #[trigger] variables[k],
                structs,
                code,
            )->Some_0.0] == located(variables[k], structs, code)->Some_0.1 by {
                if k < n - 1 {
                    assert(located(variables[n - 1], structs, code)->Some_0.0 != located(
                        variables[k],
                        structs,
                        code,
                    )->Some_0.0);
                }
            }
            assert forall|pc: usize| #[trigger] map.dom().contains(pc) implies exists|k: int|
                0 <= k < n && located(#[trigger] variables[k], structs, code)->Some_0.0 == pc by {
                if pc == last->Some_0.0 {
                    assert(located(variables[n - 1], structs, code)->Some_0.0 == pc);
                } else {
                    assert(before.dom().contains(pc));
                }
            }
        }
    }
}

/// Every variable that the tree declares is found at the program counter of its declaration; of two
/// at one place the later one. Nothing else is found, and nothing at all where one cannot be located
/// or where a struct has no id.
pub proof fn law_declared_variables_are_found(ast: Ast, code: CodeModel)
    ensures
        ({
            let variables = variables_of(ast);
            let structs = all_in(ast.nodes@, ast.nodes@.len(), NodeType::StructDefinition, true);
            &&& variables_in_code(ast, code) is Some <==> {
                &&& forall|k: int| 0 <= k < structs.len() ==> (#[trigger] structs[k]).id is Some
                &&& forall|k: int|
                    0 <= k < variables.len() ==> located(#[trigger] variables[k], structs, code) is Some
            }
            &&& variables_in_code(ast, code) matches Some(map) ==> {
                &&& forall|k: int|
                    0 <= k < variables.len() ==> map.dom().contains(
                        located(#[trigger] variables[k], structs, code)->Some_0.0,
                    )
                &&& forall|k: int|
                    0 <= k < variables.len() && (forall|j: int|
                        k < j < variables.len() ==> located(
                            #[trigger] variables[j],
                            structs,
                            code,
                        )->Some_0.0 != located(variables[k], structs, code)->Some_0.0)
                        ==> map[located(#[trigger] variables[k], structs, code)->Some_0.0]
                        == located(variables[k], structs, code)->Some_0.1
                &&& forall|pc: usize| #[trigger]
                    map.dom().contains(pc) ==> exists|k: int|
                        0 <= k < variables.len() && located(
                            #[trigger] variables[k],
                            structs,
                            code,
                        )->Some_0.0 == pc
            }
        }),
{
    let variables = variables_of(ast);
    let structs = all_in(ast.nodes@, ast.nodes@.len(), NodeType::StructDefinition, true);
    lemma_located(variables, variables.len(), structs, code);
}

/// Whether the child stands in the node, but not as a parameter or as a member of a struct.
pub open spec fn is_part(node: Node, child: Node) -> bool {
    ||| node.nodes@.contains(child)
    ||| as_list(node.body).contains(child)
    ||| list_of(node.declarations).contains(child)
    ||| list_of(node.statements).contains(child)
    ||| as_list(node.expression).contains(child)
    ||| as_list(node.condition).contains(child)
    ||| as_list(node.true_body).contains(child)
    ||| as_list(node.false_body).contains(child)
    ||| as_list(node.initial_value).contains(child)
    ||| as_list(node.left_expression).contains(child)
    ||| as_list(node.right_expression).contains(child)
    ||| as_list(node.right_hand_side).contains(child)
    ||| as_list(node.sub_expression).contains(child)
    ||| list_of(node.arguments).contains(child)
    ||| node.others@.contains(child)
}

/// Whether the nodes lie in one another, each a part of the one before it.
pub open spec fn parts_in_turn(nodes: Seq<Node>) -> bool {
    &&& nodes.len() > 0
    &&& forall|i: int, j: int|
        0 <= i && j == i + 1 && j < nodes.len() ==> is_part(#[trigger] nodes[i], #[trigger] nodes[j])
}

proof fn lemma_either(a: Seq<Node>, b: Seq<Node>, d: Node) -> (r: Seq<Node>)
    ensures
        r == a + b,
        r.contains(d) <==> a.contains(d) || b.contains(d),
{
    let r = a + b;
    if a.contains(d) {
        let k = choose|k: int| 0 <= k < a.len() && a[k] == d;
        assert(r[k] == d);
    }
    if b.contains(d) {
        let k = choose|k: int| 0 <= k < b.len() && b[k] == d;
        assert(r[a.len() + k] == d);
    }
    if r.contains(d) {
        let k = choose|k: int| 0 <= k < r.len() && r[k] == d;
        if k < a.len() {
            assert(a[k] == d);
        } else {
            assert(b[k - a.len()] == d);
        }
    }
    r
}

/// Whether the node is found in one of the nodes.
spec fn found_below(nodes: Seq<Node>, target: NodeType, d: Node) -> bool {
    exists|c: Node| #[trigger] nodes.contains(c) && nodes_in(c, target, false).contains(d)
}

proof fn lemma_all(nodes: Seq<Node>, n: nat, target: NodeType, d: Node)
    requires
        n <= nodes.len(),
    ensures
        all_in(nodes, n, target, false).contains(d) <==> found_below(nodes.take(n as int), target, d),
    decreases n,
{
    let first = nodes.take(n as int);
    if n > 0 {
        let before = nodes.take(n - 1);
        let last = nodes[n - 1];
        lemma_all(nodes, (n - 1) as nat, target, d);
        lemma_either(
            all_in(nodes, (n - 1) as nat, target, false),
            nodes_in(last, target, false),
            d,
        );
        assert(first[n - 1] == last);
        if found_below(before, target, d) {
            let c = choose|c: Node| #[trigger] before.contains(c) && nodes_in(c, target, false).contains(d);
            let k = choose|k: int| 0 <= k < before.len() && before[k] == c;
            assert(first[k] == c);
            assert(first.contains(c));
        }
        if nodes_in(last, target, false).contains(d) {
            assert(first.contains(last));
        }
        if found_below(first, target, d) {
            let c = choose|c: Node| #[trigger] first.contains(c) && nodes_in(c, target, false).contains(d);
            let k = choose|k: int| 0 <= k < first.len() && first[k] == c;
            if k < n - 1 {
                assert(before[k] == c);
                assert(before.contains(c));
            }
        }
    }
}

proof fn lemma_list(list: Option<Vec<Node>>, target: NodeType, d: Node)
    ensures
        list_in(list, target, false).contains(d) <==> found_below(list_of(list), target, d),
{
    if let Some(l) = list {
        lemma_all(l@, l@.len(), target, d);
        assert(l@.take(l@.len() as int) =~= l@);
    }
}

proof fn lemma_child(child: Option<Box<Node>>, target: NodeType, d: Node)
    ensures
        child_in(child, target, false).contains(d) <==> found_below(as_list(child), target, d),
{
    if let Some(c) = child {
        let one = as_list(child);
        assert(one[0] == *c);
        assert(one.contains(*c));
    }
}

/// Whether the node is found in one of the parts.
spec fn found_in_part(node: Node, target: NodeType, d: Node) -> bool {
    exists|c: Node| #[trigger] is_part(node, c) && nodes_in(c, target, false).contains(d)
}

proof fn lemma_parts(node: Node, target: NodeType, d: Node)
    ensures
        nodes_in(node, target, false).contains(d) <==> own(node, target).contains(d)
            || found_in_part(node, target, d),
{
    let (t, w) = (target, false);
    lemma_all(node.nodes@, node.nodes@.len(), t, d);
    assert(node.nodes@.take(node.nodes@.len() as int) =~= node.nodes@);
    lemma_all(node.others@, node.others@.len(), t, d);
    assert(node.others@.take(node.others@.len() as int) =~= node.others@);
    lemma_child(node.body, t, d);
    lemma_list(node.declarations, t, d);
    lemma_list(node.statements, t, d);
    lemma_child(node.expression, t, d);
    lemma_child(node.condition, t, d);
    lemma_child(node.true_body, t, d);
    lemma_child(node.false_body, t, d);
    lemma_child(node.initial_value, t, d);
    lemma_child(node.left_expression, t, d);
    lemma_child(node.right_expression, t, d);
    lemma_child(node.right_hand_side, t, d);
    lemma_child(node.sub_expression, t, d);
    lemma_list(node.arguments, t, d);
    let r = lemma_either(own(node, t), all_in(node.nodes@, node.nodes@.len(), t, w), d);
    let r = lemma_either(r, child_in(node.body, t, w), d);
    let r = lemma_either(r, list_in(node.declarations, t, w), d);
    let r = lemma_either(r, list_in(node.statements, t, w), d);
    let r = lemma_either(r, child_in(node.expression, t, w), d);
    let r = lemma_either(r, child_in(node.condition, t, w), d);
    let r = lemma_either(r, child_in(node.true_body, t, w), d);
    let r = lemma_either(r, child_in(node.false_body, t, w), d);
    let r = lemma_either(r, child_in(node.initial_value, t, w), d);
    let r = lemma_either(r, child_in(node.left_expression, t, w), d);
    let r = lemma_either(r, child_in(node.right_expression, t, w), d);
    let r = lemma_either(r, child_in(node.right_hand_side, t, w), d);
    let r = lemma_either(r, child_in(node.sub_expression, t, w), d);
    let r = lemma_either(r, list_in(node.arguments, t, w), d);
    let r = lemma_either(r, all_in(node.others@, node.others@.len(), t, w), d);
    assert(r == nodes_in(node, t, w));
    if found_in_part(node, t, d) {
        let c = choose|c: Node| #[trigger] is_part(node, c) && nodes_in(c, t, false).contains(d);
        assert(is_part(node, c));
        lemma_reached(node, c, t, d);
    }
    if r.contains(d) && !own(node, t).contains(d) {
        lemma_comes_from(node, t, d);
    }
}

proof fn lemma_reached(node: Node, c: Node, t: NodeType, d: Node)
    requires
        is_part(node, c),
        nodes_in(c, t, false).contains(d),
    ensures
        some_list_has(node, t, d),
{
}

/// Whether the node is found in one of the lists of parts.
spec fn some_list_has(node: Node, t: NodeType, d: Node) -> bool {
    ||| found_below(node.nodes@, t, d)
    ||| found_below(as_list(node.body), t, d)
    ||| found_below(list_of(node.declarations), t, d)
    ||| found_below(list_of(node.statements), t, d)
    ||| found_below(as_list(node.expression), t, d)
    ||| found_below(as_list(node.condition), t, d)
    ||| found_below(as_list(node.true_body), t, d)
    ||| found_below(as_list(node.false_body), t, d)
    ||| found_below(as_list(node.initial_value), t, d)
    ||| found_below(as_list(node.left_expression), t, d)
    ||| found_below(as_list(node.right_expression), t, d)
    ||| found_below(as_list(node.right_hand_side), t, d)
    ||| found_below(as_list(node.sub_expression), t, d)
    ||| found_below(list_of(node.arguments), t, d)
    ||| found_below(node.others@, t, d)
}

proof fn lemma_comes_from(node: Node, t: NodeType, d: Node)
    requires
        some_list_has(node, t, d),
    ensures
        found_in_part(node, t, d),
{
    assert forall|nodes: Seq<Node>|
        #[trigger] found_below(nodes, t, d) && (forall|c: Node| nodes.contains(c) ==> #[trigger] is_part(
            node,
            c,
        )) implies found_in_part(node, t, d) by {
        let c = choose|c: Node| #[trigger] nodes.contains(c) && nodes_in(c, t, false).contains(d);
        assert(is_part(node, c));
    }
}

/// A variable that the tree declares outside of parameters and structs is found, however deep it
/// stands.
pub proof fn law_variables_are_visited(ast: Ast, nodes: Seq<Node>)
    requires
        parts_in_turn(nodes),
        ast.nodes@.contains(nodes[0]),
        nodes.last().node_type is VariableDeclaration,
    ensures
        variables_of(ast).contains(nodes.last()),
{
    let target = NodeType::VariableDeclaration;
    lemma_visited(nodes, target);
    lemma_all(ast.nodes@, ast.nodes@.len(), target, nodes.last());
    assert(ast.nodes@.take(ast.nodes@.len() as int) =~= ast.nodes@);
}

proof fn lemma_visited(nodes: Seq<Node>, target: NodeType)
    requires
        parts_in_turn(nodes),
        nodes.last().node_type == target,
    ensures
        nodes_in(nodes[0], target, false).contains(nodes.last()),
    decreases nodes.len(),
{
    let d = nodes.last();
    lemma_parts(nodes[0], target, d);
    if nodes.len() > 1 {
        let rest = nodes.skip(1);
        assert(parts_in_turn(rest)) by {
            assert forall|i: int, j: int| 0 <= i && j == i + 1 && j < rest.len() implies is_part(
                #[trigger] rest[i],
                #[trigger] rest[j],
            ) by {
                assert(is_part(nodes[i + 1], nodes[j + 1]));
            }
        }
        assert(rest.last() == d);
        lemma_visited(rest, target);
        assert(is_part(nodes[0], nodes[1]));
    } else {
        assert(own(nodes[0], target)[0] == d);
    }
}

/// Whatever is found is a variable that the tree declares outside of parameters and structs.
pub proof fn law_only_variables_are_visited(ast: Ast, d: Node) -> (nodes: Seq<Node>)
    requires
        variables_of(ast).contains(d),
    ensures
        parts_in_turn(nodes),
        ast.nodes@.contains(nodes[0]),
        nodes.last() == d,
        d.node_type is VariableDeclaration,
{
    let target = NodeType::VariableDeclaration;
    lemma_all(ast.nodes@, ast.nodes@.len(), target, d);
    assert(ast.nodes@.take(ast.nodes@.len() as int) =~= ast.nodes@);
    let c = choose|c: Node| #[trigger] ast.nodes@.contains(c) && nodes_in(c, target, false).contains(d);
    lemma_way(c, target, d)
}

proof fn lemma_way(node: Node, target: NodeType, d: Node) -> (nodes: Seq<Node>)
    requires
        nodes_in(node, target, false).contains(d),
    ensures
        parts_in_turn(nodes),
        nodes[0] == node,
        nodes.last() == d,
        d.node_type == target,
    decreases node,
{
    lemma_parts(node, target, d);
    if own(node, target).contains(d) {
        assert(own(node, target)[0] == d);
        seq![node]
    } else {
        let c = choose|c: Node| #[trigger] is_part(node, c) && nodes_in(c, target, false).contains(d);
        lemma_part_is_smaller(node, c);
        let rest = lemma_way(c, target, d);
        let nodes = seq![node] + rest;
        assert forall|i: int, j: int| 0 <= i && j == i + 1 && j < nodes.len() implies is_part(
            #[trigger] nodes[i],
            #[trigger] nodes[j],
        ) by {
            if i > 0 {
                assert(is_part(rest[i - 1], rest[j - 1]));
            }
        }
        nodes
    }
}

proof fn lemma_part_is_smaller(node: Node, c: Node)
    requires
        is_part(node, c),
    ensures
        decreases_to!(node => c),
{
    lemma_in_vec(node, node.nodes, c);
    lemma_in_child(node, node.body, c);
    lemma_in_list(node, node.declarations, c);
    lemma_in_list(node, node.statements, c);
    lemma_in_child(node, node.expression, c);
    lemma_in_child(node, node.condition, c);
    lemma_in_child(node, node.true_body, c);
    lemma_in_child(node, node.false_body, c);
    lemma_in_child(node, node.initial_value, c);
    lemma_in_child(node, node.left_expression, c);
    lemma_in_child(node, node.right_expression, c);
    lemma_in_child(node, node.right_hand_side, c);
    lemma_in_child(node, node.sub_expression, c);
    lemma_in_list(node, node.arguments, c);
    lemma_in_vec(node, node.others, c);
}

proof fn lemma_in_child(node: Node, child: Option<Box<Node>>, c: Node)
    requires
        decreases_to!(node => child),
    ensures
        as_list(child).contains(c) ==> decreases_to!(node => c),
{
    if let Some(one) = child {
        assert(decreases_to!(child => *one));
    }
}

proof fn lemma_in_list(node: Node, list: Option<Vec<Node>>, c: Node)
    requires
        decreases_to!(node => list),
    ensures
        list_of(list).contains(c) ==> decreases_to!(node => c),
{
    if let Some(l) = list {
        assert(decreases_to!(list => l));
        lemma_in_vec(node, l, c);
    }
}

proof fn lemma_in_vec(node: Node, list: Vec<Node>, c: Node)
    requires
        decreases_to!(node => list),
    ensures
        list@.contains(c) ==> decreases_to!(node => c),
{
    assert(decreases_to!(list => list@));
    if list@.contains(c) {
        let k = choose|k: int| 0 <= k < list@.len() && list@[k] == c;
        assert(decreases_to!(list@ => list@[k]));
    }
}

} // verus!

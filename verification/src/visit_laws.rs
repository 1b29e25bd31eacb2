//! What the debug information of a contract holds of its syntax tree.

use vstd::prelude::*;

use crate::artifacts::CodeModel;
use crate::ast::{LowFidelitySourceLocation, Node, NodeType};
use crate::debug_info::{
    empty_block, lemma_position, position_of, with_function, BlockModel, FunctionModel, Instruction,
    InstructionKind, SourceLocation, UnitModel, VariableModel,
};
use crate::source_map::{
    first_after_return, first_match_from, last_match_below, last_return_below, Jump, SourceElement,
};
use crate::visitor::{
    block_of, bodies_of, calls_in, calls_in_all, entry_pc, exit_pc, first_pc, function_block,
    function_of, has_bodies, last_pc, located, member_of, members_of, scope_of, statement_of,
    statements_of, VisitError,
};

verus! {

/// Whether the instruction with the number `i` belongs to exactly this range.
pub open spec fn belongs(code: CodeModel, i: int, src: LowFidelitySourceLocation) -> bool {
    &&& 0 <= i < code.map.len()
    &&& code.map[i].offset == src.start as u32
    &&& src.length is Some
    &&& code.map[i].length == src.length->Some_0 as u32
}

/// Whether the instruction with the number `i` is at `pc`.
pub open spec fn stands_at(code: CodeModel, i: int, pc: Option<usize>) -> bool {
    pc == if code.pcs.dom().contains(i as usize) {
        Some(code.pcs[i as usize])
    } else {
        None
    }
}

proof fn lemma_first_match(map: Seq<SourceElement>, start: u32, length: u32, i: nat)
    ensures
        match first_match_from(map, start, length, i) {
            Some(k) => {
                &&& i <= k < map.len()
                &&& map[k as int].offset == start && map[k as int].length == length
                &&& forall|j: int|
                    i <= j < k ==> !((#[trigger] map[j]).offset == start && map[j].length == length)
            },
            None => forall|j: int|
                i <= j < map.len() ==> !((#[trigger] map[j]).offset == start && map[j].length
                    == length),
        },
    decreases (if i < map.len() { map.len() - i } else { 0 }),
{
    if i < map.len() && !(map[i as int].offset == start && map[i as int].length == length) {
        lemma_first_match(map, start, length, i + 1);
    }
}

proof fn lemma_last_match(map: Seq<SourceElement>, start: u32, length: u32, n: nat)
    requires
        n <= map.len(),
    ensures
        match last_match_below(map, start, length, n) {
            Some(k) => {
                &&& k < n
                &&& map[k as int].offset == start && map[k as int].length == length
                &&& forall|j: int|
                    k < j < n ==> !((#[trigger] map[j]).offset == start && map[j].length == length)
            },
            None => forall|j: int|
                0 <= j < n ==> !((#[trigger] map[j]).offset == start && map[j].length == length),
        },
    decreases n,
{
    if n > 0 && !(map[n - 1].offset == start && map[n - 1].length == length) {
        lemma_last_match(map, start, length, (n - 1) as nat);
    }
}

proof fn lemma_last_return(map: Seq<SourceElement>, start: u32, length: u32, n: nat)
    requires
        n <= map.len(),
    ensures
        match last_return_below(map, start, length, n) {
            Some(k) => {
                &&& k < n
                &&& map[k as int].offset == start && map[k as int].length == length
                    && map[k as int].jump == Jump::Out
                &&& forall|j: int|
                    k < j < n ==> !((#[trigger] map[j]).offset == start && map[j].length == length
                        && map[j].jump == Jump::Out)
            },
            None => forall|j: int|
                0 <= j < n ==> !((#[trigger] map[j]).offset == start && map[j].length == length
                    && map[j].jump == Jump::Out),
        },
    decreases n,
{
    if n > 0 && !(map[n - 1].offset == start && map[n - 1].length == length && map[n - 1].jump
        == Jump::Out) {
        lemma_last_return(map, start, length, (n - 1) as nat);
    }
}

spec fn entered_at(map: Seq<SourceElement>, start: u32, length: u32, j: int) -> bool {
    &&& 0 < j < map.len()
    &&& map[j].offset == start
    &&& map[j].length == length
    &&& map[j - 1].jump == Jump::Out
}

proof fn lemma_first_after(map: Seq<SourceElement>, start: u32, length: u32, i: nat)
    ensures
        match first_after_return(map, start, length, i) {
            Some(k) => {
                &&& i <= k < map.len()
                &&& entered_at(map, start, length, k as int)
                &&& forall|j: int| i <= j < k ==> !#[trigger] entered_at(map, start, length, j)
            },
            None => forall|j: int| i <= j ==> !#[trigger] entered_at(map, start, length, j),
        },
    decreases (if i < map.len() { map.len() - i } else { 0 }),
{
    if i < map.len() && !entered_at(map, start, length, i as int) {
        lemma_first_after(map, start, length, i + 1);
    }
}

/// A node is found at the first, or the last, of the instructions that belong to exactly its range.
pub proof fn law_nodes_are_found_by_their_range(code: CodeModel, src: LowFidelitySourceLocation, i: int)
    requires
        belongs(code, i, src),
    ensures
        (forall|j: int| 0 <= j < i ==> !#[trigger] belongs(code, j, src)) ==> stands_at(
            code,
            i,
            first_pc(code, src),
        ),
        (forall|j: int| i < j < code.map.len() ==> !#[trigger] belongs(code, j, src)) ==> stands_at(
            code,
            i,
            last_pc(code, src),
        ),
{
    let start = src.start as u32;
    let length = src.length->Some_0 as u32;
    lemma_first_match(code.map, start, length, 0);
    lemma_last_match(code.map, start, length, code.map.len());
    let first = first_match_from(code.map, start, length, 0)->Some_0 as int;
    let last = last_match_below(code.map, start, length, code.map.len())->Some_0 as int;
    assert(code.map[i].offset == start);
    assert(belongs(code, first, src));
    assert(belongs(code, last, src));
}

/// A node without an instruction of its own is not found.
pub proof fn law_nodes_without_code_are_not_found(code: CodeModel, src: LowFidelitySourceLocation)
    requires
        forall|j: int| !#[trigger] belongs(code, j, src),
    ensures
        first_pc(code, src) is None,
        last_pc(code, src) is None,
        entry_pc(code, src) is None,
{
    if let Some(l) = src.length {
        let start = src.start as u32;
        lemma_first_match(code.map, start, l as u32, 0);
        lemma_last_match(code.map, start, l as u32, code.map.len());
        lemma_first_after(code.map, start, l as u32, 0);
        if let Some(k) = first_match_from(code.map, start, l as u32, 0) {
            assert(belongs(code, k as int, src));
        }
        if let Some(k) = last_match_below(code.map, start, l as u32, code.map.len()) {
            assert(belongs(code, k as int, src));
        }
        if let Some(k) = first_after_return(code.map, start, l as u32, 0) {
            assert(belongs(code, k as int, src));
        }
    }
}

/// A function is entered at the first instruction of its range that stands right behind a return out
/// of another function, where there is one, and else at the first instruction of its range.
pub proof fn law_functions_are_entered_behind_a_return(
    code: CodeModel,
    src: LowFidelitySourceLocation,
    i: int,
)
    requires
        belongs(code, i, src),
    ensures
        i > 0 && code.map[i - 1].jump == Jump::Out && (forall|j: int|
            0 < j < i && #[trigger] belongs(code, j, src) ==> code.map[j - 1].jump != Jump::Out)
            ==> stands_at(code, i, entry_pc(code, src)),
        (forall|j: int|
            0 < j && #[trigger] belongs(code, j, src) ==> code.map[j - 1].jump != Jump::Out) ==> entry_pc(
            code,
            src,
        ) == first_pc(code, src),
{
    let start = src.start as u32;
    let length = src.length->Some_0 as u32;
    lemma_first_after(code.map, start, length, 0);
    if let Some(k) = first_after_return(code.map, start, length, 0) {
        assert(belongs(code, k as int, src));
        assert(i > 0 && code.map[i - 1].jump == Jump::Out ==> entered_at(
            code.map,
            start,
            length,
            i,
        ));
    } else {
        assert(!entered_at(code.map, start, length, i));
    }
}

/// A function is left at the last instruction of its range that returns; a constructor, at the last
/// instruction of the range that it is left at.
pub proof fn law_functions_are_left_at_their_last_return(
    code: CodeModel,
    src: LowFidelitySourceLocation,
    i: int,
)
    requires
        belongs(code, i, src),
    ensures
        code.map[i].jump == Jump::Out && (forall|j: int|
            i < j < code.map.len() && #[trigger] belongs(code, j, src) ==> code.map[j].jump
                != Jump::Out) ==> stands_at(code, i, exit_pc(code, src, false)),
        (forall|j: int| i < j < code.map.len() ==> !#[trigger] belongs(code, j, src)) ==> stands_at(
            code,
            i,
            exit_pc(code, src, true),
        ),
        (forall|j: int| #[trigger] belongs(code, j, src) ==> code.map[j].jump != Jump::Out)
            ==> exit_pc(code, src, false) is None,
{
    let start = src.start as u32;
    let length = src.length->Some_0 as u32;
    lemma_last_return(code.map, start, length, code.map.len());
    lemma_last_match(code.map, start, length, code.map.len());
    assert(code.map[i].offset == start);
    if let Some(k) = last_return_below(code.map, start, length, code.map.len()) {
        assert(belongs(code, k as int, src));
    }
    if let Some(k) = last_match_below(code.map, start, length, code.map.len()) {
        assert(belongs(code, k as int, src));
    }
}

/// Whether a node calls a function that the program declares: those of the language itself have
/// negative declarations.
pub open spec fn calls_declared(node: Node) -> bool {
    &&& node.node_type == NodeType::FunctionCall
    &&& !(node.expression is Some && node.expression->Some_0.referenced_declaration is Some
        && node.expression->Some_0.referenced_declaration->Some_0 < 0)
}

pub open spec fn one_child(child: Option<Box<Node>>) -> Seq<Node> {
    match child {
        Some(c) => seq![*c],
        None => Seq::empty(),
    }
}

/// The parts of an expression in which calls count: the arguments of a declared function, both sides
/// of an operation, what is assigned, and what a sign or a member stands at.
pub open spec fn operands_of(node: Node) -> Seq<Node> {
    match node.node_type {
        NodeType::FunctionCall => if calls_declared(node) && node.arguments is Some {
            node.arguments->Some_0@
        } else {
            Seq::empty()
        },
        NodeType::BinaryOperation => one_child(node.left_expression) + one_child(
            node.right_expression,
        ),
        NodeType::Assignment => one_child(node.right_hand_side),
        NodeType::UnaryOperation => one_child(node.sub_expression),
        NodeType::MemberAccess | NodeType::IndexAccess => one_child(node.expression),
        _ => Seq::empty(),
    }
}

/// The call instruction of a node itself, where it calls a declared function and has code.
pub open spec fn own_call(code: CodeModel, node: Node, location: SourceLocation) -> Seq<Instruction> {
    if calls_declared(node) && first_pc(code, node.src) is Some {
        seq![
            Instruction {
                pc: first_pc(code, node.src)->Some_0,
                location,
                kind: InstructionKind::FunctionCall,
            },
        ]
    } else {
        Seq::empty()
    }
}

/// The calls of an expression alone.
pub open spec fn calls_of(code: CodeModel, node: Node, location: SourceLocation) -> Seq<Instruction> {
    calls_in(code, node, location, Seq::empty())
}

proof fn lemma_calls_behind(
    code: CodeModel,
    node: Node,
    location: SourceLocation,
    done: Seq<Instruction>,
)
    ensures
        calls_in(code, node, location, done) == done + calls_in(code, node, location, Seq::empty()),
    decreases node, 0nat,
{
    let none = Seq::<Instruction>::empty();
    assert(done + none =~= done);
    match node.node_type {
        NodeType::FunctionCall => {
            let own = own_call(code, node, location);
            assert(done + own =~= match first_pc(code, node.src) {
                Some(pc) => if calls_declared(node) {
                    done.push(Instruction { pc, location, kind: InstructionKind::FunctionCall })
                } else {
                    done
                },
                None => done,
            });
            assert(none + own =~= own);
            if let Some(args) = node.arguments {
                if calls_declared(node) {
                    lemma_all_calls_behind(code, args@, args@.len(), location, done + own);
                    lemma_all_calls_behind(code, args@, args@.len(), location, none + own);
                    let rest = calls_in_all(code, args@, args@.len(), location, none);
                    assert((done + own) + rest =~= done + (own + rest));
                }
            }
        },
        NodeType::BinaryOperation => {
            let (a, b) = match node.left_expression {
                Some(left) => {
                    lemma_calls_behind(code, *left, location, done);
                    (
                        calls_in(code, *left, location, done),
                        calls_in(code, *left, location, none),
                    )
                },
                None => (done, none),
            };
            assert(a =~= done + b);
            if let Some(right) = node.right_expression {
                lemma_calls_behind(code, *right, location, a);
                lemma_calls_behind(code, *right, location, b);
                let rest = calls_in(code, *right, location, none);
                assert((done + b) + rest =~= done + (b + rest));
            }
        },
        NodeType::Assignment => {
            if let Some(right) = node.right_hand_side {
                lemma_calls_behind(code, *right, location, done);
            }
        },
        NodeType::UnaryOperation => {
            if let Some(sub) = node.sub_expression {
                lemma_calls_behind(code, *sub, location, done);
            }
        },
        NodeType::MemberAccess | NodeType::IndexAccess => {
            if let Some(expr) = node.expression {
                lemma_calls_behind(code, *expr, location, done);
            }
        },
        _ => {},
    }
}

proof fn lemma_all_calls_behind(
    code: CodeModel,
    nodes: Seq<Node>,
    n: nat,
    location: SourceLocation,
    done: Seq<Instruction>,
)
    ensures
        calls_in_all(code, nodes, n, location, done) == done + calls_in_all(
            code,
            nodes,
            n,
            location,
            Seq::empty(),
        ),
    decreases nodes, n,
{
    let none = Seq::<Instruction>::empty();
    assert(done + none =~= done);
    if n > 0 && n <= nodes.len() {
        let m = (n - 1) as nat;
        lemma_all_calls_behind(code, nodes, m, location, done);
        let a = calls_in_all(code, nodes, m, location, done);
        let b = calls_in_all(code, nodes, m, location, none);
        lemma_calls_behind(code, nodes[n - 1], location, a);
        lemma_calls_behind(code, nodes[n - 1], location, b);
        let rest = calls_in(code, nodes[n - 1], location, none);
        assert((done + b) + rest =~= done + (b + rest));
    }
}

/// The calls of all the expressions, one after the other.
pub open spec fn calls_of_all(code: CodeModel, nodes: Seq<Node>, location: SourceLocation) -> Seq<
    Instruction,
> {
    nodes.map_values(|n: Node| calls_of(code, n, location)).flatten()
}

proof fn lemma_calls_of_all(code: CodeModel, nodes: Seq<Node>, n: nat, location: SourceLocation)
    requires
        n <= nodes.len(),
    ensures
        calls_in_all(code, nodes, n, location, Seq::empty()) == calls_of_all(
            code,
            nodes.take(n as int),
            location,
        ),
    decreases n,
{
    let f = |x: Node| calls_of(code, x, location);
    if n > 0 {
        let m = (n - 1) as nat;
        lemma_calls_of_all(code, nodes, m, location);
        let lists = nodes.take(n as int).map_values(f);
        assert(lists.drop_last() =~= nodes.take(n - 1).map_values(f));
        assert(lists.last() == calls_of(code, nodes[n - 1], location));
        lists.lemma_flatten_and_flatten_alt_are_equivalent();
        lists.drop_last().lemma_flatten_and_flatten_alt_are_equivalent();
        lemma_calls_behind(
            code,
            nodes[n - 1],
            location,
            calls_in_all(code, nodes, m, location, Seq::empty()),
        );
    } else {
        assert(nodes.take(0).map_values(f) =~= Seq::empty());
    }
}

proof fn lemma_one_child(code: CodeModel, child: Option<Box<Node>>, location: SourceLocation)
    ensures
        calls_of_all(code, one_child(child), location) == match child {
            Some(c) => calls_of(code, *c, location),
            None => Seq::empty(),
        },
{
    let f = |x: Node| calls_of(code, x, location);
    let lists = one_child(child).map_values(f);
    match child {
        Some(c) => {
            lists.lemma_flatten_one_element();
            assert(lists.first() == calls_of(code, *c, location));
        },
        None => {
            assert(lists =~= Seq::empty());
        },
    }
}

proof fn lemma_two_children(code: CodeModel, a: Seq<Node>, b: Seq<Node>, location: SourceLocation)
    ensures
        calls_of_all(code, a + b, location) == calls_of_all(code, a, location) + calls_of_all(
            code,
            b,
            location,
        ),
    decreases a.len(),
{
    let f = |x: Node| calls_of(code, x, location);
    let none = Seq::<Instruction>::empty();
    if a.len() == 0 {
        assert(a + b =~= b);
        assert(none + calls_of_all(code, b, location) =~= calls_of_all(code, b, location));
    } else {
        let rest = a.drop_first();
        lemma_two_children(code, rest, b, location);
        let whole = (a + b).map_values(f);
        assert(whole.drop_first() =~= (rest + b).map_values(f));
        assert(whole.first() == f(a[0]));
        assert(a.map_values(f).drop_first() =~= rest.map_values(f));
        assert(f(a[0]) + (calls_of_all(code, rest, location) + calls_of_all(code, b, location))
            =~= (f(a[0]) + calls_of_all(code, rest, location)) + calls_of_all(code, b, location));
    }
}

/// The calls of an expression are its own, where it is a call of a declared function that has code,
/// and behind it the calls of its parts, in their order.
pub proof fn law_calls_are_those_of_the_parts(code: CodeModel, node: Node, location: SourceLocation)
    ensures
        calls_of(code, node, location) == own_call(code, node, location) + calls_of_all(
            code,
            operands_of(node),
            location,
        ),
{
    let none = Seq::<Instruction>::empty();
    let parts = calls_of_all(code, operands_of(node), location);
    let own = own_call(code, node, location);
    assert(calls_of_all(code, Seq::empty(), location) =~= none) by {
        assert(Seq::<Node>::empty().map_values(|x: Node| calls_of(code, x, location))
            =~= Seq::empty());
    }
    match node.node_type {
        NodeType::FunctionCall => {
            if calls_declared(node) {
                assert(none + own =~= own);
                if let Some(args) = node.arguments {
                    lemma_all_calls_behind(code, args@, args@.len(), location, own);
                    lemma_calls_of_all(code, args@, args@.len(), location);
                    assert(args@.take(args@.len() as int) =~= args@);
                    assert(calls_of(code, node, location) =~= calls_in_all(
                        code,
                        args@,
                        args@.len(),
                        location,
                        own,
                    ));
                } else {
                    assert(calls_of(code, node, location) =~= own + parts);
                }
            } else {
                assert(calls_of(code, node, location) =~= own + parts);
            }
        },
        NodeType::BinaryOperation => {
            lemma_one_child(code, node.left_expression, location);
            lemma_one_child(code, node.right_expression, location);
            lemma_two_children(
                code,
                one_child(node.left_expression),
                one_child(node.right_expression),
                location,
            );
            let left = match node.left_expression {
                Some(left) => calls_of(code, *left, location),
                None => none,
            };
            if let Some(right) = node.right_expression {
                lemma_calls_behind(code, *right, location, left);
            }
            assert(calls_of(code, node, location) =~= own + parts);
        },
        NodeType::Assignment => {
            lemma_one_child(code, node.right_hand_side, location);
            assert(calls_of(code, node, location) =~= own + parts);
        },
        NodeType::UnaryOperation => {
            lemma_one_child(code, node.sub_expression, location);
            assert(calls_of(code, node, location) =~= own + parts);
        },
        NodeType::MemberAccess | NodeType::IndexAccess => {
            lemma_one_child(code, node.expression, location);
            assert(calls_of(code, node, location) =~= own + parts);
        },
        _ => {
            assert(calls_of(code, node, location) =~= own + parts);
        },
    }
}

/// Whether the next node of the path is one of the parts of the node before it.
pub open spec fn goes_on(path: Seq<Node>, i: int) -> bool {
    operands_of(path[i]).contains(path[i + 1])
}

/// Whether a path leads from an expression down to a part of it, at any depth.
pub open spec fn leads_down(path: Seq<Node>) -> bool {
    &&& path.len() > 0
    &&& forall|i: int| 0 <= i < path.len() - 1 ==> #[trigger] goes_on(path, i)
}

proof fn lemma_flat_contains<A>(lists: Seq<Seq<A>>, i: int, x: A)
    requires
        0 <= i < lists.len(),
        lists[i].contains(x),
    ensures
        lists.flatten().contains(x),
    decreases lists.len(),
{
    let first = lists.first();
    let rest = lists.drop_first();
    if i == 0 {
        let k = choose|k: int| 0 <= k < first.len() && first[k] == x;
        assert(lists.flatten()[k] == x);
    } else {
        assert(rest[i - 1] == lists[i]);
        lemma_flat_contains(rest, i - 1, x);
        let k = choose|k: int| 0 <= k < rest.flatten().len() && rest.flatten()[k] == x;
        assert(lists.flatten()[first.len() + k] == x);
    }
}

/// Every call of a declared function that has code is collected, wherever in the expression it
/// stands: the path leads to it from the expression.
pub proof fn law_reachable_calls_are_collected(
    code: CodeModel,
    path: Seq<Node>,
    pc: usize,
    location: SourceLocation,
)
    requires
        leads_down(path),
        calls_declared(path.last()),
        first_pc(code, path.last().src) == Some(pc),
    ensures
        calls_of(code, path[0], location).contains(
            Instruction { pc, location, kind: InstructionKind::FunctionCall },
        ),
    decreases path.len(),
{
    let call = Instruction { pc, location, kind: InstructionKind::FunctionCall };
    let own = own_call(code, path[0], location);
    let parts = operands_of(path[0]);
    let all = calls_of(code, path[0], location);
    law_calls_are_those_of_the_parts(code, path[0], location);
    if path.len() == 1 {
        assert(all[0] == call);
    } else {
        let rest = path.skip(1);
        assert forall|i: int| 0 <= i < rest.len() - 1 implies #[trigger] goes_on(rest, i) by {
            assert(goes_on(path, i + 1));
        }
        assert(rest.last() == path.last());
        law_reachable_calls_are_collected(code, rest, pc, location);
        assert(goes_on(path, 0));
        let f = |n: Node| calls_of(code, n, location);
        let k = choose|k: int| 0 <= k < parts.len() && parts[k] == path[1];
        let lists = parts.map_values(f);
        assert(lists[k] == calls_of(code, path[1], location));
        lemma_flat_contains(lists, k, call);
        let below = calls_of_all(code, parts, location);
        let j = choose|j: int| 0 <= j < below.len() && below[j] == call;
        assert(all[own.len() + j] == call);
    }
}

/// The instruction of a statement itself: of each that has code and no bodies.
pub open spec fn own_instruction(source: Seq<char>, code: CodeModel, statement: Node) -> Seq<
    Instruction,
> {
    if has_bodies(statement) || last_pc(code, statement.src) is None {
        Seq::empty()
    } else {
        seq![
            Instruction {
                pc: last_pc(code, statement.src)->Some_0,
                location: located(source, statement.src)->Some_0,
                kind: if statement.node_type == NodeType::VariableDeclarationStatement {
                    InstructionKind::VariableDeclaration(statement.id->Some_0)
                } else {
                    InstructionKind::Statement
                },
            },
        ]
    }
}

/// The expression of a statement in which calls count: that of an expression statement that has
/// code, and the initial value of a declaration.
pub open spec fn calling_expression(code: CodeModel, statement: Node) -> Option<Box<Node>> {
    if statement.node_type == NodeType::ExpressionStatement && last_pc(code, statement.src) is Some {
        statement.expression
    } else if statement.node_type == NodeType::VariableDeclarationStatement {
        statement.initial_value
    } else {
        None
    }
}

/// The instructions of a statement: its own, and behind it its calls, all placed where it stands.
pub open spec fn instructions_of(source: Seq<char>, code: CodeModel, statement: Node) -> Seq<
    Instruction,
> {
    own_instruction(source, code, statement) + match calling_expression(code, statement) {
        Some(e) => calls_of(code, *e, located(source, statement.src)->Some_0),
        None => Seq::empty(),
    }
}

/// The statements of a block.
pub open spec fn statements_in(node: Node) -> Seq<Node> {
    match node.statements {
        Some(s) => s@,
        None => Seq::empty(),
    }
}

/// The instructions of some statements, one after the other.
pub open spec fn all_instructions(source: Seq<char>, code: CodeModel, statements: Seq<Node>) -> Seq<
    Instruction,
> {
    statements.map_values(|s: Node| instructions_of(source, code, s)).flatten()
}

/// The variable that a statement declares.
pub open spec fn declared_in(statement: Node) -> Seq<usize> {
    if statement.node_type == NodeType::VariableDeclarationStatement {
        seq![statement.id->Some_0]
    } else {
        Seq::empty()
    }
}

/// The variables that some statements declare, one after the other.
pub open spec fn all_declared(statements: Seq<Node>) -> Seq<usize> {
    statements.map_values(|s: Node| declared_in(s)).flatten()
}

/// Whether the block describes the node: it stands there, and has the instructions and variables of
/// the node's statements.
pub open spec fn describes(source: Seq<char>, code: CodeModel, node: Node, block: BlockModel) -> bool {
    &&& located(source, node.src) == Some(block.location)
    &&& block.instructions == all_instructions(source, code, statements_in(node))
    &&& block.variables == all_declared(statements_in(node))
}

/// A branch or a loop adds scopes only.
proof fn lemma_bodies_keep(
    source: Seq<char>,
    code: CodeModel,
    statement: Node,
    block: BlockModel,
    vars: Seq<VariableModel>,
)
    requires
        has_bodies(statement),
        statement_of(source, code, statement, block, vars) is Ok,
    ensures
        ({
            let b = statement_of(source, code, statement, block, vars)->Ok_0.0;
            &&& b == (BlockModel { scopes: b.scopes, ..block })
            &&& block.scopes.is_prefix_of(b.scopes)
        }),
{
    crate::visitor::law_bodies_become_scopes(source, code, statement, block, vars);
}

proof fn lemma_statement_adds(
    source: Seq<char>,
    code: CodeModel,
    statement: Node,
    block: BlockModel,
    vars: Seq<VariableModel>,
)
    requires
        statement_of(source, code, statement, block, vars) is Ok,
    ensures
        ({
            let b = statement_of(source, code, statement, block, vars)->Ok_0.0;
            &&& b.instructions == block.instructions + instructions_of(source, code, statement)
            &&& b.variables == block.variables + declared_in(statement)
            &&& block.scopes.is_prefix_of(b.scopes)
            &&& b.location == block.location
            &&& b.condition == block.condition
        }),
{
    let b = statement_of(source, code, statement, block, vars)->Ok_0.0;
    let own = own_instruction(source, code, statement);
    if has_bodies(statement) {
        lemma_bodies_keep(source, code, statement, block, vars);
        assert(b.instructions =~= block.instructions + instructions_of(source, code, statement));
        assert(b.variables =~= block.variables + declared_in(statement));
    } else {
        if let Some(e) = calling_expression(code, statement) {
            let location = located(source, statement.src)->Some_0;
            lemma_calls_behind(code, *e, location, block.instructions + own);
        }
        if own.len() > 0 {
            assert(block.instructions + own =~= block.instructions.push(own[0]));
        } else {
            assert(block.instructions + own =~= block.instructions);
        }
        assert(b.instructions =~= block.instructions + instructions_of(source, code, statement));
        assert(b.variables =~= block.variables + declared_in(statement));
    }
}

proof fn lemma_flat_push<A, B>(items: Seq<A>, n: int, f: spec_fn(A) -> Seq<B>)
    requires
        0 < n <= items.len(),
    ensures
        items.take(n).map_values(f).flatten() == items.take(n - 1).map_values(f).flatten() + f(
            items[n - 1],
        ),
{
    let lists = items.take(n).map_values(f);
    assert(lists.drop_last() =~= items.take(n - 1).map_values(f));
    assert(lists.last() == f(items[n - 1]));
    lists.lemma_flatten_and_flatten_alt_are_equivalent();
    lists.drop_last().lemma_flatten_and_flatten_alt_are_equivalent();
}

proof fn lemma_statements_add(
    source: Seq<char>,
    code: CodeModel,
    statements: Seq<Node>,
    n: nat,
    block: BlockModel,
    vars: Seq<VariableModel>,
)
    requires
        n <= statements.len(),
        statements_of(source, code, statements, n, block, vars) is Ok,
    ensures
        ({
            let b = statements_of(source, code, statements, n, block, vars)->Ok_0.0;
            &&& b.instructions == block.instructions + all_instructions(
                source,
                code,
                statements.take(n as int),
            )
            &&& b.variables == block.variables + all_declared(statements.take(n as int))
            &&& block.scopes.is_prefix_of(b.scopes)
            &&& b.location == block.location
            &&& b.condition == block.condition
        }),
    decreases n,
{
    let f = |s: Node| instructions_of(source, code, s);
    let g = |s: Node| declared_in(s);
    if n == 0 {
        assert(statements.take(0).map_values(f) =~= Seq::empty());
        assert(statements.take(0).map_values(g) =~= Seq::empty());
        assert(block.instructions + Seq::<Instruction>::empty() =~= block.instructions);
        assert(block.variables + Seq::<usize>::empty() =~= block.variables);
    } else {
        let m = (n - 1) as nat;
        lemma_statements_add(source, code, statements, m, block, vars);
        let (b, v) = statements_of(source, code, statements, m, block, vars)->Ok_0;
        lemma_statement_adds(source, code, statements[n - 1], b, v);
        lemma_flat_push(statements, n as int, f);
        lemma_flat_push(statements, n as int, g);
        let before = all_instructions(source, code, statements.take(n - 1));
        let more = instructions_of(source, code, statements[n - 1]);
        assert((block.instructions + before) + more =~= block.instructions + (before + more));
        let declared = all_declared(statements.take(n - 1));
        let id = declared_in(statements[n - 1]);
        assert((block.variables + declared) + id =~= block.variables + (declared + id));
    }
}

/// The block of a node describes it: its instructions are those of its statements, one after the
/// other, and its variables are those that they declare.
pub proof fn law_blocks_describe_their_nodes(
    source: Seq<char>,
    code: CodeModel,
    node: Node,
    vars: Seq<VariableModel>,
)
    requires
        block_of(source, code, node, vars) is Ok,
    ensures
        describes(source, code, node, block_of(source, code, node, vars)->Ok_0.0),
{
    let location = located(source, node.src)->Some_0;
    let block = BlockModel { location, ..empty_block() };
    let statements = statements_in(node);
    if let Some(s) = node.statements {
        lemma_statements_add(source, code, s@, s@.len(), block, vars);
        assert(s@.take(s@.len() as int) =~= s@);
        let b = block_of(source, code, node, vars)->Ok_0.0;
        assert(b.instructions =~= all_instructions(source, code, s@));
        assert(b.variables =~= all_declared(s@));
    } else {
        assert(statements.map_values(|s: Node| instructions_of(source, code, s)) =~= Seq::empty());
        assert(statements.map_values(|s: Node| declared_in(s)) =~= Seq::empty());
    }
}

/// Each call of a declared function that has code is among the instructions of the block of the
/// statement that it stands in, where the path leads to it from the expression of the statement.
pub proof fn law_calls_are_in_their_block(
    source: Seq<char>,
    code: CodeModel,
    node: Node,
    block: BlockModel,
    i: int,
    path: Seq<Node>,
    pc: usize,
)
    requires
        describes(source, code, node, block),
        0 <= i < statements_in(node).len(),
        leads_down(path),
        calling_expression(code, statements_in(node)[i]) == Some(Box::new(path[0])),
        calls_declared(path.last()),
        first_pc(code, path.last().src) == Some(pc),
    ensures
        block.instructions.contains(
            Instruction {
                pc,
                location: located(source, statements_in(node)[i].src)->Some_0,
                kind: InstructionKind::FunctionCall,
            },
        ),
{
    let statement = statements_in(node)[i];
    let location = located(source, statement.src)->Some_0;
    let call = Instruction { pc, location, kind: InstructionKind::FunctionCall };
    law_reachable_calls_are_collected(code, path, pc, location);
    let f = |s: Node| instructions_of(source, code, s);
    let lists = statements_in(node).map_values(f);
    let own = own_instruction(source, code, statement);
    let calls = calls_of(code, path[0], location);
    let k = choose|k: int| 0 <= k < calls.len() && calls[k] == call;
    assert(lists[i] == own + calls);
    assert(lists[i][own.len() + k] == call);
    lemma_flat_contains(lists, i, call);
}

/// Whether the next node of the path is a body of a statement of the node before it.
pub open spec fn goes_in(path: Seq<Node>, i: int) -> bool {
    exists|k: int|
        #![trigger statements_in(path[i])[k]]
        0 <= k < statements_in(path[i]).len() && has_bodies(statements_in(path[i])[k]) && bodies_of(
            statements_in(path[i])[k],
        ).contains(path[i + 1])
}

/// Whether a path leads from a block into the bodies of its branches and loops, at any depth.
pub open spec fn leads_in(path: Seq<Node>) -> bool {
    &&& path.len() > 0
    &&& forall|i: int| 0 <= i < path.len() - 1 ==> #[trigger] goes_in(path, i)
}

/// Whether the blocks lie in one another, each a scope of the one before it.
pub open spec fn nested(blocks: Seq<BlockModel>) -> bool {
    forall|i: int, j: int|
        0 <= i && j == i + 1 && j < blocks.len() ==> (#[trigger] blocks[i]).scopes.contains(
            #[trigger] blocks[j],
        )
}

/// Whether the scope is the block of the body, perhaps with a condition.
spec fn is_scope_of(source: Seq<char>, code: CodeModel, body: Node, scope: BlockModel) -> bool {
    exists|v: Seq<VariableModel>|
        {
            &&& (#[trigger] block_of(source, code, body, v)) is Ok
            &&& scope == (BlockModel {
                condition: scope.condition,
                ..block_of(source, code, body, v)->Ok_0.0
            })
        }
}

proof fn lemma_scope_found(
    source: Seq<char>,
    code: CodeModel,
    condition: Option<Box<Node>>,
    body: Node,
    block: BlockModel,
    vars: Seq<VariableModel>,
)
    requires
        scope_of(source, code, condition, body, block, vars) is Ok,
    ensures
        ({
            let b = scope_of(source, code, condition, body, block, vars)->Ok_0.0;
            &&& b.scopes.len() > 0
            &&& is_scope_of(source, code, body, b.scopes.last())
        }),
{
    let b = scope_of(source, code, condition, body, block, vars)->Ok_0.0;
    let inner = block_of(source, code, body, vars);
    assert(inner is Ok);
    assert(b.scopes.last() == (BlockModel {
        condition: b.scopes.last().condition,
        ..inner->Ok_0.0
    }));
}

proof fn lemma_body_found(
    source: Seq<char>,
    code: CodeModel,
    statement: Node,
    block: BlockModel,
    vars: Seq<VariableModel>,
    body: Node,
) -> (scope: BlockModel)
    requires
        has_bodies(statement),
        statement_of(source, code, statement, block, vars) is Ok,
        bodies_of(statement).contains(body),
    ensures
        statement_of(source, code, statement, block, vars)->Ok_0.0.scopes.contains(scope),
        is_scope_of(source, code, body, scope),
    decreases statement,
{
    let after = statement_of(source, code, statement, block, vars)->Ok_0.0;
    if statement.node_type == NodeType::IfStatement {
        let taken = match statement.true_body {
            None => Ok((block, vars)),
            Some(t) => scope_of(source, code, statement.condition, *t, block, vars),
        };
        let (b, v) = taken->Ok_0;
        if let Some(other) = statement.false_body {
            if other.node_type == NodeType::IfStatement {
                lemma_bodies_keep(source, code, *other, b, v);
                if bodies_of(*other).contains(body) {
                    return lemma_body_found(source, code, *other, b, v, body);
                }
            } else {
                lemma_scope_found(source, code, None, *other, b, v);
                if *other == body {
                    assert(after.scopes[after.scopes.len() - 1] == after.scopes.last());
                    return after.scopes.last();
                }
            }
        }
        let t = statement.true_body->Some_0;
        assert(statement.true_body is Some && *t == body) by {
            let all = bodies_of(statement);
            let k = choose|k: int| 0 <= k < all.len() && all[k] == body;
            if let Some(other) = statement.false_body {
                if other.node_type == NodeType::IfStatement {
                    let first = if statement.true_body is Some { 1int } else { 0int };
                    if k >= first {
                        assert(bodies_of(*other)[k - first] == body);
                    }
                }
            }
        }
        lemma_scope_found(source, code, statement.condition, *t, block, vars);
        let n = b.scopes.len() - 1;
        assert(after.scopes[n] == b.scopes[n]);
        b.scopes.last()
    } else {
        let t = statement.body->Some_0;
        assert(*t == body);
        lemma_scope_found(source, code, statement.condition, *t, block, vars);
        assert(after.scopes[after.scopes.len() - 1] == after.scopes.last());
        after.scopes.last()
    }
}

proof fn lemma_body_among(
    source: Seq<char>,
    code: CodeModel,
    statements: Seq<Node>,
    n: nat,
    block: BlockModel,
    vars: Seq<VariableModel>,
    k: int,
    body: Node,
) -> (scope: BlockModel)
    requires
        0 <= k < n <= statements.len(),
        statements_of(source, code, statements, n, block, vars) is Ok,
        has_bodies(statements[k]),
        bodies_of(statements[k]).contains(body),
    ensures
        statements_of(source, code, statements, n, block, vars)->Ok_0.0.scopes.contains(scope),
        is_scope_of(source, code, body, scope),
    decreases n,
{
    let m = (n - 1) as nat;
    let (b, v) = statements_of(source, code, statements, m, block, vars)->Ok_0;
    let after = statements_of(source, code, statements, n, block, vars)->Ok_0.0;
    if k == m {
        lemma_body_found(source, code, statements[k], b, v, body)
    } else {
        let scope = lemma_body_among(source, code, statements, m, block, vars, k, body);
        lemma_statement_adds(source, code, statements[n - 1], b, v);
        let j = choose|j: int| 0 <= j < b.scopes.len() && b.scopes[j] == scope;
        assert(after.scopes[j] == scope);
        scope
    }
}

/// Every body of a branch or a loop, however deep it lies in a block, is described by a block that
/// lies as deep: the blocks returned lie in one another, from the whole block to that of the body.
pub proof fn law_inner_blocks_are_described(
    source: Seq<char>,
    code: CodeModel,
    path: Seq<Node>,
    vars: Seq<VariableModel>,
) -> (blocks: Seq<BlockModel>)
    requires
        leads_in(path),
        block_of(source, code, path[0], vars) is Ok,
    ensures
        blocks.len() == path.len(),
        blocks[0] == block_of(source, code, path[0], vars)->Ok_0.0,
        nested(blocks),
        describes(source, code, path.last(), blocks.last()),
    decreases path.len(),
{
    let whole = block_of(source, code, path[0], vars)->Ok_0.0;
    law_blocks_describe_their_nodes(source, code, path[0], vars);
    if path.len() == 1 {
        seq![whole]
    } else {
        assert(goes_in(path, 0));
        let statements = statements_in(path[0]);
        let k = choose|k: int|
            #![trigger statements_in(path[0])[k]]
            0 <= k < statements_in(path[0]).len() && has_bodies(statements_in(path[0])[k])
                && bodies_of(statements_in(path[0])[k]).contains(path[1]);
        let location = located(source, path[0].src)->Some_0;
        let scope = lemma_body_among(
            source,
            code,
            statements,
            statements.len(),
            BlockModel { location, ..empty_block() },
            vars,
            k,
            path[1],
        );
        let v = choose|v: Seq<VariableModel>|
            {
                &&& (#[trigger] block_of(source, code, path[1], v)) is Ok
                &&& scope == (BlockModel {
                    condition: scope.condition,
                    ..block_of(source, code, path[1], v)->Ok_0.0
                })
            };
        let rest = path.skip(1);
        assert forall|i: int| 0 <= i < rest.len() - 1 implies #[trigger] goes_in(rest, i) by {
            assert(goes_in(path, i + 1));
            let j = choose|j: int|
                #![trigger statements_in(path[i + 1])[j]]
                0 <= j < statements_in(path[i + 1]).len() && has_bodies(
                    statements_in(path[i + 1])[j],
                ) && bodies_of(statements_in(path[i + 1])[j]).contains(path[i + 2]);
            assert(statements_in(rest[i])[j] == statements_in(path[i + 1])[j]);
        }
        let inner = law_inner_blocks_are_described(source, code, rest, v);
        let below = inner.update(0, scope);
        let blocks = seq![whole] + below;
        assert forall|i: int, j: int| 0 <= i && j == i + 1 && j < blocks.len() implies (
        #[trigger] blocks[i]).scopes.contains(#[trigger] blocks[j]) by {
            if i > 0 {
                assert(inner[i - 1].scopes.contains(inner[j - 1]));
                assert(blocks[i].scopes == inner[i - 1].scopes);
                assert(blocks[j] == inner[j - 1]);
            }
        }
        assert(rest.last() == path.last());
        if path.len() > 2 {
            assert(blocks.last() == inner.last());
        } else {
            assert(blocks.last() == scope);
        }
        blocks
    }
}

/// The code in which a function runs: a constructor, when the contract is created.
pub open spec fn code_for(runtime: CodeModel, creation: CodeModel, node: Node) -> CodeModel {
    if node.kind is Some && node.kind->Some_0@ == "constructor"@ {
        creation
    } else {
        runtime
    }
}

/// Whether the function describes the node that defines it in the contract at `contract`: its name,
/// where it is entered and left, and the block of its body.
pub open spec fn describes_function(
    source: Seq<char>,
    runtime: CodeModel,
    creation: CodeModel,
    contract: LowFidelitySourceLocation,
    node: Node,
    f: FunctionModel,
) -> bool {
    let code = code_for(runtime, creation, node);
    &&& node.name is Some && f.name == node.name->Some_0@
    &&& entry_pc(code, node.src) == Some(f.entry_pc)
    &&& Some(f.exit_pc) == if node.kind->Some_0@ == "constructor"@ {
        exit_pc(code, contract, true)
    } else {
        exit_pc(code, node.src, false)
    }
    &&& node.body is Some ==> exists|v: Seq<VariableModel>|
        (#[trigger] block_of(source, code, *node.body->Some_0, v)) is Ok && block_of(
            source,
            code,
            *node.body->Some_0,
            v,
        )->Ok_0.0 == f.root_block
    &&& node.body is None ==> f.root_block.instructions.len() == 0 && f.root_block.scopes.len() == 0
}

proof fn lemma_with_function(functions: Seq<FunctionModel>, f: FunctionModel, old: FunctionModel)
    requires
        functions.contains(old),
        old.name != f.name,
    ensures
        with_function(functions, f).contains(old),
{
    lemma_position(functions, f.name, 0);
    let k = choose|k: int| 0 <= k < functions.len() && functions[k] == old;
    assert(with_function(functions, f)[k] == old);
}

/// Every function of a contract is described, unless a later one has its name.
pub proof fn law_functions_are_described(
    source: Seq<char>,
    runtime: CodeModel,
    creation: CodeModel,
    contract: LowFidelitySourceLocation,
    nodes: Seq<Node>,
    n: nat,
    unit: UnitModel,
    k: int,
) -> (f: FunctionModel)
    requires
        0 <= k < n <= nodes.len(),
        members_of(source, runtime, creation, contract, nodes, n, unit) is Ok,
        nodes[k].node_type == NodeType::FunctionDefinition,
        forall|j: int|
            k < j < n && (#[trigger] nodes[j]).node_type == NodeType::FunctionDefinition
                ==> nodes[j].name is Some && nodes[k].name is Some && nodes[j].name->Some_0@
                != nodes[k].name->Some_0@,
    ensures
        members_of(source, runtime, creation, contract, nodes, n, unit)->Ok_0.functions.contains(f),
        describes_function(source, runtime, creation, contract, nodes[k], f),
    decreases n,
{
    let m = (n - 1) as nat;
    let u = members_of(source, runtime, creation, contract, nodes, m, unit)->Ok_0;
    let after = members_of(source, runtime, creation, contract, nodes, n, unit)->Ok_0;
    let node = nodes[n - 1];
    assert(member_of(source, runtime, creation, contract, node, u) == Ok::<UnitModel, VisitError>(
        after,
    ));
    if k == m {
        let (f, v) = function_of(source, runtime, creation, contract, node, u.variables)->Ok_0;
        let code = code_for(runtime, creation, node);
        assert(function_block(source, code, node, u.variables) is Ok);
        if let Some(body) = node.body {
            assert(block_of(source, code, *body, u.variables) is Ok);
        }
        lemma_position(u.functions, f.name, 0);
        match position_of(u.functions, f.name, 0) {
            Some(i) => {
                assert(after.functions[i as int] == f);
            },
            None => {
                assert(after.functions[u.functions.len() as int] == f);
            },
        }
        f
    } else {
        let f = law_functions_are_described(
            source,
            runtime,
            creation,
            contract,
            nodes,
            m,
            unit,
            k,
        );
        if node.node_type == NodeType::FunctionDefinition {
            let (g, v) = function_of(source, runtime, creation, contract, node, u.variables)->Ok_0;
            lemma_with_function(u.functions, g, f);
        }
        f
    }
}

} // verus!

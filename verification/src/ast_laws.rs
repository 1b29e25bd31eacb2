//! What a visit of a syntax tree finds.

use vstd::prelude::*;

use crate::ast::{
    all_in, all_of_type, child_in, list_in, nodes_in, nodes_of_type, own, Node, NodeType,
};

verus! {

/// Every node that a visit collects is of the type asked for.
pub proof fn law_visit_finds_only_the_type(node: Node, target: NodeType, k: int)
    requires
        0 <= k < nodes_of_type(node, target).len(),
    ensures
        nodes_of_type(node, target)[k].node_type == target,
{
    lemma_only_of_type(node, target, true);
    reveal(only_of_type);
}

#[verifier::opaque]
spec fn only_of_type(nodes: Seq<Node>, target: NodeType) -> bool {
    forall|k: int| 0 <= k < nodes.len() ==> (#[trigger] nodes[k]).node_type == target
}

proof fn lemma_both_of_type(a: Seq<Node>, b: Seq<Node>, target: NodeType) -> (r: Seq<Node>)
    requires
        only_of_type(a, target),
        only_of_type(b, target),
    ensures
        r == a + b,
        only_of_type(r, target),
{
    reveal(only_of_type);
    a + b
}

#[verifier::rlimit(30)]
proof fn lemma_only_of_type(node: Node, target: NodeType, with_members: bool)
    ensures
        only_of_type(nodes_in(node, target, with_members), target),
    decreases node, 0nat,
{
    let done = own(node, target);
    assert(only_of_type(done, target)) by {
        reveal(only_of_type);
    }
    let more = lemma_all_only_of_type(node.nodes@, node.nodes@.len(), target, with_members);
    let done = lemma_both_of_type(done, more, target);
    let more = lemma_child_only_of_type(node.body, target, with_members);
    let done = lemma_both_of_type(done, more, target);
    let more = lemma_list_only_of_type(node.declarations, target, with_members);
    let done = lemma_both_of_type(done, more, target);
    let more = lemma_list_only_of_type(node.statements, target, with_members);
    let done = lemma_both_of_type(done, more, target);
    let more = lemma_child_only_of_type(node.expression, target, with_members);
    let done = lemma_both_of_type(done, more, target);
    let more = lemma_child_only_of_type(node.condition, target, with_members);
    let done = lemma_both_of_type(done, more, target);
    let more = lemma_child_only_of_type(node.true_body, target, with_members);
    let done = lemma_both_of_type(done, more, target);
    let more = lemma_child_only_of_type(node.false_body, target, with_members);
    let done = lemma_both_of_type(done, more, target);
    let more = lemma_child_only_of_type(node.initial_value, target, with_members);
    let done = lemma_both_of_type(done, more, target);
    let more = lemma_child_only_of_type(node.left_expression, target, with_members);
    let done = lemma_both_of_type(done, more, target);
    let more = lemma_child_only_of_type(node.right_expression, target, with_members);
    let done = lemma_both_of_type(done, more, target);
    let more = lemma_child_only_of_type(node.right_hand_side, target, with_members);
    let done = lemma_both_of_type(done, more, target);
    let more = lemma_child_only_of_type(node.sub_expression, target, with_members);
    let done = lemma_both_of_type(done, more, target);
    let more = lemma_list_only_of_type(node.arguments, target, with_members);
    let done = lemma_both_of_type(done, more, target);
    let more = lemma_all_only_of_type(node.others@, node.others@.len(), target, with_members);
    let done = lemma_both_of_type(done, more, target);
    if with_members {
        let more = lemma_list_only_of_type(node.parameters, target, with_members);
        let done = lemma_both_of_type(done, more, target);
        let more = lemma_list_only_of_type(node.members, target, with_members);
        let done = lemma_both_of_type(done, more, target);
    }
}

proof fn lemma_child_only_of_type(
    child: Option<Box<Node>>,
    target: NodeType,
    with_members: bool,
) -> (r: Seq<Node>)
    ensures
        r == child_in(child, target, with_members),
        only_of_type(child_in(child, target, with_members), target),
    decreases child, 0nat,
{
    match child {
        Some(c) => lemma_only_of_type(*c, target, with_members),
        None => {
            reveal(only_of_type);
        },
    }
    child_in(child, target, with_members)
}

proof fn lemma_list_only_of_type(
    list: Option<Vec<Node>>,
    target: NodeType,
    with_members: bool,
) -> (r: Seq<Node>)
    ensures
        r == list_in(list, target, with_members),
        only_of_type(list_in(list, target, with_members), target),
    decreases list, 0nat,
{
    match list {
        Some(l) => {
            lemma_all_only_of_type(l@, l@.len(), target, with_members);
        },
        None => {
            reveal(only_of_type);
        },
    }
    list_in(list, target, with_members)
}

proof fn lemma_all_only_of_type(
    nodes: Seq<Node>,
    n: nat,
    target: NodeType,
    with_members: bool,
) -> (r: Seq<Node>)
    ensures
        r == all_in(nodes, n, target, with_members),
        only_of_type(all_in(nodes, n, target, with_members), target),
    decreases nodes, n,
{
    if n > 0 && n <= nodes.len() {
        let before = lemma_all_only_of_type(nodes, (n - 1) as nat, target, with_members);
        lemma_only_of_type(nodes[n - 1], target, with_members);
        lemma_both_of_type(before, nodes_in(nodes[n - 1], target, with_members), target);
    } else {
        reveal(only_of_type);
    }
    all_in(nodes, n, target, with_members)
}

pub open spec fn as_list(child: Option<Box<Node>>) -> Seq<Node> {
    match child {
        Some(c) => seq![*c],
        None => Seq::empty(),
    }
}

pub open spec fn list_of(list: Option<Vec<Node>>) -> Seq<Node> {
    match list {
        Some(l) => l@,
        None => Seq::empty(),
    }
}

/// All children of a node.
pub open spec fn children_of(node: Node) -> Seq<Node> {
    node.nodes@
        + as_list(node.body)
        + list_of(node.declarations)
        + list_of(node.statements)
        + as_list(node.expression)
        + as_list(node.condition)
        + as_list(node.true_body)
        + as_list(node.false_body)
        + as_list(node.initial_value)
        + as_list(node.left_expression)
        + as_list(node.right_expression)
        + as_list(node.right_hand_side)
        + as_list(node.sub_expression)
        + list_of(node.arguments)
        + node.others@
        + list_of(node.parameters)
        + list_of(node.members)
}

proof fn lemma_join(a: Seq<Node>, b: Seq<Node>, target: NodeType)
    ensures
        all_of_type(a + b, (a + b).len(), target) == all_of_type(a, a.len(), target) + all_of_type(
            b,
            b.len(),
            target,
        ),
    decreases b.len(),
{
    lemma_join_part(a, b, b.len(), target);
}

proof fn lemma_front(a: Seq<Node>, b: Seq<Node>, n: nat, target: NodeType)
    requires
        n <= a.len(),
    ensures
        all_of_type(a + b, n, target) == all_of_type(a, n, target),
    decreases n,
{
    if n > 0 {
        lemma_front(a, b, (n - 1) as nat, target);
        assert((a + b)[n - 1] == a[n - 1]);
    }
}

proof fn lemma_join_part(a: Seq<Node>, b: Seq<Node>, n: nat, target: NodeType)
    requires
        n <= b.len(),
    ensures
        all_of_type(a + b, a.len() + n, target) == all_of_type(a, a.len(), target) + all_of_type(
            b,
            n,
            target,
        ),
    decreases n,
{
    let first = all_of_type(a, a.len(), target);
    if n > 0 {
        lemma_join_part(a, b, (n - 1) as nat, target);
        let m = (a.len() + n) as nat;
        assert((a + b)[m - 1] == b[n - 1]);
        let before = all_of_type(b, (n - 1) as nat, target);
        let last = nodes_of_type(b[n - 1], target);
        assert((first + before) + last =~= first + (before + last));
    } else {
        lemma_front(a, b, a.len(), target);
        assert(first + Seq::<Node>::empty() =~= first);
    }
}

proof fn lemma_as_list(child: Option<Box<Node>>, target: NodeType)
    ensures
        all_of_type(as_list(child), as_list(child).len(), target) == child_in(child, target, true),
{
    if let Some(c) = child {
        let l = as_list(child);
        assert(all_in(l, 0, target, true) =~= Seq::<Node>::empty());
        assert(all_in(l, 1, target, true) == all_in(l, 0, target, true) + nodes_in(
            l[0],
            target,
            true,
        ));
        assert(all_in(l, 1, target, true) =~= nodes_in(*c, target, true));
    }
}

proof fn lemma_list_of(list: Option<Vec<Node>>, target: NodeType)
    ensures
        all_of_type(list_of(list), list_of(list).len(), target) == list_in(list, target, true),
{
}

/// With the children `c` visited so far, visiting `d` gives what visiting all of them in a row does.
proof fn lemma_visited_on(
    first: Seq<Node>,
    c: Seq<Node>,
    d: Seq<Node>,
    found: Seq<Node>,
    target: NodeType,
) -> (r: Seq<Node>)
    requires
        found == first + all_of_type(c, c.len(), target),
    ensures
        r == found + all_of_type(d, d.len(), target),
        r == first + all_of_type(c + d, (c + d).len(), target),
{
    let a = all_of_type(c, c.len(), target);
    let b = all_of_type(d, d.len(), target);
    lemma_join(c, d, target);
    assert((first + a) + b =~= first + (a + b));
    found + b
}

/// A visit takes the node itself, if it is of the type, and then each of its children once, in their
/// order.
#[verifier::rlimit(30)]
pub proof fn law_visit_takes_each_child_once(node: Node, target: NodeType)
    ensures
        nodes_of_type(node, target) == own(node, target) + all_of_type(
            children_of(node),
            children_of(node).len(),
            target,
        ),
{
    let first = own(node, target);
    let c = node.nodes@;
    let r = first + all_of_type(c, c.len(), target);
    lemma_as_list(node.body, target);
    let r = lemma_visited_on(first, c, as_list(node.body), r, target);
    let c = c + as_list(node.body);
    lemma_list_of(node.declarations, target);
    let r = lemma_visited_on(first, c, list_of(node.declarations), r, target);
    let c = c + list_of(node.declarations);
    lemma_list_of(node.statements, target);
    let r = lemma_visited_on(first, c, list_of(node.statements), r, target);
    let c = c + list_of(node.statements);
    lemma_as_list(node.expression, target);
    let r = lemma_visited_on(first, c, as_list(node.expression), r, target);
    let c = c + as_list(node.expression);
    lemma_as_list(node.condition, target);
    let r = lemma_visited_on(first, c, as_list(node.condition), r, target);
    let c = c + as_list(node.condition);
    lemma_as_list(node.true_body, target);
    let r = lemma_visited_on(first, c, as_list(node.true_body), r, target);
    let c = c + as_list(node.true_body);
    lemma_as_list(node.false_body, target);
    let r = lemma_visited_on(first, c, as_list(node.false_body), r, target);
    let c = c + as_list(node.false_body);
    lemma_as_list(node.initial_value, target);
    let r = lemma_visited_on(first, c, as_list(node.initial_value), r, target);
    let c = c + as_list(node.initial_value);
    lemma_as_list(node.left_expression, target);
    let r = lemma_visited_on(first, c, as_list(node.left_expression), r, target);
    let c = c + as_list(node.left_expression);
    lemma_as_list(node.right_expression, target);
    let r = lemma_visited_on(first, c, as_list(node.right_expression), r, target);
    let c = c + as_list(node.right_expression);
    lemma_as_list(node.right_hand_side, target);
    let r = lemma_visited_on(first, c, as_list(node.right_hand_side), r, target);
    let c = c + as_list(node.right_hand_side);
    lemma_as_list(node.sub_expression, target);
    let r = lemma_visited_on(first, c, as_list(node.sub_expression), r, target);
    let c = c + as_list(node.sub_expression);
    lemma_list_of(node.arguments, target);
    let r = lemma_visited_on(first, c, list_of(node.arguments), r, target);
    let c = c + list_of(node.arguments);
    let r = lemma_visited_on(first, c, node.others@, r, target);
    let c = c + node.others@;
    lemma_list_of(node.parameters, target);
    let r = lemma_visited_on(first, c, list_of(node.parameters), r, target);
    let c = c + list_of(node.parameters);
    lemma_list_of(node.members, target);
    let r = lemma_visited_on(first, c, list_of(node.members), r, target);
    let c = c + list_of(node.members);
}

/// The node at the end of a path down the tree, where each number says which child to go to.
pub open spec fn descendant(node: Node, path: Seq<int>) -> Option<Node>
    decreases path.len(),
{
    if path.len() == 0 {
        Some(node)
    } else if 0 <= path[0] < children_of(node).len() {
        descendant(children_of(node)[path[0]], path.skip(1))
    } else {
        None
    }
}

proof fn lemma_in_all(nodes: Seq<Node>, n: nat, i: int, target: NodeType, d: Node)
    requires
        0 <= i < n <= nodes.len(),
        nodes_of_type(nodes[i], target).contains(d),
    ensures
        all_of_type(nodes, n, target).contains(d),
    decreases n,
{
    let before = all_of_type(nodes, (n - 1) as nat, target);
    let last = nodes_of_type(nodes[n - 1], target);
    if i < n - 1 {
        lemma_in_all(nodes, (n - 1) as nat, i, target, d);
        let k = choose|k: int| 0 <= k < before.len() && before[k] == d;
        assert((before + last)[k] == d);
    } else {
        let k = choose|k: int| 0 <= k < last.len() && last[k] == d;
        assert((before + last)[before.len() + k] == d);
    }
}

/// Every node of the type is found, however deep in the tree it stands.
pub proof fn law_visit_finds_every_node(node: Node, path: Seq<int>, target: NodeType)
    requires
        descendant(node, path) is Some,
        descendant(node, path)->Some_0.node_type == target,
    ensures
        nodes_of_type(node, target).contains(descendant(node, path)->Some_0),
    decreases path.len(),
{
    let d = descendant(node, path)->Some_0;
    let c = children_of(node);
    law_visit_takes_each_child_once(node, target);
    let all = nodes_of_type(node, target);
    if path.len() == 0 {
        assert(all[0] == d);
    } else {
        law_visit_finds_every_node(c[path[0]], path.skip(1), target);
        lemma_in_all(c, c.len(), path[0], target, d);
        let below = all_of_type(c, c.len(), target);
        let k = choose|k: int| 0 <= k < below.len() && below[k] == d;
        assert(all[own(node, target).len() + k] == d);
    }
}

#[verifier::opaque]
spec fn all_smaller(node: Node, s: Seq<Node>) -> bool {
    forall|i: int| 0 <= i < s.len() ==> decreases_to!(node => #[trigger] s[i])
}

proof fn lemma_both_smaller(node: Node, a: Seq<Node>, b: Seq<Node>) -> (r: Seq<Node>)
    requires
        all_smaller(node, a),
        all_smaller(node, b),
    ensures
        r == a + b,
        all_smaller(node, r),
{
    reveal(all_smaller);
    a + b
}

proof fn lemma_child_smaller(node: Node, child: Option<Box<Node>>) -> (r: Seq<Node>)
    requires
        decreases_to!(node => child),
    ensures
        r == as_list(child),
        all_smaller(node, r),
{
    reveal(all_smaller);
    if let Some(c) = child {
        assert(decreases_to!(child => *c));
    }
    as_list(child)
}

proof fn lemma_list_smaller(node: Node, list: Option<Vec<Node>>) -> (r: Seq<Node>)
    requires
        decreases_to!(node => list),
    ensures
        r == list_of(list),
        all_smaller(node, r),
{
    reveal(all_smaller);
    if let Some(l) = list {
        assert(decreases_to!(list => l));
        lemma_vec_smaller(node, l);
    }
    list_of(list)
}

proof fn lemma_vec_smaller(node: Node, list: Vec<Node>) -> (r: Seq<Node>)
    requires
        decreases_to!(node => list),
    ensures
        r == list@,
        all_smaller(node, r),
{
    reveal(all_smaller);
    assert(decreases_to!(list => list@));
    assert forall|i: int| 0 <= i < list@.len() implies decreases_to!(node => #[trigger] list@[i]) by {
        assert(decreases_to!(list@ => list@[i]));
    }
    list@
}

#[verifier::rlimit(30)]
proof fn lemma_first_children_smaller(node: Node) -> (r: Seq<Node>)
    ensures
        r == node.nodes@
            + as_list(node.body)
            + list_of(node.declarations)
            + list_of(node.statements)
            + as_list(node.expression)
            + as_list(node.condition)
            + as_list(node.true_body)
            + as_list(node.false_body),
        all_smaller(node, r),
{
    let c = lemma_vec_smaller(node, node.nodes);
    let more = lemma_child_smaller(node, node.body);
    let c = lemma_both_smaller(node, c, more);
    let more = lemma_list_smaller(node, node.declarations);
    let c = lemma_both_smaller(node, c, more);
    let more = lemma_list_smaller(node, node.statements);
    let c = lemma_both_smaller(node, c, more);
    let more = lemma_child_smaller(node, node.expression);
    let c = lemma_both_smaller(node, c, more);
    let more = lemma_child_smaller(node, node.condition);
    let c = lemma_both_smaller(node, c, more);
    let more = lemma_child_smaller(node, node.true_body);
    let c = lemma_both_smaller(node, c, more);
    let more = lemma_child_smaller(node, node.false_body);
    let c = lemma_both_smaller(node, c, more);
    c
}

/// Every child is a smaller tree than the node that holds it.
#[verifier::rlimit(30)]
proof fn lemma_children_smaller(node: Node)
    ensures
        all_smaller(node, children_of(node)),
{
    let c = lemma_first_children_smaller(node);
    let more = lemma_child_smaller(node, node.initial_value);
    let c = lemma_both_smaller(node, c, more);
    let more = lemma_child_smaller(node, node.left_expression);
    let c = lemma_both_smaller(node, c, more);
    let more = lemma_child_smaller(node, node.right_expression);
    let c = lemma_both_smaller(node, c, more);
    let more = lemma_child_smaller(node, node.right_hand_side);
    let c = lemma_both_smaller(node, c, more);
    let more = lemma_child_smaller(node, node.sub_expression);
    let c = lemma_both_smaller(node, c, more);
    let more = lemma_list_smaller(node, node.arguments);
    let c = lemma_both_smaller(node, c, more);
    let more = lemma_vec_smaller(node, node.others);
    let c = lemma_both_smaller(node, c, more);
    let more = lemma_list_smaller(node, node.parameters);
    let c = lemma_both_smaller(node, c, more);
    let more = lemma_list_smaller(node, node.members);
    let c = lemma_both_smaller(node, c, more);
}

/// Whether the path `p` leads on from where the path `q` ends.
pub open spec fn leads_on(p: Seq<int>, q: Seq<int>) -> bool {
    q.len() < p.len() && p.take(q.len() as int) == q
}

/// Whether `places` are the paths from `node` to the nodes `found`.
pub open spec fn lead_to(node: Node, places: Seq<Seq<int>>, found: Seq<Node>) -> bool {
    &&& places.len() == found.len()
    &&& forall|k: int|
        0 <= k < places.len() ==> descendant(node, #[trigger] places[k]) == Some(found[k])
}

/// Whether no path of `places` is followed by one that it leads on from.
pub open spec fn top_first(places: Seq<Seq<int>>) -> bool {
    forall|i: int, j: int|
        0 <= i < j < places.len() ==> !leads_on(#[trigger] places[i], #[trigger] places[j])
}

/// Whether a path leads from `node` to a node of the type.
pub open spec fn leads_to_type(node: Node, path: Seq<int>, target: NodeType) -> bool {
    descendant(node, path) is Some && descendant(node, path)->Some_0.node_type == target
}

/// Whether a path goes by one of the first `n` children.
spec fn goes_by(path: Seq<int>, n: nat) -> bool {
    path.len() > 0 && 0 <= path[0] < n
}

/// A visit finds the node at each place of the tree that is of the type exactly once, and a node
/// before all nodes below it. The places are given by the paths that lead to them.
pub proof fn law_visit_finds_each_place_once(node: Node, target: NodeType) -> (places: Seq<
    Seq<int>,
>)
    ensures
        lead_to(node, places, nodes_of_type(node, target)),
        places.no_duplicates(),
        forall|path: Seq<int>| #[trigger]
            leads_to_type(node, path, target) ==> places.contains(path),
        top_first(places),
    decreases node, children_of(node).len() + 1,
{
    let c = children_of(node);
    let below = lemma_places_below(node, c.len(), target);
    law_visit_takes_each_child_once(node, target);
    let found = all_of_type(c, c.len(), target);
    if node.node_type == target {
        let top = Seq::<int>::empty();
        let places = seq![top] + below;
        assert forall|k: int| 0 <= k < places.len() implies descendant(node, #[trigger] places[k])
            == Some(nodes_of_type(node, target)[k]) by {
            if k > 0 {
                assert(places[k] == below[k - 1]);
            }
        }
        assert forall|i: int, j: int|
            0 <= i < places.len() && 0 <= j < places.len() && i != j implies places[i]
            != places[j] by {
            if i > 0 {
                assert(goes_by(below[i - 1], c.len()));
            }
            if j > 0 {
                assert(goes_by(below[j - 1], c.len()));
            }
        }
        assert forall|path: Seq<int>| #[trigger]
            leads_to_type(node, path, target) implies places.contains(path) by {
            if path.len() == 0 {
                assert(path =~= top);
                assert(places[0] == path);
            } else {
                assert(goes_by(path, c.len()));
                let k = choose|k: int| 0 <= k < below.len() && below[k] == path;
                assert(places[k + 1] == path);
            }
        }
        assert forall|i: int, j: int| 0 <= i < j < places.len() implies !leads_on(
            #[trigger] places[i],
            #[trigger] places[j],
        ) by {
            if i > 0 {
                assert(places[i] == below[i - 1] && places[j] == below[j - 1]);
            }
        }
        places
    } else {
        assert(nodes_of_type(node, target) =~= found);
        assert forall|path: Seq<int>| #[trigger]
            leads_to_type(node, path, target) implies below.contains(path) by {
            assert(goes_by(path, c.len()));
        }
        below
    }
}

proof fn lemma_places_below(node: Node, n: nat, target: NodeType) -> (places: Seq<Seq<int>>)
    requires
        n <= children_of(node).len(),
    ensures
        lead_to(node, places, all_of_type(children_of(node), n, target)),
        forall|k: int| 0 <= k < places.len() ==> goes_by(#[trigger] places[k], n),
        places.no_duplicates(),
        forall|path: Seq<int>| #[trigger]
            leads_to_type(node, path, target) && goes_by(path, n) ==> places.contains(path),
        top_first(places),
    decreases node, n,
{
    let c = children_of(node);
    if n == 0 {
        Seq::empty()
    } else {
        let i = (n - 1) as nat;
        lemma_children_smaller(node);
        reveal(all_smaller);
        let before = lemma_places_below(node, i, target);
        let inner = law_visit_finds_each_place_once(c[i as int], target);
        lemma_places_joined(node, i, target, before, inner)
    }
}

proof fn lemma_places_joined(
    node: Node,
    i: nat,
    target: NodeType,
    before: Seq<Seq<int>>,
    inner: Seq<Seq<int>>,
) -> (places: Seq<Seq<int>>)
    requires
        i < children_of(node).len(),
        lead_to(node, before, all_of_type(children_of(node), i, target)),
        forall|k: int| 0 <= k < before.len() ==> goes_by(#[trigger] before[k], i),
        before.no_duplicates(),
        forall|path: Seq<int>| #[trigger]
            leads_to_type(node, path, target) && goes_by(path, i) ==> before.contains(path),
        top_first(before),
        lead_to(children_of(node)[i as int], inner, nodes_of_type(children_of(node)[i as int], target)),
        inner.no_duplicates(),
        forall|path: Seq<int>| #[trigger]
            leads_to_type(children_of(node)[i as int], path, target) ==> inner.contains(path),
        top_first(inner),
    ensures
        lead_to(node, places, all_of_type(children_of(node), i + 1, target)),
        forall|k: int| 0 <= k < places.len() ==> goes_by(#[trigger] places[k], i + 1),
        places.no_duplicates(),
        forall|path: Seq<int>| #[trigger]
            leads_to_type(node, path, target) && goes_by(path, i + 1) ==> places.contains(path),
        top_first(places),
{
    let child = children_of(node)[i as int];
    let step = seq![i as int];
    let shifted = Seq::new(inner.len(), |k: int| step + inner[k]);
    let places = before + shifted;
    let m = before.len() as int;
    assert forall|k: int| 0 <= k < inner.len() implies {
        &&& (#[trigger] shifted[k]).skip(1) == inner[k]
        &&& shifted[k][0] == i
        &&& descendant(node, shifted[k]) == descendant(child, inner[k])
    } by {
        assert(shifted[k].skip(1) =~= inner[k]);
    }
    assert forall|k: int| 0 <= k < places.len() implies descendant(node, #[trigger] places[k]) == Some(
        all_of_type(children_of(node), i + 1, target)[k],
    ) && goes_by(places[k], i + 1) by {
        if k < m {
            assert(places[k] == before[k]);
        } else {
            assert(places[k] == shifted[k - m]);
        }
    }
    assert forall|a: int, b: int|
        0 <= a < places.len() && 0 <= b < places.len() && a != b implies places[a] != places[b] by {
        if a < m {
            assert(goes_by(before[a], i));
        } else {
            assert(places[a] == shifted[a - m]);
        }
        if b < m {
            assert(goes_by(before[b], i));
        } else {
            assert(places[b] == shifted[b - m]);
        }
        if a >= m && b >= m {
            assert(inner[a - m] != inner[b - m]);
        }
    }
    assert forall|path: Seq<int>| #[trigger]
        leads_to_type(node, path, target) && goes_by(path, i + 1) implies places.contains(path) by {
        if path[0] < i {
            assert(goes_by(path, i));
            let k = choose|k: int| 0 <= k < before.len() && before[k] == path;
            assert(places[k] == path);
        } else {
            let rest = path.skip(1);
            assert(leads_to_type(child, rest, target));
            let k = choose|k: int| 0 <= k < inner.len() && inner[k] == rest;
            assert(shifted[k] =~= path);
            assert(places[m + k] == path);
        }
    }
    assert forall|a: int, b: int| 0 <= a < b < places.len() implies !leads_on(
        #[trigger] places[a],
        #[trigger] places[b],
    ) by {
        let p = places[a];
        let q = places[b];
        if leads_on(p, q) {
            assert(goes_by(p, i + 1) && goes_by(q, i + 1));
            assert(p.take(q.len() as int)[0] == p[0]);
            if b < m {
                assert(p == before[a] && q == before[b]);
            } else if a < m {
                assert(goes_by(before[a], i));
                assert(q == shifted[b - m]);
            } else {
                assert(p == shifted[a - m] && q == shifted[b - m]);
                let x = inner[a - m];
                let y = inner[b - m];
                assert(x.take(y.len() as int) =~= p.take(q.len() as int).skip(1));
                assert(leads_on(x, y));
            }
        }
    }
    places
}

} // verus!

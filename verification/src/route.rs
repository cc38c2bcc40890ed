//! Routing of a circuit onto hardware whose qubits are connected only in
//! part: a CNOT between qubits that are not neighbours is carried out by
//! swapping the control along a shortest path to the target and back.
use vstd::prelude::*;
use crate::synth::{Gate2, Op};

verus! {

broadcast use vstd::std_specs::hash::group_hash_axioms;

/// Whether `v` is listed among the neighbours of `u`.
pub open spec fn adjacent(hw: Map<usize, Vec<usize>>, u: usize, v: usize) -> bool {
    hw.contains_key(u) && hw[u]@.contains(v)
}

/// Whether the `i`-th step of `p` goes between neighbours.
pub open spec fn step_ok(hw: Map<usize, Vec<usize>>, p: Seq<usize>, i: int) -> bool {
    adjacent(hw, p[i], p[i + 1])
}

/// Whether `p` is a path from `s` to `t`: each node after the first is a
/// neighbour of the one before.
pub open spec fn is_path(hw: Map<usize, Vec<usize>>, p: Seq<usize>, s: usize, t: usize) -> bool {
    &&& p.len() > 0
    &&& p[0] == s
    &&& p.last() == t
    &&& forall|i: int| 0 <= i < p.len() - 1 ==> #[trigger] step_ok(hw, p, i)
}

/// Whether some path leads from `s` to `t`.
pub open spec fn reachable(hw: Map<usize, Vec<usize>>, s: usize, t: usize) -> bool {
    exists|p: Seq<usize>| is_path(hw, p, s, t)
}

/// Whether `p` is a path from `s` to `t` with as few nodes as any.
pub open spec fn is_shortest_path(hw: Map<usize, Vec<usize>>, p: Seq<usize>, s: usize, t: usize) -> bool {
    &&& is_path(hw, p, s, t)
    &&& forall|q: Seq<usize>| is_path(hw, q, s, t) ==> p.len() <= q.len()
}

/// The position at which `v` first occurs in the list `ns`.
pub open spec fn first_pos(ns: Seq<usize>, v: usize) -> int {
    choose|j: int| 0 <= j < ns.len() && ns[j] == v && forall|k: int| 0 <= k < j ==> ns[k] != v
}

/// The choices a path makes: for each step, the position at which the next
/// node first occurs in the neighbour list of the node before it.
pub open spec fn choices(hw: Map<usize, Vec<usize>>, p: Seq<usize>) -> Seq<int>
    decreases p.len(),
{
    if p.len() <= 1 {
        Seq::empty()
    } else {
        choices(hw, p.drop_last()).push(first_pos(hw[p[p.len() - 2]]@, p.last()))
    }
}

/// Lexicographic order on sequences of the same length: `a` comes before
/// `b`.
pub open spec fn lex_lt(a: Seq<int>, b: Seq<int>) -> bool
    decreases a.len(),
{
    if a.len() == 0 || a.len() != b.len() {
        false
    } else {
        lex_lt(a.drop_last(), b.drop_last()) || (a.drop_last() == b.drop_last() && a.last() < b.last())
    }
}

/// `a` is `b` or comes before it.
pub open spec fn lex_le(a: Seq<int>, b: Seq<int>) -> bool {
    a == b || lex_lt(a, b)
}

/// Whether `p` is, of the shortest paths from `s` to `t`, the one whose
/// choices come first: at each step, read from `s`, it goes to the
/// earliest listed neighbour that still lies on a shortest path.
pub open spec fn is_first_shortest_path(hw: Map<usize, Vec<usize>>, p: Seq<usize>, s: usize, t: usize) -> bool {
    &&& is_shortest_path(hw, p, s, t)
    &&& forall|q: Seq<usize>|
        is_path(hw, q, s, t) && q.len() == p.len() ==> lex_le(choices(hw, p), #[trigger] choices(hw, q))
}

/// The shortest path from `s` to `t` whose choices come first.
pub open spec fn first_shortest_path(hw: Map<usize, Vec<usize>>, s: usize, t: usize) -> Seq<usize> {
    choose|p: Seq<usize>| is_first_shortest_path(hw, p, s, t)
}

/// Whether the search from `s` for `t` takes up `u` before it reaches `t`:
/// `u` is reachable, and, if `t` is too, the first shortest path to `u`
/// comes before every path to `t`, being shorter or as long with choices
/// that come first.
pub open spec fn searched_before(hw: Map<usize, Vec<usize>>, s: usize, u: usize, t: usize) -> bool {
    &&& reachable(hw, s, u)
    &&& u != t
    &&& reachable(hw, s, t) ==> exists|p: Seq<usize>|
        #[trigger] is_first_shortest_path(hw, p, s, u) && comes_before_paths(hw, p, s, t)
}

/// Whether `p` comes before every path from `s` to `t`: it is shorter, or
/// as long with choices that come first.
pub open spec fn comes_before_paths(hw: Map<usize, Vec<usize>>, p: Seq<usize>, s: usize, t: usize) -> bool {
    forall|q: Seq<usize>|
        #[trigger] is_path(hw, q, s, t) ==> p.len() < q.len() || (p.len() == q.len() && lex_lt(
            choices(hw, p),
            choices(hw, q),
        ))
}

/// Whether every qubit that the search from `s` for `t` takes up before it
/// reaches `t` has its list of neighbours.
pub open spec fn lists_searched(hw: Map<usize, Vec<usize>>, s: usize, t: usize) -> bool {
    forall|u: usize| #[trigger] searched_before(hw, s, u, t) ==> hw.contains_key(u)
}

proof fn lemma_first_pos(ns: Seq<usize>, v: usize, j: int)
    requires
        0 <= j < ns.len(),
        ns[j] == v,
        forall|k: int| 0 <= k < j ==> ns[k] != v,
    ensures
        first_pos(ns, v) == j,
{
    let f = first_pos(ns, v);
    assert(0 <= f < ns.len() && ns[f] == v && forall|k: int| 0 <= k < f ==> ns[k] != v);
    if f < j {
        assert(ns[f] != v);
    } else if f > j {
        assert(ns[j] != v);
    }
}

proof fn lemma_first_pos_exists(ns: Seq<usize>, v: usize, j: int)
    requires
        0 <= j < ns.len(),
        ns[j] == v,
    ensures
        0 <= first_pos(ns, v) <= j,
        ns[first_pos(ns, v)] == v,
    decreases j,
{
    if exists|k: int| 0 <= k < j && ns[k] == v {
        let k = choose|k: int| 0 <= k < j && ns[k] == v;
        lemma_first_pos_exists(ns, v, k);
    } else {
        lemma_first_pos(ns, v, j);
    }
}

proof fn lemma_first_pos_of_neighbour(hw: Map<usize, Vec<usize>>, u: usize, v: usize)
    requires
        adjacent(hw, u, v),
    ensures
        0 <= first_pos(hw[u]@, v) < hw[u]@.len(),
        hw[u]@[first_pos(hw[u]@, v)] == v,
{
    let j = choose|j: int| 0 <= j < hw[u]@.len() && hw[u]@[j] == v;
    lemma_first_pos_exists(hw[u]@, v, j);
}

proof fn lemma_choices_push(hw: Map<usize, Vec<usize>>, x: Seq<usize>, y: usize)
    requires
        x.len() >= 1,
    ensures
        choices(hw, x.push(y)) == choices(hw, x).push(first_pos(hw[x.last()]@, y)),
{
    assert(x.push(y).drop_last() =~= x);
}

proof fn lemma_choices_len(hw: Map<usize, Vec<usize>>, p: Seq<usize>)
    requires
        p.len() >= 1,
    ensures
        choices(hw, p).len() == p.len() - 1,
    decreases p.len(),
{
    if p.len() > 1 {
        lemma_choices_len(hw, p.drop_last());
    }
}

proof fn lemma_lex_push(a: Seq<int>, b: Seq<int>, x: int, y: int)
    requires
        a.len() == b.len(),
        lex_lt(a, b) || (a == b && x < y),
    ensures
        lex_lt(a.push(x), b.push(y)),
{
    assert(a.push(x).drop_last() =~= a);
    assert(b.push(y).drop_last() =~= b);
}

proof fn lemma_lex_le_push(a: Seq<int>, b: Seq<int>, x: int)
    requires
        a.len() == b.len(),
        lex_le(a, b),
    ensures
        lex_le(a.push(x), b.push(x)),
{
    if lex_lt(a, b) {
        lemma_lex_push(a, b, x, x);
    }
}

proof fn lemma_lex_trans(a: Seq<int>, b: Seq<int>, c: Seq<int>)
    requires
        lex_lt(a, b),
        lex_le(b, c),
    ensures
        lex_lt(a, c),
    decreases a.len(),
{
    if b != c {
        if lex_lt(a.drop_last(), b.drop_last()) && lex_lt(b.drop_last(), c.drop_last()) {
            lemma_lex_trans(a.drop_last(), b.drop_last(), c.drop_last());
        }
    }
}

proof fn lemma_lex_asym(a: Seq<int>, b: Seq<int>)
    requires
        lex_lt(a, b),
    ensures
        !lex_lt(b, a),
        a != b,
    decreases a.len(),
{
    if lex_lt(a.drop_last(), b.drop_last()) {
        lemma_lex_asym(a.drop_last(), b.drop_last());
    }
}

/// A path with its last node left out is a path to the node before.
proof fn lemma_path_drop_last(hw: Map<usize, Vec<usize>>, p: Seq<usize>, s: usize, t: usize)
    requires
        is_path(hw, p, s, t),
        p.len() >= 2,
    ensures
        is_path(hw, p.drop_last(), s, p[p.len() - 2]),
        adjacent(hw, p[p.len() - 2], t),
{
    let p0 = p.drop_last();
    assert forall|i: int| 0 <= i < p0.len() - 1 implies #[trigger] step_ok(hw, p0, i) by {
        assert(step_ok(hw, p, i));
    }
    assert(step_ok(hw, p, p.len() - 2));
}

/// Two paths from the same node with the same choices are the same.
#[verifier::rlimit(40)]
proof fn lemma_same_choices(hw: Map<usize, Vec<usize>>, p: Seq<usize>, q: Seq<usize>, s: usize, t1: usize, t2: usize)
    requires
        is_path(hw, p, s, t1),
        is_path(hw, q, s, t2),
        p.len() == q.len(),
        choices(hw, p) == choices(hw, q),
    ensures
        p == q,
    decreases p.len(),
{
    let n = p.len();
    if n > 1 {
        let p0 = p.drop_last();
        let q0 = q.drop_last();
        lemma_path_drop_last(hw, p, s, t1);
        lemma_path_drop_last(hw, q, s, t2);
        let x = first_pos(hw[p[n - 2]]@, p.last());
        let y = first_pos(hw[q[n - 2]]@, q.last());
        assert(choices(hw, p) == choices(hw, p0).push(x));
        assert(choices(hw, q) == choices(hw, q0).push(y));
        assert(choices(hw, p0) =~= choices(hw, p).drop_last());
        assert(choices(hw, q0) =~= choices(hw, q).drop_last());
        lemma_same_choices(hw, p0, q0, s, p[n - 2], q[n - 2]);
        assert(p[n - 2] == q[n - 2]) by {
            assert(p[n - 2] == p0[n - 2] && q[n - 2] == q0[n - 2]);
        }
        lemma_first_pos_of_neighbour(hw, p[n - 2], p.last());
        lemma_first_pos_of_neighbour(hw, q[n - 2], q.last());
        assert(x == choices(hw, p).last() && y == choices(hw, q).last());
        assert(p =~= q) by {
            assert(p =~= p0.push(p.last()));
            assert(q =~= q0.push(q.last()));
        }
    } else {
        assert(p =~= q);
    }
}

/// There is at most one shortest path whose choices come first.
pub proof fn lemma_first_shortest_path_unique(
    hw: Map<usize, Vec<usize>>,
    p: Seq<usize>,
    q: Seq<usize>,
    s: usize,
    t: usize,
)
    requires
        is_first_shortest_path(hw, p, s, t),
        is_first_shortest_path(hw, q, s, t),
    ensures
        p == q,
{
    assert(p.len() <= q.len() && q.len() <= p.len());
    assert(lex_le(choices(hw, p), choices(hw, q)));
    assert(lex_le(choices(hw, q), choices(hw, p)));
    if lex_lt(choices(hw, p), choices(hw, q)) {
        lemma_lex_asym(choices(hw, p), choices(hw, q));
    }
    lemma_same_choices(hw, p, q, s, t, t);
}

/// Whether every listed connection is listed in both directions.
pub open spec fn symmetric(hw: Map<usize, Vec<usize>>) -> bool {
    forall|u: usize, v: usize| adjacent(hw, u, v) ==> adjacent(hw, v, u)
}

/// A path extended by a neighbour of its end is a path.
proof fn lemma_path_push(hw: Map<usize, Vec<usize>>, p: Seq<usize>, s: usize, t: usize, v: usize)
    requires
        is_path(hw, p, s, t),
        adjacent(hw, t, v),
    ensures
        is_path(hw, p.push(v), s, v),
{
    let q = p.push(v);
    assert forall|i: int| 0 <= i < q.len() - 1 implies #[trigger] step_ok(hw, q, i) by {
        if i < p.len() - 1 {
            assert(step_ok(hw, p, i));
        }
    }
}

/// A set of nodes that holds `s` and, with each node, all of its
/// neighbours, holds every node reachable from `s`.
proof fn lemma_closed_holds_reachable(
    hw: Map<usize, Vec<usize>>,
    nodes: Set<usize>,
    s: usize,
    p: Seq<usize>,
    t: usize,
)
    requires
        nodes.contains(s),
        forall|u: usize, v: usize| nodes.contains(u) && adjacent(hw, u, v) ==> nodes.contains(v),
        is_path(hw, p, s, t),
    ensures
        nodes.contains(t),
    decreases p.len(),
{
    if p.len() > 1 {
        let q = p.drop_last();
        assert forall|i: int| 0 <= i < q.len() - 1 implies #[trigger] step_ok(hw, q, i) by {
            assert(step_ok(hw, p, i));
        }
        lemma_closed_holds_reachable(hw, nodes, s, q, q.last());
        assert(step_ok(hw, p, p.len() - 2));
    }
}

/// The line architecture `0 - 1 - 2 - 3`.
pub fn line_hardware() -> (r: std::collections::HashMap<usize, Vec<usize>>)
    ensures
        r@.dom() == set![0usize, 1usize, 2usize, 3usize],
        r@[0]@ == seq![1usize],
        r@[1]@ == seq![0usize, 2usize],
        r@[2]@ == seq![1usize, 3usize],
        r@[3]@ == seq![2usize],
{
    let mut adj: std::collections::HashMap<usize, Vec<usize>> = std::collections::HashMap::new();
    adj.insert(0, vec![1]);
    adj.insert(1, vec![0, 2]);
    adj.insert(2, vec![1, 3]);
    adj.insert(3, vec![2]);
    assert(adj@.dom() =~= set![0usize, 1usize, 2usize, 3usize]);
    adj
}

/// The T-shaped architecture: `1` above `2` on the line `0 - 2 - 3`.
pub fn t_hardware() -> (r: std::collections::HashMap<usize, Vec<usize>>)
    ensures
        r@.dom() == set![0usize, 1usize, 2usize, 3usize],
        r@[0]@ == seq![2usize],
        r@[1]@ == seq![2usize],
        r@[2]@ == seq![0usize, 1usize, 3usize],
        r@[3]@ == seq![2usize],
{
    let mut adj: std::collections::HashMap<usize, Vec<usize>> = std::collections::HashMap::new();
    adj.insert(0, vec![2]);
    adj.insert(1, vec![2]);
    adj.insert(2, vec![0, 1, 3]);
    adj.insert(3, vec![2]);
    assert(adj@.dom() =~= set![0usize, 1usize, 2usize, 3usize]);
    adj
}

/// Whether `x` occurs in `v`.
fn holds_node(v: &Vec<usize>, x: usize) -> (r: bool)
    ensures
        r == v@.contains(x),
{
    for k in 0..v.len()
        invariant
            forall|j: int| 0 <= j < k ==> v@[j] != x,
    {
        if v[k] == x {
            assert(v@[k as int] == x);
            return true;
        }
    }
    false
}

/// The neighbours listed for `u`.
fn neighbours(hw: &std::collections::HashMap<usize, Vec<usize>>, u: usize) -> (r: &Vec<usize>)
    requires
        hw@.contains_key(u),
    ensures
        *r == hw@[u],
{
    hw.get(&u).unwrap()
}

/// Node `i` was discovered from an earlier node, one step further out.
pub open spec fn parent_ok(
    hw: Map<usize, Vec<usize>>,
    order: Seq<usize>,
    par: Seq<usize>,
    lvl: Seq<int>,
    i: int,
) -> bool {
    &&& par[i] < i
    &&& adjacent(hw, order[par[i] as int], order[i])
    &&& lvl[i] == lvl[par[i] as int] + 1
}

/// The state of the breadth-first search: `order` lists the discovered
/// nodes in the order of discovery, `par[i]` is the index of the node from
/// which `order[i]` was discovered, `lvl[i]` its number of steps from the
/// start, and `idx` the index of each discovered node.
#[verifier::opaque]
pub open spec fn search_ok(
    hw: Map<usize, Vec<usize>>,
    start: usize,
    order: Seq<usize>,
    par: Seq<usize>,
    lvl: Seq<int>,
    idx: Map<usize, int>,
) -> bool {
    &&& order.len() == par.len() == lvl.len()
    &&& order.len() >= 1
    &&& order[0] == start
    &&& lvl[0] == 0
    &&& forall|v: usize|
        #[trigger] idx.contains_key(v) ==> 0 <= idx[v] < order.len() && order[idx[v]] == v
    &&& forall|i: int| 0 <= i < order.len() ==> idx.contains_key(#[trigger] order[i]) && idx[order[i]] == i
    &&& forall|i: int| 0 < i < order.len() ==> #[trigger] parent_ok(hw, order, par, lvl, i)
    &&& forall|i: int, j: int| 0 <= i <= j < order.len() ==> #[trigger] lvl[i] <= #[trigger] lvl[j]
    &&& forall|i: int| 0 <= i < order.len() ==> reachable(hw, start, #[trigger] order[i])
}

/// Every node discovered from a node processed so far (the first `head`)
/// was discovered at most one step further from the start.
#[verifier::opaque]
pub open spec fn processed_ok(
    hw: Map<usize, Vec<usize>>,
    order: Seq<usize>,
    lvl: Seq<int>,
    idx: Map<usize, int>,
    head: int,
) -> bool {
    forall|i: int, v: usize|
        0 <= i < head && #[trigger] adjacent(hw, order[i], v) ==> idx.contains_key(v) && lvl[idx[v]]
            <= lvl[i] + 1
}

/// The path from `order[0]` to `order[i]` that follows, backwards, the
/// nodes from which each was discovered.
pub open spec fn tree_path(order: Seq<usize>, par: Seq<usize>, i: int) -> Seq<usize>
    decreases i,
{
    if 0 < i < order.len() && i < par.len() && par[i] < i {
        tree_path(order, par, par[i] as int).push(order[i])
    } else {
        seq![order[0]]
    }
}

/// The choices of the path along which the node at index `i` was found.
pub open spec fn tree_key(hw: Map<usize, Vec<usize>>, order: Seq<usize>, par: Seq<usize>, i: int) -> Seq<int> {
    choices(hw, tree_path(order, par, i))
}

/// Discovering more nodes leaves the paths to the nodes found before alone.
proof fn lemma_tree_path_extend(order: Seq<usize>, par: Seq<usize>, x: usize, y: usize, i: int)
    requires
        0 <= i < order.len(),
        order.len() == par.len(),
    ensures
        tree_path(order.push(x), par.push(y), i) == tree_path(order, par, i),
    decreases i,
{
    let o2 = order.push(x);
    let p2 = par.push(y);
    assert(o2[i] == order[i] && p2[i] == par[i]);
    assert(o2[0] == order[0]);
    if 0 < i && par[i] < i {
        lemma_tree_path_extend(order, par, x, y, par[i] as int);
    }
}

/// The key of a node found from the node at index `par[i]`.
proof fn lemma_tree_key_step(hw: Map<usize, Vec<usize>>, order: Seq<usize>, par: Seq<usize>, i: int)
    requires
        0 < i < order.len(),
        order.len() == par.len(),
        par[i] < i,
        tree_path(order, par, par[i] as int).last() == order[par[i] as int],
    ensures
        tree_path(order, par, i) == tree_path(order, par, par[i] as int).push(order[i]),
        tree_key(hw, order, par, i) == tree_key(hw, order, par, par[i] as int).push(
            first_pos(hw[order[par[i] as int]]@, order[i]),
        ),
        tree_path(order, par, i).last() == order[i],
{
    let t = tree_path(order, par, par[i] as int);
    assert(t.len() >= 1) by {
        lemma_tree_path_nonempty(order, par, par[i] as int);
    }
    lemma_choices_push(hw, t, order[i]);
}

proof fn lemma_tree_path_nonempty(order: Seq<usize>, par: Seq<usize>, i: int)
    ensures
        tree_path(order, par, i).len() >= 1,
    decreases i,
{
    if 0 < i < order.len() && i < par.len() && par[i] < i {
        lemma_tree_path_nonempty(order, par, par[i] as int);
    }
}

/// The nodes are found in order of their number of steps from the start
/// and, among nodes with as many steps, in the order of their keys; and the
/// key of each node comes first among the paths to it with as many steps.
#[verifier::opaque]
pub open spec fn keys_ok(
    hw: Map<usize, Vec<usize>>,
    start: usize,
    order: Seq<usize>,
    par: Seq<usize>,
    lvl: Seq<int>,
) -> bool {
    &&& forall|i: int, j: int|
        #![trigger tree_key(hw, order, par, i), tree_key(hw, order, par, j)]
        0 <= i < j < order.len() ==> lvl[i] < lvl[j] || lex_lt(
            tree_key(hw, order, par, i),
            tree_key(hw, order, par, j),
        )
    &&& forall|i: int, q: Seq<usize>|
        0 <= i < order.len() && #[trigger] is_path(hw, q, start, order[i]) && q.len() == lvl[i] + 1 ==> lex_le(
            tree_key(hw, order, par, i),
            choices(hw, q),
        )
}

proof fn lemma_tree_path_last(order: Seq<usize>, par: Seq<usize>, i: int)
    requires
        0 <= i < order.len(),
        order.len() == par.len(),
        forall|k: int| 0 < k < order.len() ==> #[trigger] par[k] < k,
    ensures
        tree_path(order, par, i).last() == order[i],
{
    if i > 0 {
        assert(par[i] < i);
    }
}

/// The search starts with the start alone, whose key is empty.
proof fn lemma_keys_start(hw: Map<usize, Vec<usize>>, start: usize)
    ensures
        keys_ok(hw, start, seq![start], seq![0usize], seq![0int]),
{
    reveal(keys_ok);
    let order = seq![start];
    let par = seq![0usize];
    assert(tree_path(order, par, 0) == seq![start]);
    assert forall|i: int, q: Seq<usize>|
        0 <= i < order.len() && #[trigger] is_path(hw, q, start, order[i]) && q.len() == seq![0int][i] + 1 implies lex_le(
        tree_key(hw, order, par, i),
        choices(hw, q),
    ) by {
        assert(q =~= seq![start]);
    }
}

/// Discovering the new neighbour `nb`, at position `j` in the list of the
/// node at index `head`, keeps the order of the keys.
#[verifier::rlimit(60)]
proof fn lemma_discover_keys(
    hw: Map<usize, Vec<usize>>,
    start: usize,
    order: Seq<usize>,
    par: Seq<usize>,
    lvl: Seq<int>,
    idx: Map<usize, int>,
    head: usize,
    nb: usize,
    j: int,
)
    requires
        search_ok(hw, start, order, par, lvl, idx),
        processed_ok(hw, order, lvl, idx, head as int),
        keys_ok(hw, start, order, par, lvl),
        head < order.len(),
        lvl[order.len() - 1] <= lvl[head as int] + 1,
        !order.contains(nb),
        hw.contains_key(order[head as int]),
        0 <= j < hw[order[head as int]]@.len(),
        hw[order[head as int]]@[j] == nb,
        forall|k: int| 0 <= k < j ==> hw[order[head as int]]@[k] != nb,
        forall|i: int|
            0 < i < order.len() ==> #[trigger] par[i] <= head && (par[i] == head ==> first_pos(
                hw[order[head as int]]@,
                order[i],
            ) < j),
    ensures
        keys_ok(hw, start, order.push(nb), par.push(head), lvl.push(lvl[head as int] + 1)),
        forall|i: int|
            0 < i < order.len() + 1 ==> #[trigger] par.push(head)[i] <= head && (par.push(head)[i] == head
                ==> first_pos(hw[order[head as int]]@, order.push(nb)[i]) < j + 1),
{
    reveal(search_ok);
    reveal(keys_ok);
    let n0 = order.len() as int;
    let h = head as int;
    let order2 = order.push(nb);
    let par2 = par.push(head);
    let lvl2 = lvl.push(lvl[h] + 1);
    let ns = hw[order[h]]@;
    lemma_first_pos(ns, nb, j);
    assert forall|k: int| 0 < k < order.len() implies #[trigger] par[k] < k by {
        assert(parent_ok(hw, order, par, lvl, k));
    }
    assert forall|k: int| 0 < k < order2.len() implies #[trigger] par2[k] < k by {
        if k < n0 {
            assert(par2[k] == par[k]);
        }
    }
    assert forall|i: int| 0 <= i < n0 implies #[trigger] tree_path(order2, par2, i) == tree_path(order, par, i) by {
        lemma_tree_path_extend(order, par, nb, head, i);
    }
    assert(tree_key(hw, order2, par2, h) == tree_key(hw, order, par, h)) by {
        assert(tree_path(order2, par2, h) == tree_path(order, par, h));
    }
    lemma_tree_path_last(order2, par2, h);
    lemma_tree_key_step(hw, order2, par2, n0);
    let kh = tree_key(hw, order, par, h);
    assert(tree_key(hw, order2, par2, n0) == kh.push(j));
    assert(lvl[0] <= lvl[h]);
    // the order of the keys
    assert forall|a: int, b: int| 0 <= a < b < order2.len() implies lvl2[a] < lvl2[b] || lex_lt(
        #[trigger] tree_key(hw, order2, par2, a),
        #[trigger] tree_key(hw, order2, par2, b),
    ) by {
        assert(tree_path(order2, par2, a) == tree_path(order, par, a));
        assert(lvl2[a] == lvl[a]);
        if b < n0 {
            assert(tree_path(order2, par2, b) == tree_path(order, par, b));
            assert(lvl2[b] == lvl[b]);
            assert(lvl[a] < lvl[b] || lex_lt(tree_key(hw, order, par, a), tree_key(hw, order, par, b)));
        } else if lvl[a] >= lvl[h] + 1 {
            assert(lvl[a] <= lvl[n0 - 1]);
            assert(a > 0);
            assert(parent_ok(hw, order, par, lvl, a));
            let pa = par[a] as int;
            lemma_tree_path_last(order, par, pa);
            lemma_tree_key_step(hw, order, par, a);
            let ca = first_pos(hw[order[pa]]@, order[a]);
            if pa < h {
                assert(lvl[pa] == lvl[h]);
                assert(lvl[pa] < lvl[h] || lex_lt(tree_key(hw, order, par, pa), tree_key(hw, order, par, h)));
                lemma_lex_push(tree_key(hw, order, par, pa), kh, ca, j);
            } else {
                assert(pa == h);
                lemma_lex_push(kh, kh, ca, j);
            }
        }
    }
    // each key comes first
    assert forall|i: int, q: Seq<usize>|
        0 <= i < order2.len() && #[trigger] is_path(hw, q, start, order2[i]) && q.len() == lvl2[i] + 1 implies lex_le(
        tree_key(hw, order2, par2, i),
        choices(hw, q),
    ) by {
        if i < n0 {
            assert(tree_path(order2, par2, i) == tree_path(order, par, i));
            assert(order2[i] == order[i] && lvl2[i] == lvl[i]);
            assert(is_path(hw, q, start, order[i]));
        } else {
            let m = q.len() as int;
            lemma_path_drop_last(hw, q, start, nb);
            let q0 = q.drop_last();
            let u = q[m - 2];
            lemma_discovered_within(hw, start, order, par, lvl, idx, h, q, nb, m - 2);
            let iu = idx[u];
            assert(order[iu] == u);
            if iu < h {
                reveal(processed_ok);
                assert(adjacent(hw, order[iu], nb));
                assert(order[idx[nb]] == nb);
            }
            assert(lvl[h] <= lvl[iu]);
            assert(is_path(hw, q0, start, order[iu]));
            assert(lex_le(tree_key(hw, order, par, iu), choices(hw, q0)));
            lemma_choices_push(hw, q0, nb);
            assert(q =~= q0.push(nb));
            let x = first_pos(hw[u]@, nb);
            assert(choices(hw, q) == choices(hw, q0).push(x));
            if iu == h {
                lemma_lex_le_push(kh, choices(hw, q0), j);
            } else {
                assert(lvl[h] < lvl[iu] || lex_lt(kh, tree_key(hw, order, par, iu)));
                lemma_lex_trans(kh, tree_key(hw, order, par, iu), choices(hw, q0));
                lemma_lex_push(kh, choices(hw, q0), j, x);
            }
        }
    }
    assert forall|i: int| 0 < i < order.len() + 1 implies #[trigger] par2[i] <= head && (par2[i] == head
        ==> first_pos(hw[order[h]]@, order2[i]) < j + 1) by {
        if i < n0 {
            assert(par2[i] == par[i] && order2[i] == order[i]);
        }
    }
}

/// Along a path from the start, a node `k` steps in whose step count is
/// below that of the node at index `h` was discovered within `k` steps.
proof fn lemma_discovered_within(
    hw: Map<usize, Vec<usize>>,
    start: usize,
    order: Seq<usize>,
    par: Seq<usize>,
    lvl: Seq<int>,
    idx: Map<usize, int>,
    h: int,
    q: Seq<usize>,
    t: usize,
    k: int,
)
    requires
        search_ok(hw, start, order, par, lvl, idx),
        processed_ok(hw, order, lvl, idx, h),
        0 <= h < order.len(),
        is_path(hw, q, start, t),
        0 <= k < q.len(),
        k <= lvl[h],
    ensures
        idx.contains_key(q[k]),
        lvl[idx[q[k]]] <= k,
    decreases k,
{
    reveal(search_ok);
    reveal(processed_ok);
    if k == 0 {
        assert(idx[order[0]] == 0);
    } else {
        lemma_discovered_within(hw, start, order, par, lvl, idx, h, q, t, k - 1);
        let i = idx[q[k - 1]];
        if i >= h {
            assert(lvl[h] <= lvl[i]);
        }
        assert(step_ok(hw, q, k - 1));
        assert(adjacent(hw, order[i], q[k]));
    }
}

/// A path from the start to the node at index `h` has at least `lvl[h] + 1`
/// nodes when the nodes before it in the order are processed.
proof fn lemma_no_shorter(
    hw: Map<usize, Vec<usize>>,
    start: usize,
    order: Seq<usize>,
    par: Seq<usize>,
    lvl: Seq<int>,
    idx: Map<usize, int>,
    h: int,
    q: Seq<usize>,
)
    requires
        search_ok(hw, start, order, par, lvl, idx),
        processed_ok(hw, order, lvl, idx, h),
        0 <= h < order.len(),
        is_path(hw, q, start, order[h]),
    ensures
        q.len() >= lvl[h] + 1,
{
    reveal(search_ok);
    reveal(processed_ok);
    if q.len() < lvl[h] + 1 {
        lemma_discovered_within(hw, start, order, par, lvl, idx, h, q, order[h], q.len() - 1);
        assert(idx[order[h]] == h);
    }
}

/// The path from the start to the node at index `h`, following the nodes
/// from which each was discovered.
fn trace_back(
    order: &Vec<usize>,
    par: &Vec<usize>,
    h: usize,
    Ghost(hw): Ghost<Map<usize, Vec<usize>>>,
    Ghost(start): Ghost<usize>,
    Ghost(lvl): Ghost<Seq<int>>,
    Ghost(idx): Ghost<Map<usize, int>>,
) -> (r: Vec<usize>)
    requires
        search_ok(hw, start, order@, par@, lvl, idx),
        h < order@.len(),
    ensures
        is_path(hw, r@, start, order@[h as int]),
        r@.len() == lvl[h as int] + 1,
        r@ == tree_path(order@, par@, h as int),
{
    reveal(search_ok);
    let mut rev: Vec<usize> = Vec::new();
    rev.push(order[h]);
    let mut i = h;
    let ghost mut suf: Seq<usize> = seq![order@[h as int]];
    assert(lvl[0] <= lvl[h as int]);
    proof {
        lemma_tree_path_nonempty(order@, par@, h as int);
        if h > 0 {
            assert(parent_ok(hw, order@, par@, lvl, h as int));
        }
    }
    assert(tree_path(order@, par@, h as int) =~= tree_path(order@, par@, h as int) + suf.drop_first());
    while i != 0
        invariant
            search_ok(hw, start, order@, par@, lvl, idx),
            i <= h,
            i < order@.len(),
            h < order@.len(),
            rev@.len() == lvl[h as int] - lvl[i as int] + 1,
            rev@[0] == order@[h as int],
            rev@.last() == order@[i as int],
            forall|k: int| 0 <= k < rev@.len() - 1 ==> adjacent(hw, rev@[k + 1], #[trigger] rev@[k]),
            suf.len() == rev@.len(),
            forall|k: int| 0 <= k < suf.len() ==> #[trigger] suf[k] == rev@[rev@.len() - 1 - k],
            tree_path(order@, par@, h as int) == tree_path(order@, par@, i as int) + suf.drop_first(),
        decreases i,
    {
        proof {
            reveal(search_ok);
        }
        let ghost r0 = rev@;
        let ghost i0 = i;
        let ghost s0 = suf;
        assert(lvl[i as int] <= lvl[h as int]);
        assert(parent_ok(hw, order@, par@, lvl, i as int));
        i = par[i];
        rev.push(order[i]);
        proof {
            suf = seq![order@[i as int]] + s0;
            assert(s0[0] == order@[i0 as int]) by {
                assert(s0[0] == r0[r0.len() - 1]);
            }
            assert(tree_path(order@, par@, i0 as int) == tree_path(order@, par@, i as int).push(order@[i0 as int]));
            assert(tree_path(order@, par@, i as int) + suf.drop_first() =~= tree_path(order@, par@, i as int).push(
                order@[i0 as int],
            ) + s0.drop_first());
            assert forall|k: int| 0 <= k < suf.len() implies #[trigger] suf[k] == rev@[rev@.len() - 1 - k] by {
                if k > 0 {
                    assert(suf[k] == s0[k - 1]);
                    assert(rev@[rev@.len() - 1 - k] == r0[r0.len() - 1 - (k - 1)]);
                }
            }
        }
        assert(rev@[0] == r0[0]);
        assert forall|k: int| 0 <= k < rev@.len() - 1 implies adjacent(hw, rev@[k + 1], #[trigger] rev@[k]) by {
            if k < r0.len() - 1 {
                assert(rev@[k] == r0[k] && rev@[k + 1] == r0[k + 1]);
            } else {
                assert(rev@[k] == order@[i0 as int]);
            }
        }
    }
    let n = rev.len();
    let mut path: Vec<usize> = Vec::new();
    for k in 0..n
        invariant
            n == rev@.len(),
            path@.len() == k,
            forall|j: int| 0 <= j < k ==> path@[j] == rev@[n - 1 - j],
    {
        path.push(rev[n - 1 - k]);
    }
    assert forall|j: int| 0 <= j < path@.len() - 1 implies #[trigger] step_ok(hw, path@, j) by {
        assert(path@[j] == rev@[n - 1 - j]);
        assert(path@[j + 1] == rev@[n - 2 - j]);
        assert(adjacent(hw, rev@[(n - 2 - j) + 1], rev@[n - 2 - j]));
    }
    assert(tree_path(order@, par@, 0) == seq![order@[0]]);
    assert(path@ =~= suf) by {
        assert(suf[0] == order@[0]);
        assert forall|j: int| 0 <= j < n implies path@[j] == #[trigger] suf[j] by {
            assert(suf[j] == rev@[n - 1 - j]);
        }
    }
    assert(tree_path(order@, par@, h as int) =~= suf);
    path
}

/// Discovering a new neighbour `nb` of the node at index `head` keeps the
/// search state sound.
proof fn lemma_discover(
    hw: Map<usize, Vec<usize>>,
    start: usize,
    order: Seq<usize>,
    par: Seq<usize>,
    lvl: Seq<int>,
    idx: Map<usize, int>,
    head: usize,
    nb: usize,
)
    requires
        search_ok(hw, start, order, par, lvl, idx),
        processed_ok(hw, order, lvl, idx, head as int),
        head < order.len(),
        lvl[order.len() - 1] <= lvl[head as int] + 1,
        !order.contains(nb),
        adjacent(hw, order[head as int], nb),
        order.no_duplicates(),
    ensures
        ({
            let order2 = order.push(nb);
            let par2 = par.push(head);
            let lvl2 = lvl.push(lvl[head as int] + 1);
            let idx2 = idx.insert(nb, order.len() as int);
            &&& search_ok(hw, start, order2, par2, lvl2, idx2)
            &&& processed_ok(hw, order2, lvl2, idx2, head as int)
            &&& lvl2[head as int] == lvl[head as int]
            &&& lvl2[order2.len() - 1] <= lvl2[head as int] + 1
            &&& order2.no_duplicates()
            &&& idx2.contains_key(nb) && lvl2[idx2[nb]] <= lvl2[head as int] + 1
            &&& forall|v: usize| #[trigger] idx.contains_key(v) ==> idx2.contains_key(v) && lvl2[idx2[v]] == lvl[idx[v]]
            &&& forall|i: int| 0 <= i < order.len() ==> order2[i] == order[i]
        }),
{
    reveal(search_ok);
    reveal(processed_ok);
    let order2 = order.push(nb);
    let par2 = par.push(head);
    let lvl2 = lvl.push(lvl[head as int] + 1);
    let n0 = order.len() as int;
    let idx2 = idx.insert(nb, n0);
    assert(!idx.contains_key(nb)) by {
        if idx.contains_key(nb) {
            assert(order[idx[nb]] == nb);
        }
    }
    let w = choose|w: Seq<usize>| is_path(hw, w, start, order[head as int]);
    assert(reachable(hw, start, order[head as int]));
    lemma_path_push(hw, w, start, order[head as int], nb);
    assert forall|v: usize| #[trigger] idx2.contains_key(v) implies 0 <= idx2[v] < order2.len() && order2[idx2[v]] == v by {
        if v != nb {
            assert(order[idx[v]] == v);
        }
    }
    assert forall|i: int| 0 <= i < order2.len() implies idx2.contains_key(order2[i]) && #[trigger] idx2[order2[i]] == i by {
        if i < n0 {
            assert(order2[i] == order[i]);
            assert(idx.contains_key(order[i]) && idx[order[i]] == i);
            assert(order[i] != nb);
        }
    }
    assert forall|i: int| 0 < i < order2.len() implies #[trigger] parent_ok(hw, order2, par2, lvl2, i) by {
        if i < n0 {
            assert(parent_ok(hw, order, par, lvl, i));
            assert(order2[i] == order[i]);
            assert(par2[i] == par[i]);
            assert(order2[par[i] as int] == order[par[i] as int]);
            assert(lvl2[i] == lvl[i] && lvl2[par[i] as int] == lvl[par[i] as int]);
        } else {
            assert(lvl2[head as int] == lvl[head as int]);
            assert(order2[head as int] == order[head as int]);
        }
    }
    assert forall|i: int, k: int| 0 <= i <= k < order2.len() implies #[trigger] lvl2[i] <= #[trigger] lvl2[k] by {
        if k == n0 && i < n0 {
            assert(lvl[i] <= lvl[n0 - 1]);
        } else if k < n0 {
            assert(lvl[i] <= lvl[k]);
        }
    }
    assert forall|i: int| 0 <= i < order2.len() implies reachable(hw, start, #[trigger] order2[i]) by {
        if i < n0 {
            assert(order2[i] == order[i]);
            assert(reachable(hw, start, order[i]));
        }
    }
    assert forall|i: int, v: usize| 0 <= i < head && #[trigger] adjacent(hw, order2[i], v) implies idx2.contains_key(v)
        && lvl2[idx2[v]] <= lvl2[i] + 1 by {
        assert(order2[i] == order[i]);
        assert(adjacent(hw, order[i], v));
    }
    assert forall|a: int, b: int| 0 <= a < order2.len() && 0 <= b < order2.len() && a != b implies order2[a] != order2[b] by {
        if a == n0 {
            assert(order2[b] == order[b]);
        } else if b == n0 {
            assert(order2[a] == order[a]);
        } else {
            assert(order2[a] == order[a] && order2[b] == order[b]);
        }
    }
    assert forall|v: usize| #[trigger] idx.contains_key(v) implies idx2.contains_key(v) && lvl2[idx2[v]] == lvl[idx[v]] by {
        assert(v != nb);
    }
    assert(order2[0] == order[0]);
    assert(lvl2[0] == lvl[0]);
    assert(search_ok(hw, start, order2, par2, lvl2, idx2));
    assert(processed_ok(hw, order2, lvl2, idx2, head as int));
    assert(order2.no_duplicates());
    assert(lvl2[order2.len() - 1] <= lvl2[head as int] + 1);
}

/// The first `n` discovered nodes are distinct listed nodes, so there are
/// no more of them than listed nodes.
proof fn lemma_listed_prefix_fits(hw: Map<usize, Vec<usize>>, order: Seq<usize>, n: int)
    requires
        0 <= n <= order.len(),
        order.no_duplicates(),
        forall|i: int| 0 <= i < n ==> hw.contains_key(#[trigger] order[i]),
        hw.dom().finite(),
    ensures
        n <= hw.dom().len(),
{
    let t = order.take(n);
    assert(t.no_duplicates()) by {
        assert forall|i: int, j: int| 0 <= i < t.len() && 0 <= j < t.len() && i != j implies t[i] != t[j] by {
            assert(t[i] == order[i] && t[j] == order[j]);
        }
    }
    t.unique_seq_to_set();
    assert forall|v: usize| t.to_set().contains(v) implies hw.dom().contains(v) by {
        let k = choose|k: int| 0 <= k < t.len() && t[k] == v;
        assert(t[k] == order[k]);
    }
    vstd::set_lib::lemma_len_subset(t.to_set(), hw.dom());
}

/// The path along which the node at index `i` was found is a path to it
/// with `lvl[i]` steps.
proof fn lemma_tree_path_is_path(
    hw: Map<usize, Vec<usize>>,
    start: usize,
    order: Seq<usize>,
    par: Seq<usize>,
    lvl: Seq<int>,
    idx: Map<usize, int>,
    i: int,
)
    requires
        search_ok(hw, start, order, par, lvl, idx),
        0 <= i < order.len(),
    ensures
        is_path(hw, tree_path(order, par, i), start, order[i]),
        tree_path(order, par, i).len() == lvl[i] + 1,
    decreases i,
{
    reveal(search_ok);
    if i == 0 {
        assert(is_path(hw, seq![start], start, start));
    } else {
        assert(parent_ok(hw, order, par, lvl, i));
        let pi = par[i] as int;
        lemma_tree_path_is_path(hw, start, order, par, lvl, idx, pi);
        lemma_path_push(hw, tree_path(order, par, pi), start, order[pi], order[i]);
    }
}

/// A node taken up by the search before the target is found is one that
/// the search takes up before reaching the target.
proof fn lemma_taken_up_before(
    hw: Map<usize, Vec<usize>>,
    start: usize,
    end: usize,
    order: Seq<usize>,
    par: Seq<usize>,
    lvl: Seq<int>,
    idx: Map<usize, int>,
    head: int,
)
    requires
        search_ok(hw, start, order, par, lvl, idx),
        processed_ok(hw, order, lvl, idx, head),
        keys_ok(hw, start, order, par, lvl),
        0 <= head < order.len(),
        forall|i: int| 0 <= i <= head ==> order[i] != end,
    ensures
        searched_before(hw, start, order[head], end),
{
    let u = order[head];
    let p = tree_path(order, par, head);
    lemma_tree_path_is_path(hw, start, order, par, lvl, idx, head);
    assert forall|q: Seq<usize>| is_path(hw, q, start, u) implies p.len() <= q.len() by {
        lemma_no_shorter(hw, start, order, par, lvl, idx, head, q);
    }
    assert forall|q: Seq<usize>| is_path(hw, q, start, u) && q.len() == p.len() implies lex_le(
        choices(hw, p),
        #[trigger] choices(hw, q),
    ) by {
        reveal(keys_ok);
        assert(is_path(hw, q, start, order[head]));
    }
    assert(is_first_shortest_path(hw, p, start, u));
    assert(reachable(hw, start, u));
    assert(u != end);
    if reachable(hw, start, end) {
        assert forall|q: Seq<usize>| #[trigger] is_path(hw, q, start, end) implies (p.len() < q.len() || (p.len()
            == q.len() && lex_lt(choices(hw, p), choices(hw, q)))) by {
            lemma_before_path(hw, start, end, order, par, lvl, idx, head, q);
        }
        assert(comes_before_paths(hw, p, start, end));
    }
}

/// The path along which the node at index `head` was found comes before a
/// path `q` to a target that has not been found by then.
proof fn lemma_before_path(
    hw: Map<usize, Vec<usize>>,
    start: usize,
    end: usize,
    order: Seq<usize>,
    par: Seq<usize>,
    lvl: Seq<int>,
    idx: Map<usize, int>,
    head: int,
    q: Seq<usize>,
)
    requires
        search_ok(hw, start, order, par, lvl, idx),
        processed_ok(hw, order, lvl, idx, head),
        keys_ok(hw, start, order, par, lvl),
        0 <= head < order.len(),
        forall|i: int| 0 <= i <= head ==> order[i] != end,
        is_path(hw, q, start, end),
    ensures
        ({
            let p = tree_path(order, par, head);
            p.len() < q.len() || (p.len() == q.len() && lex_lt(choices(hw, p), choices(hw, q)))
        }),
{
    reveal(search_ok);
    reveal(keys_ok);
    let p = tree_path(order, par, head);
    lemma_tree_path_is_path(hw, start, order, par, lvl, idx, head);
    assert(lvl.len() == order.len());
    if q.len() <= lvl[head] + 1 {
        lemma_discovered_within(hw, start, order, par, lvl, idx, head, q, end, q.len() - 1);
        let ie = idx[end];
        assert(order[ie] == end);
        assert(ie > head);
        assert(lvl[head] <= lvl[ie]);
        assert(lvl[head] < lvl[ie] || lex_lt(tree_key(hw, order, par, head), tree_key(hw, order, par, ie)));
        assert(is_path(hw, q, start, order[ie]));
        assert(lex_le(tree_key(hw, order, par, ie), choices(hw, q)));
        lemma_lex_trans(tree_key(hw, order, par, head), tree_key(hw, order, par, ie), choices(hw, q));
    }
}

/// Once all neighbours of the node at index `head` are discovered within
/// one more step, that node counts as processed.
proof fn lemma_processed_step(
    hw: Map<usize, Vec<usize>>,
    order: Seq<usize>,
    lvl: Seq<int>,
    idx: Map<usize, int>,
    head: int,
)
    requires
        processed_ok(hw, order, lvl, idx, head),
        0 <= head < order.len(),
        hw.contains_key(order[head]),
        forall|k: int|
            0 <= k < hw[order[head]]@.len() ==> idx.contains_key(#[trigger] hw[order[head]]@[k])
                && lvl[idx[hw[order[head]]@[k]]] <= lvl[head] + 1,
    ensures
        processed_ok(hw, order, lvl, idx, head + 1),
{
    reveal(processed_ok);
    assert forall|i: int, v: usize|
        0 <= i < head + 1 && #[trigger] adjacent(hw, order[i], v) implies idx.contains_key(v) && lvl[idx[v]]
            <= lvl[i] + 1 by {
        if i == head {
            let k = choose|k: int| 0 <= k < hw[order[head]]@.len() && hw[order[head]]@[k] == v;
            assert(idx.contains_key(hw[order[head]]@[k]));
        }
    }
}

/// A shortest path from `start` to `end` by breadth-first search, if `end`
/// is reachable: the neighbours of each node are taken in the order in
/// which they are listed, so the path found is the shortest path whose
/// choices come first (see [`is_first_shortest_path`]).
pub fn find_path(
    start: usize,
    end: usize,
    hardware: &std::collections::HashMap<usize, Vec<usize>>,
) -> (r: Option<Vec<usize>>)
    requires
        lists_searched(hardware@, start, end),
    ensures
        match r {
            Some(p) => is_first_shortest_path(hardware@, p@, start, end),
            None => !reachable(hardware@, start, end),
        },
{
    let ghost hw = hardware@;
    if start == end {
        let mut p: Vec<usize> = Vec::new();
        p.push(start);
        assert(is_path(hw, p@, start, end));
        assert forall|q: Seq<usize>| is_path(hw, q, start, end) && q.len() == p@.len() implies lex_le(
            choices(hw, p@),
            #[trigger] choices(hw, q),
        ) by {
            assert(q =~= p@);
        }
        return Some(p);
    }
    let mut order: Vec<usize> = Vec::new();
    order.push(start);
    let mut par: Vec<usize> = Vec::new();
    par.push(0);
    let ghost mut lvl: Seq<int> = seq![0int];
    let ghost mut idx: Map<usize, int> = map![start => 0int];
    let mut head: usize = 0;
    proof {
        let p0 = seq![start];
        assert(is_path(hw, p0, start, start));
        assert(hw.dom().finite());
        reveal(search_ok);
        reveal(processed_ok);
        assert(search_ok(hw, start, order@, par@, lvl, idx));
        lemma_keys_start(hw, start);
        assert(order@ =~= seq![start] && par@ =~= seq![0usize]);
    }
    while head < order.len()
        invariant
            hw == hardware@,
            hw.dom().finite(),
            lists_searched(hw, start, end),
            head <= hw.dom().len(),
            forall|i: int| 0 <= i < head ==> hw.contains_key(#[trigger] order@[i]),
            search_ok(hw, start, order@, par@, lvl, idx),
            processed_ok(hw, order@, lvl, idx, head as int),
            keys_ok(hw, start, order@, par@, lvl),
            forall|i: int| 0 < i < order@.len() ==> #[trigger] par@[i] < head,
            head <= order@.len(),
            head < order@.len() ==> lvl[order@.len() - 1] <= lvl[head as int] + 1,
            forall|i: int| 0 <= i < head ==> order@[i] != end,
            order@.no_duplicates(),
        decreases hw.dom().len() - head,
    {
        let current = order[head];
        if current == end {
            let p = trace_back(&order, &par, head, Ghost(hw), Ghost(start), Ghost(lvl), Ghost(idx));
            assert forall|q: Seq<usize>| is_path(hw, q, start, end) implies p@.len() <= q.len() by {
                lemma_no_shorter(hw, start, order@, par@, lvl, idx, head as int, q);
            }
            assert forall|q: Seq<usize>| is_path(hw, q, start, end) && q.len() == p@.len() implies lex_le(
                choices(hw, p@),
                #[trigger] choices(hw, q),
            ) by {
                reveal(keys_ok);
                assert(is_path(hw, q, start, order@[head as int]));
            }
            return Some(p);
        }
        assert(hw.contains_key(current)) by {
            lemma_taken_up_before(hw, start, end, order@, par@, lvl, idx, head as int);
            assert(searched_before(hw, start, order@[head as int], end));
        }
        proof {
            lemma_listed_prefix_fits(hw, order@, head + 1);
        }
        let ns = neighbours(hardware, current);
        for j in 0..ns.len()
            invariant
                hw == hardware@,
                *ns == hw[current],
                hw.contains_key(current),
                current == order@[head as int],
                head < order@.len(),
                search_ok(hw, start, order@, par@, lvl, idx),
                processed_ok(hw, order@, lvl, idx, head as int),
                lvl[order@.len() - 1] <= lvl[head as int] + 1,
                forall|i: int| 0 <= i < head ==> order@[i] != end,
                forall|i: int| 0 <= i <= head ==> hw.contains_key(#[trigger] order@[i]),
                head + 1 <= hw.dom().len(),
                order@.no_duplicates(),
                forall|k: int|
                    0 <= k < j ==> idx.contains_key(#[trigger] ns@[k]) && lvl[idx[ns@[k]]] <= lvl[head as int] + 1,
                keys_ok(hw, start, order@, par@, lvl),
                forall|i: int|
                    0 < i < order@.len() ==> #[trigger] par@[i] <= head && (par@[i] == head ==> first_pos(
                        hw[current]@,
                        order@[i],
                    ) < j),
        {
            let nb = ns[j];
            if !holds_node(&order, nb) {
                let ghost i0 = idx;
                let ghost o0 = order@;
                assert(adjacent(hw, current, nb)) by {
                    assert(hw[current]@[j as int] == nb);
                }
                proof {
                    lemma_discover(hw, start, order@, par@, lvl, idx, head, nb);
                    assert forall|k: int| 0 <= k < j implies hw[current]@[k] != nb by {
                        reveal(search_ok);
                        assert(idx.contains_key(ns@[k]));
                        assert(order@[idx[ns@[k]]] == ns@[k]);
                    }
                    lemma_discover_keys(hw, start, order@, par@, lvl, idx, head, nb, j as int);
                }
                order.push(nb);
                par.push(head);
                proof {
                    lvl = lvl.push(lvl[head as int] + 1);
                    idx = idx.insert(nb, o0.len() as int);
                }
                assert forall|k: int| 0 <= k <= j implies idx.contains_key(#[trigger] ns@[k]) && lvl[idx[ns@[k]]]
                    <= lvl[head as int] + 1 by {
                    if k < j {
                        assert(i0.contains_key(ns@[k]));
                    } else {
                        assert(ns@[k] == nb);
                    }
                }
                assert(forall|i: int| 0 <= i < head ==> order@[i] == o0[i]);
            } else {
                assert(idx.contains_key(nb) && lvl[idx[nb]] <= lvl[head as int] + 1) by {
                    reveal(search_ok);
                    let t = choose|t: int| 0 <= t < order@.len() && order@[t] == nb;
                    assert(idx[order@[t]] == t);
                    assert(lvl[t] <= lvl[order@.len() - 1]);
                }
            }
        }
        proof {
            lemma_processed_step(hw, order@, lvl, idx, head as int);
            reveal(search_ok);
            if head + 1 < order@.len() {
                assert(lvl[head as int] <= lvl[head + 1]);
            }
        }
        head = head + 1;
    }
    proof {
        reveal(search_ok);
        reveal(processed_ok);
        let nodes = Set::new(|v: usize| idx.contains_key(v));
        assert forall|u: usize, v: usize| nodes.contains(u) && adjacent(hw, u, v) implies nodes.contains(v) by {
            assert(order@[idx[u]] == u);
        }
        assert(nodes.contains(start)) by {
            assert(idx.contains_key(order@[0]) && idx[order@[0]] == 0);
        }
        if reachable(hw, start, end) {
            let q = choose|q: Seq<usize>| is_path(hw, q, start, end);
            lemma_closed_holds_reachable(hw, nodes, start, q, end);
            assert(order@[idx[end]] == end);
        }
    }
    None
}

/// A CNOT with control `c` and target `t`.
pub open spec fn cx(c: usize, t: usize) -> Op {
    Op::Gate2(Gate2::CX, c, t)
}

/// Three CNOTs that swap qubits `a` and `b`.
pub open spec fn swap_ops(a: usize, b: usize) -> Seq<Op> {
    seq![cx(a, b), cx(b, a), cx(a, b)]
}

/// The swaps along the first `k` steps of `p`, in order.
pub open spec fn swaps_forward(p: Seq<usize>, k: int) -> Seq<Op>
    decreases k,
{
    if k <= 0 {
        Seq::empty()
    } else {
        swaps_forward(p, k - 1) + swap_ops(p[k - 1], p[k])
    }
}

/// The swaps along steps `lo` to `hi - 1` of `p`, the last step first.
pub open spec fn swaps_back(p: Seq<usize>, hi: int, lo: int) -> Seq<Op>
    decreases hi - lo,
{
    if hi <= lo {
        Seq::empty()
    } else {
        swap_ops(p[hi - 1], p[hi]) + swaps_back(p, hi - 1, lo)
    }
}

/// The operations that carry out a CNOT along the path `p` from the
/// control to the target: the control is swapped along the path up to the
/// target's neighbour, the CNOT is applied there, and the swaps are undone.
pub open spec fn routed_cnot(p: Seq<usize>) -> Seq<Op> {
    let n = p.len() as int;
    swaps_forward(p, n - 2) + seq![cx(p[n - 2], p[n - 1])] + swaps_back(p, n - 2, 0)
}

/// What routing a CNOT from `c` to `t` gives: the CNOT itself between
/// neighbours, else the CNOT carried along the shortest path that
/// breadth-first search finds (see [`first_shortest_path`]).
pub open spec fn cnot_routing(hw: Map<usize, Vec<usize>>, c: usize, t: usize) -> Seq<Op> {
    if adjacent(hw, c, t) {
        seq![cx(c, t)]
    } else {
        routed_cnot(first_shortest_path(hw, c, t))
    }
}

/// Whether a CNOT from `c` to `t` can be routed: `c` has its list of
/// neighbours, and so has every qubit that the search for `t` takes up on
/// the way; `t` is reachable; and a CNOT of a qubit with itself is allowed
/// only where the hardware lists it.
pub open spec fn routable(hw: Map<usize, Vec<usize>>, c: usize, t: usize) -> bool {
    &&& hw.contains_key(c)
    &&& lists_searched(hw, c, t)
    &&& reachable(hw, c, t)
    &&& (c != t || adjacent(hw, c, t))
}

/// Whether an operation that is a CNOT acts on neighbours.
pub open spec fn cx_on_neighbours(hw: Map<usize, Vec<usize>>, op: Op) -> bool {
    match op {
        Op::Gate2(Gate2::CX, a, b) => adjacent(hw, a, b),
        _ => true,
    }
}

/// Whether every CNOT of `ops` acts on neighbours.
pub open spec fn all_on_neighbours(hw: Map<usize, Vec<usize>>, ops: Seq<Op>) -> bool {
    forall|k: int| 0 <= k < ops.len() ==> #[trigger] cx_on_neighbours(hw, ops[k])
}

proof fn lemma_all_on_neighbours_concat(hw: Map<usize, Vec<usize>>, a: Seq<Op>, b: Seq<Op>)
    requires
        all_on_neighbours(hw, a),
        all_on_neighbours(hw, b),
    ensures
        all_on_neighbours(hw, a + b),
{
    assert forall|k: int| 0 <= k < (a + b).len() implies #[trigger] cx_on_neighbours(hw, (a + b)[k]) by {
        if k < a.len() {
            assert((a + b)[k] == a[k]);
        } else {
            assert((a + b)[k] == b[k - a.len()]);
        }
    }
}

proof fn lemma_swap_on_neighbours(hw: Map<usize, Vec<usize>>, a: usize, b: usize)
    requires
        symmetric(hw),
        adjacent(hw, a, b),
    ensures
        all_on_neighbours(hw, swap_ops(a, b)),
{
    assert(adjacent(hw, b, a));
    assert forall|k: int| 0 <= k < swap_ops(a, b).len() implies #[trigger] cx_on_neighbours(hw, swap_ops(a, b)[k]) by {
    }
}

proof fn lemma_swaps_forward_on_neighbours(hw: Map<usize, Vec<usize>>, p: Seq<usize>, s: usize, t: usize, k: int)
    requires
        symmetric(hw),
        is_path(hw, p, s, t),
        k <= p.len() - 1,
    ensures
        all_on_neighbours(hw, swaps_forward(p, k)),
    decreases k,
{
    if k > 0 {
        lemma_swaps_forward_on_neighbours(hw, p, s, t, k - 1);
        assert(step_ok(hw, p, k - 1));
        lemma_swap_on_neighbours(hw, p[k - 1], p[k]);
        lemma_all_on_neighbours_concat(hw, swaps_forward(p, k - 1), swap_ops(p[k - 1], p[k]));
    }
}

proof fn lemma_swaps_back_on_neighbours(hw: Map<usize, Vec<usize>>, p: Seq<usize>, s: usize, t: usize, hi: int, lo: int)
    requires
        symmetric(hw),
        is_path(hw, p, s, t),
        0 <= lo,
        hi <= p.len() - 1,
    ensures
        all_on_neighbours(hw, swaps_back(p, hi, lo)),
    decreases hi - lo,
{
    if hi > lo {
        lemma_swaps_back_on_neighbours(hw, p, s, t, hi - 1, lo);
        assert(step_ok(hw, p, hi - 1));
        lemma_swap_on_neighbours(hw, p[hi - 1], p[hi]);
        lemma_all_on_neighbours_concat(hw, swap_ops(p[hi - 1], p[hi]), swaps_back(p, hi - 1, lo));
    }
}

proof fn lemma_routed_on_neighbours(hw: Map<usize, Vec<usize>>, p: Seq<usize>, s: usize, t: usize)
    requires
        symmetric(hw),
        is_path(hw, p, s, t),
        p.len() >= 2,
    ensures
        all_on_neighbours(hw, routed_cnot(p)),
{
    let n = p.len() as int;
    lemma_swaps_forward_on_neighbours(hw, p, s, t, n - 2);
    lemma_swaps_back_on_neighbours(hw, p, s, t, n - 2, 0);
    assert(step_ok(hw, p, n - 2));
    let mid = seq![cx(p[n - 2], p[n - 1])];
    assert(cx_on_neighbours(hw, mid[0]));
    lemma_all_on_neighbours_concat(hw, swaps_forward(p, n - 2), mid);
    lemma_all_on_neighbours_concat(hw, swaps_forward(p, n - 2) + mid, swaps_back(p, n - 2, 0));
}

proof fn lemma_swaps_back_step(p: Seq<usize>, hi: int, lo: int)
    requires
        0 < lo <= hi,
    ensures
        swaps_back(p, hi, lo - 1) == swaps_back(p, hi, lo) + swap_ops(p[lo - 1], p[lo]),
    decreases hi - lo,
{
    if hi > lo {
        lemma_swaps_back_step(p, hi - 1, lo);
        assert(swap_ops(p[hi - 1], p[hi]) + (swaps_back(p, hi - 1, lo) + swap_ops(p[lo - 1], p[lo]))
            =~= (swap_ops(p[hi - 1], p[hi]) + swaps_back(p, hi - 1, lo)) + swap_ops(p[lo - 1], p[lo]));
    } else {
        assert(swaps_back(p, hi, hi - 1) =~= swap_ops(p[hi - 1], p[hi]) + swaps_back(p, hi - 1, hi - 1));
        assert(swaps_back(p, hi - 1, hi - 1) =~= Seq::<Op>::empty());
        assert(swaps_back(p, hi, hi) =~= Seq::<Op>::empty());
    }
}

fn swap_sequence(a: usize, b: usize) -> (r: Vec<Op>)
    ensures
        r@ == swap_ops(a, b),
{
    let r = vec![
        Op::Gate2(Gate2::CX, a, b),
        Op::Gate2(Gate2::CX, b, a),
        Op::Gate2(Gate2::CX, a, b),
    ];
    assert(r@ =~= swap_ops(a, b));
    r
}

/// Routes a CNOT between `control` and `target` on the hardware; see
/// [`cnot_routing`].
pub fn route_cnot(
    control: usize,
    target: usize,
    hardware: &std::collections::HashMap<usize, Vec<usize>>,
) -> (r: Vec<Op>)
    requires
        routable(hardware@, control, target),
    ensures
        r@ == cnot_routing(hardware@, control, target),
        symmetric(hardware@) ==> all_on_neighbours(hardware@, r@),
        forall|x: spec_fn(usize) -> bool| #[trigger] run_cx(r@, x) == cx_effect(cx(control, target), x),
{
    let ghost hw = hardware@;
    let mut ops: Vec<Op> = Vec::new();
    assert(hw.contains_key(control)) by {
        assert(is_path(hw, seq![control], control, control));
    }
    if holds_node(neighbours(hardware, control), target) {
        ops.push(Op::Gate2(Gate2::CX, control, target));
        assert(ops@ =~= seq![cx(control, target)]);
        assert(cx_on_neighbours(hw, ops@[0]));
        assert forall|x: spec_fn(usize) -> bool| #[trigger] run_cx(ops@, x) == cx_effect(cx(control, target), x) by {
            reveal_with_fuel(run_cx, 2);
            assert(ops@.drop_last() =~= Seq::<Op>::empty());
        }
        return ops;
    }
    let path = match find_path(control, target, hardware) {
        Some(p) => p,
        None => {
            return ops;
        },
    };
    let n = path.len();
    assert(n >= 2) by {
        if n < 2 {
            assert(path@[0] == path@.last());
        }
    }
    for i in 0..n - 2
        invariant
            n == path@.len(),
            n >= 2,
            ops@ == swaps_forward(path@, i as int),
    {
        let mut s = swap_sequence(path[i], path[i + 1]);
        ops.append(&mut s);
    }
    ops.push(Op::Gate2(Gate2::CX, path[n - 2], target));
    let ghost fwd = ops@;
    let mut j = n - 2;
    assert(ops@ =~= fwd + swaps_back(path@, (n - 2) as int, (n - 2) as int));
    while j > 0
        invariant
            n == path@.len(),
            n >= 2,
            j <= n - 2,
            ops@ == fwd + swaps_back(path@, (n - 2) as int, j as int),
        decreases j,
    {
        let mut s = swap_sequence(path[j - 1], path[j]);
        ops.append(&mut s);
        proof {
            lemma_swaps_back_step(path@, (n - 2) as int, j as int);
        }
        assert(ops@ =~= fwd + swaps_back(path@, (n - 2) as int, j - 1));
        j = j - 1;
    }
    assert(ops@ =~= routed_cnot(path@));
    proof {
        assert(is_first_shortest_path(hw, path@, control, target));
        lemma_first_shortest_path_unique(hw, path@, first_shortest_path(hw, control, target), control, target);
        lemma_shortest_path_distinct(hw, path@, control, target);
        assert forall|x: spec_fn(usize) -> bool| #[trigger] run_cx(ops@, x) == cx_effect(cx(control, target), x) by {
            lemma_routed_cnot_acts_as_cnot(path@, x);
        }
        if symmetric(hw) {
            lemma_routed_on_neighbours(hw, path@, control, target);
        }
    }
    ops
}

/// What routing makes of one operation: a CNOT is routed, any other
/// operation stays as it is.
pub open spec fn op_routing(hw: Map<usize, Vec<usize>>, op: Op) -> Seq<Op> {
    match op {
        Op::Gate2(Gate2::CX, c, t) => cnot_routing(hw, c, t),
        _ => seq![op],
    }
}

/// What routing makes of a circuit: the routing of each operation, in
/// order.
pub open spec fn circuit_routing(hw: Map<usize, Vec<usize>>, ops: Seq<Op>) -> Seq<Op>
    decreases ops.len(),
{
    if ops.len() == 0 {
        Seq::empty()
    } else {
        circuit_routing(hw, ops.drop_last()) + op_routing(hw, ops.last())
    }
}

/// Whether every CNOT of `ops` can be routed.
pub open spec fn circuit_routable(hw: Map<usize, Vec<usize>>, ops: Seq<Op>) -> bool {
    forall|i: int|
        0 <= i < ops.len() ==> (#[trigger] ops[i] matches Op::Gate2(Gate2::CX, c, t) ==> routable(hw, c, t))
}

/// Routes every CNOT of a circuit; the other operations stay as they are.
pub fn route_circuit(
    logical_ops: Vec<Op>,
    hardware: &std::collections::HashMap<usize, Vec<usize>>,
) -> (r: Vec<Op>)
    requires
        circuit_routable(hardware@, logical_ops@),
    ensures
        r@ == circuit_routing(hardware@, logical_ops@),
        symmetric(hardware@) ==> all_on_neighbours(hardware@, r@),
{
    let ghost hw = hardware@;
    let mut routed_ops: Vec<Op> = Vec::new();
    assert(logical_ops@.take(0) =~= Seq::<Op>::empty());
    for k in 0..logical_ops.len()
        invariant
            hw == hardware@,
            circuit_routable(hw, logical_ops@),
            routed_ops@ == circuit_routing(hw, logical_ops@.take(k as int)),
            symmetric(hw) ==> all_on_neighbours(hw, routed_ops@),
    {
        let op = logical_ops[k];
        let ghost before = routed_ops@;
        assert(logical_ops@.take(k + 1).drop_last() =~= logical_ops@.take(k as int));
        assert(logical_ops@.take(k + 1).last() == op);
        match op {
            Op::Gate2(Gate2::CX, c, t) => {
                assert(logical_ops@[k as int] == op);
                let mut routed = route_cnot(c, t, hardware);
                let ghost piece = routed@;
                routed_ops.append(&mut routed);
                proof {
                    if symmetric(hw) {
                        lemma_all_on_neighbours_concat(hw, before, piece);
                    }
                }
            },
            _ => {
                routed_ops.push(op);
                proof {
                    assert(routed_ops@ =~= before + seq![op]);
                    if symmetric(hw) {
                        assert(cx_on_neighbours(hw, seq![op][0]));
                        lemma_all_on_neighbours_concat(hw, before, seq![op]);
                    }
                }
            },
        }
    }
    assert(logical_ops@.take(logical_ops@.len() as int) =~= logical_ops@);
    routed_ops
}

} // verus!

verus! {

// ---------------------------------------------------------------------------
// Laws of routing
// ---------------------------------------------------------------------------

/// The layout after swapping the qubits at `a` and `b`: `f` tells which
/// logical qubit each physical qubit holds.
pub open spec fn swap_layout(f: spec_fn(usize) -> usize, a: usize, b: usize) -> spec_fn(usize) -> usize {
    |x: usize|
        if x == a {
            f(b)
        } else if x == b {
            f(a)
        } else {
            f(x)
        }
}

/// The layout after the swaps along the first `k` steps of `p`, in order.
pub open spec fn layout_forward(f: spec_fn(usize) -> usize, p: Seq<usize>, k: int) -> spec_fn(usize) -> usize
    decreases k,
{
    if k <= 0 {
        f
    } else {
        swap_layout(layout_forward(f, p, k - 1), p[k - 1], p[k])
    }
}

/// The layout after the swaps along steps `lo` to `hi - 1` of `p`, the last
/// step first.
pub open spec fn layout_back(f: spec_fn(usize) -> usize, p: Seq<usize>, hi: int, lo: int) -> spec_fn(
    usize,
) -> usize
    decreases hi - lo,
{
    if hi <= lo {
        f
    } else {
        layout_back(swap_layout(f, p[hi - 1], p[hi]), p, hi - 1, lo)
    }
}

/// Undoing the swaps in reverse order restores every qubit: the swaps
/// that [`routed_cnot`] makes after the CNOT leave each logical qubit where
/// it was before the swaps that come before it.
pub proof fn lemma_routing_restores_layout(f: spec_fn(usize) -> usize, p: Seq<usize>, k: int)
    requires
        0 <= k,
    ensures
        layout_back(layout_forward(f, p, k), p, k, 0) == f,
    decreases k,
{
    if k > 0 {
        let g = layout_forward(f, p, k - 1);
        let a = p[k - 1];
        let b = p[k];
        assert(swap_layout(swap_layout(g, a, b), a, b) =~= g);
        lemma_routing_restores_layout(f, p, k - 1);
    }
}

/// Along a path without repeated nodes, the swaps of the first `k` steps
/// bring the qubit of the first node to node `k` and leave every node
/// beyond step `k` alone.
proof fn lemma_forward_moves_first(f: spec_fn(usize) -> usize, p: Seq<usize>, k: int)
    requires
        0 <= k < p.len(),
        p.no_duplicates(),
    ensures
        layout_forward(f, p, k)(p[k]) == f(p[0]),
        forall|j: int| k < j < p.len() ==> layout_forward(f, p, k)(#[trigger] p[j]) == f(p[j]),
    decreases k,
{
    if k > 0 {
        lemma_forward_moves_first(f, p, k - 1);
        assert(p[k - 1] != p[k]);
        assert forall|j: int| k < j < p.len() implies layout_forward(f, p, k)(#[trigger] p[j]) == f(p[j]) by {
            assert(p[j] != p[k - 1] && p[j] != p[k]);
            assert(layout_forward(f, p, k - 1)(p[j]) == f(p[j]));
        }
    }
}

/// A shortest path visits no node twice.
pub proof fn lemma_shortest_path_distinct(hw: Map<usize, Vec<usize>>, p: Seq<usize>, s: usize, t: usize)
    requires
        is_shortest_path(hw, p, s, t),
    ensures
        p.no_duplicates(),
{
    if !p.no_duplicates() {
        let (i, j) = choose|i: int, j: int|
            0 <= i < p.len() && 0 <= j < p.len() && i != j && p[i] == p[j];
        let (lo, hi) = if i < j {
            (i, j)
        } else {
            (j, i)
        };
        let q = p.take(lo) + p.skip(hi);
        assert(q.len() < p.len());
        assert(q[lo] == p[hi]);
        assert forall|k: int| 0 <= k < q.len() - 1 implies #[trigger] step_ok(hw, q, k) by {
            if k < lo - 1 {
                assert(step_ok(hw, p, k));
                assert(q[k] == p[k] && q[k + 1] == p[k + 1]);
            } else if k == lo - 1 {
                assert(step_ok(hw, p, k));
                assert(q[k] == p[k] && q[k + 1] == p[hi] && p[hi] == p[lo]);
            } else {
                let m = k - lo + hi;
                assert(step_ok(hw, p, m));
                assert(q[k] == p[m] && q[k + 1] == p[m + 1]);
            }
        }
        if lo == 0 {
            assert(q[0] == p[hi]);
        } else {
            assert(q[0] == p[0]);
        }
        assert(q.last() == p.last());
        assert(is_path(hw, q, s, t));
    }
}

/// Routing along a shortest path brings the control's qubit next to the
/// target for the CNOT, without moving the target's qubit.
pub proof fn lemma_routing_brings_control(
    hw: Map<usize, Vec<usize>>,
    p: Seq<usize>,
    c: usize,
    t: usize,
    f: spec_fn(usize) -> usize,
)
    requires
        is_shortest_path(hw, p, c, t),
        p.len() >= 2,
    ensures
        layout_forward(f, p, p.len() - 2)(p[p.len() - 2]) == f(c),
        layout_forward(f, p, p.len() - 2)(t) == f(t),
        adjacent(hw, p[p.len() - 2], t),
{
    lemma_shortest_path_distinct(hw, p, c, t);
    lemma_forward_moves_first(f, p, p.len() - 2);
    assert(step_ok(hw, p, p.len() - 2));
    assert(p[p.len() - 1] == t);
}

} // verus!

verus! {

/// Routing a circuit made of two parts routes each part on its own, one
/// after the other: every operation is routed by itself, in order.
pub proof fn lemma_circuit_routing_concat(hw: Map<usize, Vec<usize>>, a: Seq<Op>, b: Seq<Op>)
    ensures
        circuit_routing(hw, a + b) == circuit_routing(hw, a) + circuit_routing(hw, b),
    decreases b.len(),
{
    if b.len() == 0 {
        assert(a + b =~= a);
        assert(circuit_routing(hw, a) + circuit_routing(hw, b) =~= circuit_routing(hw, a));
    } else {
        let b0 = b.drop_last();
        lemma_circuit_routing_concat(hw, a, b0);
        assert((a + b).drop_last() =~= a + b0);
        assert((a + b).last() == b.last());
        assert(circuit_routing(hw, a + b) == circuit_routing(hw, a + b0) + op_routing(hw, b.last()));
        assert(circuit_routing(hw, a + b0) + op_routing(hw, b.last()) =~= circuit_routing(hw, a) + (
        circuit_routing(hw, b0) + op_routing(hw, b.last())));
    }
}

} // verus!

verus! {

// ---------------------------------------------------------------------------
// What a routed CNOT does
// ---------------------------------------------------------------------------

/// The effect of an operation on a basis state, in which each qubit holds
/// one bit: a CNOT flips its target's bit when its control's bit is set;
/// the other operations are not followed here.
pub open spec fn cx_effect(op: Op, x: spec_fn(usize) -> bool) -> spec_fn(usize) -> bool {
    match op {
        Op::Gate2(Gate2::CX, c, t) => |i: usize|
            if i == t {
                x(t) != x(c)
            } else {
                x(i)
            },
        _ => x,
    }
}

/// The basis state after the CNOTs of `ops`, in order.
pub open spec fn run_cx(ops: Seq<Op>, x: spec_fn(usize) -> bool) -> spec_fn(usize) -> bool
    decreases ops.len(),
{
    if ops.len() == 0 {
        x
    } else {
        cx_effect(ops.last(), run_cx(ops.drop_last(), x))
    }
}

/// Running two circuits one after the other is running their join.
proof fn lemma_run_cx_concat(a: Seq<Op>, b: Seq<Op>, x: spec_fn(usize) -> bool)
    ensures
        run_cx(a + b, x) == run_cx(b, run_cx(a, x)),
    decreases b.len(),
{
    if b.len() == 0 {
        assert(a + b =~= a);
    } else {
        lemma_run_cx_concat(a, b.drop_last(), x);
        assert((a + b).drop_last() =~= a + b.drop_last());
        assert((a + b).last() == b.last());
    }
}

/// Swapping the control `b` of a CNOT with `a` before and after it moves
/// the control to `a`.
proof fn lemma_swap_moves_control(a: usize, b: usize, t: usize, y: spec_fn(usize) -> bool)
    requires
        a != b,
        a != t,
        b != t,
    ensures
        run_cx(swap_ops(a, b) + seq![cx(b, t)] + swap_ops(a, b), y) == cx_effect(cx(a, t), y),
{
    let m = swap_ops(a, b) + seq![cx(b, t)] + swap_ops(a, b);
    reveal_with_fuel(run_cx, 8);
    assert(m.len() == 7);
    assert(m.drop_last().drop_last().drop_last().drop_last().drop_last().drop_last().drop_last().len() == 0);
    let y1 = cx_effect(cx(a, b), y);
    let y2 = cx_effect(cx(b, a), y1);
    let y3 = cx_effect(cx(a, b), y2);
    let y4 = cx_effect(cx(b, t), y3);
    let y5 = cx_effect(cx(a, b), y4);
    let y6 = cx_effect(cx(b, a), y5);
    let y7 = cx_effect(cx(a, b), y6);
    assert(m.drop_last().drop_last().drop_last().drop_last().drop_last().drop_last() =~= seq![cx(a, b)]);
    assert(m.drop_last().drop_last().drop_last().drop_last().drop_last() =~= seq![cx(a, b), cx(b, a)]);
    assert(m.drop_last().drop_last().drop_last().drop_last() =~= seq![cx(a, b), cx(b, a), cx(a, b)]);
    assert(m.drop_last().drop_last().drop_last() =~= seq![cx(a, b), cx(b, a), cx(a, b), cx(b, t)]);
    assert(m.drop_last().drop_last() =~= seq![cx(a, b), cx(b, a), cx(a, b), cx(b, t), cx(a, b)]);
    assert(m.drop_last() =~= seq![cx(a, b), cx(b, a), cx(a, b), cx(b, t), cx(a, b), cx(b, a)]);
    assert(m =~= seq![cx(a, b), cx(b, a), cx(a, b), cx(b, t), cx(a, b), cx(b, a), cx(a, b)]);
    assert(run_cx(m, y) == y7);
    assert(y7 =~= cx_effect(cx(a, t), y));
}

/// The CNOT from `p[k]` to the end of `p`, with the swaps of the first `k`
/// steps before it and undone after it, acts as the CNOT from the start of
/// `p` to its end.
proof fn lemma_routed_prefix_acts_as_cnot(p: Seq<usize>, k: int, x: spec_fn(usize) -> bool)
    requires
        p.no_duplicates(),
        p.len() >= 2,
        0 <= k <= p.len() - 2,
    ensures
        run_cx(swaps_forward(p, k) + seq![cx(p[k], p.last())] + swaps_back(p, k, 0), x) == cx_effect(
            cx(p[0], p.last()),
            x,
        ),
    decreases k,
{
    let t = p.last();
    if k == 0 {
        let r = swaps_forward(p, 0) + seq![cx(p[0], t)] + swaps_back(p, 0, 0);
        assert(r =~= seq![cx(p[0], t)]);
        reveal_with_fuel(run_cx, 2);
        assert(seq![cx(p[0], t)].drop_last() =~= Seq::<Op>::empty());
    } else {
        lemma_routed_prefix_acts_as_cnot(p, k - 1, x);
        let f = swaps_forward(p, k - 1);
        let b = swaps_back(p, k - 1, 0);
        let s = swap_ops(p[k - 1], p[k]);
        let mid = s + seq![cx(p[k], t)] + s;
        let one = seq![cx(p[k - 1], t)];
        assert(swaps_forward(p, k) == f + s);
        assert(swaps_back(p, k, 0) == s + b);
        assert(swaps_forward(p, k) + seq![cx(p[k], t)] + swaps_back(p, k, 0) =~= f + mid + b);
        assert(p[k - 1] != p[k] && p[k - 1] != t && p[k] != t) by {
            assert(p[p.len() - 1] == t);
        }
        lemma_run_cx_concat(f + mid, b, x);
        lemma_run_cx_concat(f, mid, x);
        lemma_run_cx_concat(f + one, b, x);
        lemma_run_cx_concat(f, one, x);
        lemma_swap_moves_control(p[k - 1], p[k], t, run_cx(f, x));
        reveal_with_fuel(run_cx, 2);
        assert(one.drop_last() =~= Seq::<Op>::empty());
        assert(run_cx(one, run_cx(f, x)) == cx_effect(cx(p[k - 1], t), run_cx(f, x)));
    }
}

/// A CNOT routed along a path without repeated qubits acts on every basis
/// state exactly as the CNOT from the path's start to its end: the swaps
/// after the CNOT undo those before it, so every other qubit ends where it
/// began.
pub proof fn lemma_routed_cnot_acts_as_cnot(p: Seq<usize>, x: spec_fn(usize) -> bool)
    requires
        p.no_duplicates(),
        p.len() >= 2,
    ensures
        run_cx(routed_cnot(p), x) == cx_effect(cx(p[0], p.last()), x),
{
    lemma_routed_prefix_acts_as_cnot(p, p.len() - 2, x);
    assert(p[p.len() - 1] == p.last());
}

} // verus!

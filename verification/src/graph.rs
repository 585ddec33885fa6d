//! Graphs whose nodes and edges carry expressions, and a canonical form for
//! them.
//!
//! The canonical form numbers the nodes anew. Nodes are first told apart by
//! what they carry, then by what their edges lead to, round after round.
//! Where nodes stay alike, each of them in turn is put first and the rounds
//! go on; of all the numberings found this way the one with the least list
//! of edges is kept.

use crate::atom::{
    clone_atom, compare, compare_usize, int_order, or_else, Atom, Order, Term,
};
use vstd::prelude::*;

verus! {

/// A node: what it carries, and the edges that touch it.
#[derive(Debug)]
pub struct Node {
    pub data: Atom,
    pub edges: Vec<usize>,
}

/// An edge between two nodes. A directed edge leads from the first to the
/// second.
#[derive(Debug)]
pub struct Edge {
    pub vertices: (usize, usize),
    pub directed: bool,
    pub data: (usize, Atom),
}

/// A graph.
#[derive(Debug)]
pub struct Graph {
    nodes: Vec<Node>,
    edges: Vec<Edge>,
}

/// A numbering of the nodes, and the list of edges under it.
pub struct Numbering {
    pub code: Vec<Vec<usize>>,
    pub number: Vec<usize>,
}

/// Whether every number of `v` is below `bound`.
pub open spec fn all_below(v: Seq<usize>, bound: int) -> bool {
    forall|i: int| 0 <= i < v.len() ==> (#[trigger] v[i]) < bound
}

/// The order of two lists of numbers from the index `from` on: element by
/// element, and a list that ends first comes first.
pub open spec fn key_order(a: Seq<usize>, b: Seq<usize>, from: nat) -> Order
    decreases a.len() - from,
{
    if from >= a.len() || from >= b.len() {
        int_order(a.len() as int, b.len() as int)
    } else {
        or_else(int_order(a[from as int] as int, b[from as int] as int), key_order(a, b, from + 1))
    }
}

/// The order of two lists of lists of numbers from the index `from` on.
pub open spec fn key_list_order(a: Seq<Vec<usize>>, b: Seq<Vec<usize>>, from: nat) -> Order
    decreases a.len() - from,
{
    if from >= a.len() || from >= b.len() {
        int_order(a.len() as int, b.len() as int)
    } else {
        or_else(key_order(a[from as int]@, b[from as int]@, 0), key_list_order(a, b, from + 1))
    }
}

/// Compares two lists of numbers: element by element, then by length.
pub fn compare_keys(a: &Vec<usize>, b: &Vec<usize>) -> (r: Order)
    ensures
        r == key_order(a@, b@, 0),
{
    let mut i: usize = 0;
    while i < a.len() && i < b.len()
        invariant
            i <= a.len(),
            i <= b.len(),
            key_order(a@, b@, 0) == key_order(a@, b@, i as nat),
        decreases a.len() - i,
    {
        let o = compare_usize(a[i], b[i]);
        if o != Order::Equal {
            return o;
        }
        i = i + 1;
    }
    compare_usize(a.len(), b.len())
}

/// Compares two lists of lists of numbers.
pub fn compare_key_lists(a: &Vec<Vec<usize>>, b: &Vec<Vec<usize>>) -> (r: Order)
    ensures
        r == key_list_order(a@, b@, 0),
{
    let mut i: usize = 0;
    while i < a.len() && i < b.len()
        invariant
            i <= a.len(),
            i <= b.len(),
            key_list_order(a@, b@, 0) == key_list_order(a@, b@, i as nat),
        decreases a.len() - i,
    {
        let o = compare_keys(&a[i], &b[i]);
        if o != Order::Equal {
            return o;
        }
        i = i + 1;
    }
    compare_usize(a.len(), b.len())
}

/// The rows of a list of keys.
pub open spec fn rows(keys: Seq<Vec<usize>>) -> Seq<Seq<usize>> {
    keys.map_values(|k: Vec<usize>| k@)
}

/// Whether the key at `j` comes before the key at `i`: it is less, or the
/// same and stands earlier.
pub open spec fn comes_before(keys: Seq<Seq<usize>>, j: int, i: int) -> bool {
    j != i && (key_order(keys[j], keys[i], 0) == Order::Less || (key_order(keys[j], keys[i], 0)
        == Order::Equal && j < i))
}

/// Whether the key at `j` is less than the key at `i`.
pub open spec fn is_less(keys: Seq<Seq<usize>>, j: int, i: int) -> bool {
    j != i && key_order(keys[j], keys[i], 0) == Order::Less
}

/// The number of keys among the first `n` that come before the key at `i`.
pub open spec fn count_before(keys: Seq<Seq<usize>>, i: int, n: nat) -> nat
    decreases n,
{
    if n == 0 || n > keys.len() {
        0
    } else if comes_before(keys, n - 1, i) {
        count_before(keys, i, (n - 1) as nat) + 1
    } else {
        count_before(keys, i, (n - 1) as nat)
    }
}

/// The number of keys among the first `n` that are less than the key at
/// `i`.
pub open spec fn count_less(keys: Seq<Seq<usize>>, i: int, n: nat) -> nat
    decreases n,
{
    if n == 0 || n > keys.len() {
        0
    } else if is_less(keys, n - 1, i) {
        count_less(keys, i, (n - 1) as nat) + 1
    } else {
        count_less(keys, i, (n - 1) as nat)
    }
}

/// For each key its place among the keys: the number of keys that come
/// before it.
pub open spec fn places_of(keys: Seq<Seq<usize>>) -> Seq<usize> {
    Seq::new(keys.len(), |i: int| count_before(keys, i, keys.len()) as usize)
}

/// For each key the number of keys that are less.
pub open spec fn ranks_of(keys: Seq<Seq<usize>>) -> Seq<usize> {
    Seq::new(keys.len(), |i: int| count_less(keys, i, keys.len()) as usize)
}

/// The key that has the place `k`, among the first `n` keys: the last of
/// them, and the empty key where there is none.
pub open spec fn key_at(keys: Seq<Seq<usize>>, place: Seq<usize>, k: int, n: nat) -> Seq<usize>
    decreases n,
{
    if n == 0 || n > keys.len() || n > place.len() {
        Seq::empty()
    } else if place[n - 1] == k {
        keys[n - 1]
    } else {
        key_at(keys, place, k, (n - 1) as nat)
    }
}

/// The keys in the order of their places.
pub open spec fn in_order(keys: Seq<Seq<usize>>) -> Seq<Seq<usize>> {
    Seq::new(keys.len(), |k: int| key_at(keys, places_of(keys), k, keys.len()))
}

/// For each key its place among the keys: the number of keys that come
/// before it, a key with the same content counting when it stands earlier.
pub fn places(keys: &Vec<Vec<usize>>) -> (r: Vec<usize>)
    ensures
        r.len() == keys.len(),
        all_below(r@, keys.len() as int),
        r@ == places_of(rows(keys@)),
{
    let n: usize = keys.len();
    let mut out: Vec<usize> = Vec::new();
    let mut i: usize = 0;
    while i < n
        invariant
            i <= n,
            n == keys.len(),
            out.len() == i,
            all_below(out@, n as int),
            forall|k: int|
                0 <= k < i ==> #[trigger] out[k] == count_before(rows(keys@), k, n as nat),
        decreases n - i,
    {
        let mut count: usize = 0;
        let mut j: usize = 0;
        while j < n
            invariant
                j <= n,
                i < n,
                n == keys.len(),
                count <= j,
                j > i ==> count < j,
                count == count_before(rows(keys@), i as int, j as nat),
            decreases n - j,
        {
            if j != i {
                let o = compare_keys(&keys[j], &keys[i]);
                if o == Order::Less || (o == Order::Equal && j < i) {
                    count = count + 1;
                }
            }
            j = j + 1;
        }
        out.push(count);
        i = i + 1;
    }
    assert(out@ =~= places_of(rows(keys@)));
    out
}

/// For each key the number of keys that come strictly before it: keys with
/// the same content share their number.
pub fn ranks(keys: &Vec<Vec<usize>>) -> (r: Vec<usize>)
    ensures
        r.len() == keys.len(),
        all_below(r@, keys.len() as int),
        r@ == ranks_of(rows(keys@)),
{
    let n: usize = keys.len();
    let mut out: Vec<usize> = Vec::new();
    let mut i: usize = 0;
    while i < n
        invariant
            i <= n,
            n == keys.len(),
            out.len() == i,
            all_below(out@, n as int),
            forall|k: int| 0 <= k < i ==> #[trigger] out[k] == count_less(rows(keys@), k, n as nat),
        decreases n - i,
    {
        let mut count: usize = 0;
        let mut j: usize = 0;
        while j < n
            invariant
                j <= n,
                i < n,
                n == keys.len(),
                count <= j,
                j > i ==> count < j,
                count == count_less(rows(keys@), i as int, j as nat),
            decreases n - j,
        {
            if j != i {
                if compare_keys(&keys[j], &keys[i]) == Order::Less {
                    count = count + 1;
                }
            }
            j = j + 1;
        }
        out.push(count);
        i = i + 1;
    }
    assert(out@ =~= ranks_of(rows(keys@)));
    out
}

/// The keys in order, equal keys in the order in which they stood.
pub fn sort_keys(keys: &Vec<Vec<usize>>) -> (r: Vec<Vec<usize>>)
    ensures
        r.len() == keys.len(),
        rows(r@) == in_order(rows(keys@)),
{
    let n: usize = keys.len();
    let place = places(keys);
    let mut out: Vec<Vec<usize>> = Vec::new();
    let mut k: usize = 0;
    while k < n
        invariant
            k <= n,
            n == keys.len(),
            place.len() == n,
            place@ == places_of(rows(keys@)),
            out.len() == k,
            forall|t: int|
                0 <= t < k ==> (#[trigger] out[t])@ == key_at(rows(keys@), place@, t, n as nat),
        decreases n - k,
    {
        let mut found: Vec<usize> = Vec::new();
        let mut i: usize = 0;
        while i < n
            invariant
                i <= n,
                n == keys.len(),
                place.len() == n,
                found@ == key_at(rows(keys@), place@, k as int, i as nat),
            decreases n - i,
        {
            if place[i] == k {
                found = keys[i].clone();
            }
            i = i + 1;
        }
        out.push(found);
        k = k + 1;
    }
    assert(rows(out@) =~= in_order(rows(keys@)));
    out
}

/// Whether the number at the place `i` of `v` stands at an earlier place
/// too.
pub open spec fn seen_before(v: Seq<usize>, i: int, upto: int) -> bool {
    exists|j: int| 0 <= j < upto && j < i && #[trigger] v[j] == v[i]
}

/// The number of different numbers among the first `n` of `v`: the number of
/// places that hold a number for the first time.
pub open spec fn distinct_count(v: Seq<usize>, n: nat) -> nat
    decreases n,
{
    if n == 0 || n > v.len() {
        0
    } else if seen_before(v, n - 1, n - 1) {
        distinct_count(v, (n - 1) as nat)
    } else {
        distinct_count(v, (n - 1) as nat) + 1
    }
}

/// The number of different numbers in `v`.
fn count_distinct(v: &Vec<usize>) -> (r: usize)
    ensures
        r == distinct_count(v@, v.len() as nat),
        r <= v.len(),
{
    let mut count: usize = 0;
    let mut i: usize = 0;
    while i < v.len()
        invariant
            i <= v.len(),
            count <= i,
            count == distinct_count(v@, i as nat),
        decreases v.len() - i,
    {
        let mut seen = false;
        let mut j: usize = 0;
        while j < i
            invariant
                j <= i,
                i < v.len(),
                seen == seen_before(v@, i as int, j as int),
            decreases i - j,
        {
            if v[j] == v[i] {
                seen = true;
            }
            j = j + 1;
        }
        if !seen {
            count = count + 1;
        }
        i = i + 1;
    }
    count
}

/// Whether the number at the place `i` of `v` stands at one of the first
/// `upto` places other than `i` too.
pub open spec fn shared_at(v: Seq<usize>, i: int, upto: int) -> bool {
    exists|j: int| 0 <= j < upto && j != i && #[trigger] v[j] == v[i]
}

/// Whether `v` holds the number `x` more than once.
pub open spec fn is_shared(v: Seq<usize>, x: usize) -> bool {
    exists|i: int| 0 <= i < v.len() && #[trigger] v[i] == x && shared_at(v, i, v.len() as int)
}

/// Whether `x` is the least of the numbers that stand more than once in
/// `v` and at one of its first `n` places.
pub open spec fn least_shared(v: Seq<usize>, n: int, x: usize) -> bool {
    &&& exists|i: int| 0 <= i < n && #[trigger] v[i] == x && shared_at(v, i, v.len() as int)
    &&& forall|i: int| 0 <= i < n && shared_at(v, i, v.len() as int) ==> x <= #[trigger] v[i]
}

/// Whether none of the first `n` numbers of `v` stands in `v` more than
/// once.
pub open spec fn none_shared(v: Seq<usize>, n: int) -> bool {
    forall|i: int| 0 <= i < n ==> !shared_at(v, i, v.len() as int)
}

/// The least number that `v` holds more than once.
fn first_shared(v: &Vec<usize>) -> (r: Option<usize>)
    ensures
        match r {
            Some(x) => is_shared(v@, x) && least_shared(v@, v.len() as int, x),
            None => none_shared(v@, v.len() as int),
        },
{
    let mut best: Option<usize> = None;
    let mut i: usize = 0;
    while i < v.len()
        invariant
            i <= v.len(),
            match best {
                Some(x) => least_shared(v@, i as int, x),
                None => none_shared(v@, i as int),
            },
        decreases v.len() - i,
    {
        let mut shared = false;
        let mut j: usize = 0;
        while j < v.len()
            invariant
                j <= v.len(),
                i < v.len(),
                shared == shared_at(v@, i as int, j as int),
            decreases v.len() - j,
        {
            if j != i && v[j] == v[i] {
                shared = true;
            }
            j = j + 1;
        }
        let ghost before = best;
        if shared {
            best = match best {
                Some(b) => if v[i] < b {
                    Some(v[i])
                } else {
                    Some(b)
                },
                None => Some(v[i]),
            };
        }
        proof {
            match best {
                Some(x) => {
                    if shared && x == v[i as int] {
                        assert(v@[i as int] == x && shared_at(v@, i as int, v.len() as int));
                    } else {
                        let k = choose|k: int|
                            0 <= k < i && #[trigger] v@[k] == x && shared_at(
                                v@,
                                k,
                                v.len() as int,
                            );
                        assert(0 <= k < i + 1 && v@[k] == x);
                    }
                    assert(least_shared(v@, i + 1, x));
                },
                None => {},
            }
        }
        i = i + 1;
    }
    best
}

/// An edge as the model sees it.
pub ghost struct EdgeView {
    pub from: usize,
    pub to: usize,
    pub directed: bool,
    pub label: usize,
    pub data: Term,
}

/// The model of an edge.
pub open spec fn edge_view(e: Edge) -> EdgeView {
    EdgeView {
        from: e.vertices.0,
        to: e.vertices.1,
        directed: e.directed,
        label: e.data.0,
        data: e.data.1@,
    }
}

/// A graph as the model sees it: what each node carries, the edges that
/// touch each node in the order in which they were added, and the edges.
pub ghost struct GraphView {
    pub nodes: Seq<Term>,
    pub incident: Seq<Seq<usize>>,
    pub edges: Seq<EdgeView>,
}

impl GraphView {
    /// The graph without nodes.
    pub open spec fn empty() -> GraphView {
        GraphView { nodes: Seq::empty(), incident: Seq::empty(), edges: Seq::empty() }
    }

    /// The graph with one more node, which carries `data` and touches no
    /// edge.
    pub open spec fn with_node(self, data: Term) -> GraphView {
        GraphView {
            nodes: self.nodes.push(data),
            incident: self.incident.push(Seq::empty()),
            edges: self.edges,
        }
    }

    /// The graph with one more edge, which its two ends come to touch.
    pub open spec fn with_edge(
        self,
        from: usize,
        to: usize,
        directed: bool,
        label: usize,
        data: Term,
    ) -> GraphView {
        GraphView {
            nodes: self.nodes,
            incident: Seq::new(
                self.incident.len(),
                |i: int|
                    if i == from || i == to {
                        self.incident[i].push(self.edges.len() as usize)
                    } else {
                        self.incident[i]
                    },
            ),
            edges: self.edges.push(EdgeView { from, to, directed, label, data }),
        }
    }
}

/// What an edge tells of the node it leaves: its kind, what it carries,
/// and the colour of the node it leads to.
pub open spec fn leaving_entry(e: EdgeView, label: usize, colors: Seq<usize>) -> Seq<usize> {
    seq![
        if e.directed {
            1usize
        } else {
            0usize
        },
        label,
        colors[e.to as int],
    ]
}

/// What an edge tells of the node it leads to: its kind, what it carries,
/// and the colour of the node it leaves.
pub open spec fn arriving_entry(e: EdgeView, label: usize, colors: Seq<usize>) -> Seq<usize> {
    seq![
        if e.directed {
            2usize
        } else {
            0usize
        },
        label,
        colors[e.from as int],
    ]
}

/// What the first `n` edges tell of the node `i`, edge by edge.
pub open spec fn entries_of(
    edges: Seq<EdgeView>,
    labels: Seq<usize>,
    colors: Seq<usize>,
    i: int,
    n: nat,
) -> Seq<Seq<usize>>
    decreases n,
{
    if n == 0 || n > edges.len() {
        Seq::empty()
    } else {
        let e = edges[n - 1];
        let before = entries_of(edges, labels, colors, i, (n - 1) as nat);
        let left = if e.from == i {
            before.push(leaving_entry(e, labels[n - 1], colors))
        } else {
            before
        };
        if e.to == i {
            left.push(arriving_entry(e, labels[n - 1], colors))
        } else {
            left
        }
    }
}

/// The first `n` keys, one after another.
pub open spec fn flat(keys: Seq<Seq<usize>>, n: nat) -> Seq<usize>
    decreases n,
{
    if n == 0 || n > keys.len() {
        Seq::empty()
    } else {
        flat(keys, (n - 1) as nat) + keys[n - 1]
    }
}

/// What tells the node `i` apart under the colours `colors`: its colour,
/// then what its edges tell of it, in order.
pub open spec fn signature_of(g: GraphView, labels: Seq<usize>, colors: Seq<usize>, i: int) -> Seq<
    usize,
> {
    let told = in_order(entries_of(g.edges, labels, colors, i, g.edges.len()));
    seq![colors[i]] + flat(told, told.len())
}

/// What tells each node apart under the colours `colors`.
pub open spec fn signatures_of(g: GraphView, labels: Seq<usize>, colors: Seq<usize>) -> Seq<
    Seq<usize>,
> {
    Seq::new(g.nodes.len(), |i: int| signature_of(g, labels, colors, i))
}

/// The colours after at most `rounds` rounds: in each round the nodes are
/// ranked by what tells them apart, and the rounds end with the first that
/// tells no more nodes apart than the colours before it.
pub open spec fn refined(g: GraphView, labels: Seq<usize>, colors: Seq<usize>, rounds: nat) -> Seq<
    usize,
>
    decreases rounds,
{
    if rounds == 0 {
        colors
    } else {
        let next = ranks_of(signatures_of(g, labels, colors));
        if distinct_count(next, next.len()) == distinct_count(colors, colors.len()) {
            next
        } else {
            refined(g, labels, next, (rounds - 1) as nat)
        }
    }
}

impl View for Graph {
    type V = GraphView;

    closed spec fn view(&self) -> GraphView {
        GraphView {
            nodes: Seq::new(self.nodes.len() as nat, |i: int| self.nodes[i].data@),
            incident: Seq::new(self.nodes.len() as nat, |i: int| self.nodes[i].edges@),
            edges: Seq::new(self.edges.len() as nat, |e: int| edge_view(self.edges[e])),
        }
    }
}

impl Graph {
    /// Every edge joins nodes of the graph, and every node names edges of
    /// the graph.
    pub closed spec fn wf(&self) -> bool {
        &&& forall|e: int|
            0 <= e < self.edges.len() ==> (#[trigger] self.edges[e]).vertices.0 < self.nodes.len()
                && self.edges[e].vertices.1 < self.nodes.len()
        &&& forall|i: int, k: int|
            0 <= i < self.nodes.len() && 0 <= k < self.nodes[i].edges.len()
                ==> #[trigger] self.nodes[i].edges[k] < self.edges.len()
    }

    /// The number of nodes.
    pub open spec fn node_count(&self) -> nat {
        self@.nodes.len()
    }

    /// The number of edges.
    pub open spec fn edge_count(&self) -> nat {
        self@.edges.len()
    }

    /// The graph without nodes.
    pub fn new() -> (r: Graph)
        ensures
            r.wf(),
            r@ == GraphView::empty(),
            r.node_count() == 0,
            r.edge_count() == 0,
    {
        let r = Graph { nodes: Vec::new(), edges: Vec::new() };
        assert(r@.nodes =~= Seq::empty());
        assert(r@.incident =~= Seq::empty());
        assert(r@.edges =~= Seq::empty());
        r
    }

    /// Adds a node that carries `data`, and returns its number.
    pub fn add_node(&mut self, data: Atom) -> (r: usize)
        requires
            old(self).wf(),
        ensures
            final(self).wf(),
            r == old(self).node_count(),
            final(self).node_count() == old(self).node_count() + 1,
            final(self).edge_count() == old(self).edge_count(),
            final(self)@ == old(self)@.with_node(data@),
    {
        let index = self.nodes.len();
        self.nodes.push(Node { data, edges: Vec::new() });
        proof {
            assert(self@.nodes =~= old(self)@.nodes.push(data@));
            assert(self@.incident =~= old(self)@.incident.push(Seq::empty()));
            assert(self@.edges =~= old(self)@.edges);
            assert forall|i: int, k: int|
                0 <= i < self.nodes.len() && 0 <= k < self.nodes[i].edges.len()
                    implies #[trigger] self.nodes[i].edges[k] < self.edges.len() by {
                if i < index {
                    assert(self.nodes[i] == old(self).nodes[i]);
                }
            }
        }
        index
    }

    /// Adds an edge between the nodes `from` and `to`.
    pub fn add_edge(&mut self, from: usize, to: usize, directed: bool, data: (usize, Atom))
        requires
            old(self).wf(),
            from < old(self).node_count(),
            to < old(self).node_count(),
        ensures
            final(self).wf(),
            final(self).node_count() == old(self).node_count(),
            final(self).edge_count() == old(self).edge_count() + 1,
            final(self)@ == old(self)@.with_edge(from, to, directed, data.0, data.1@),
    {
        let index = self.edges.len();
        self.edges.push(Edge { vertices: (from, to), directed, data });
        let ghost mid = self.nodes@;
        let mut first = Vec::new();
        core::mem::swap(&mut first, &mut self.nodes);
        let n: usize = first.len();
        let mut rebuilt: Vec<Node> = Vec::new();
        let mut i: usize = 0;
        while first.len() > 0
            invariant
                i + first.len() == n,
                rebuilt.len() == i,
                index < self.edges.len(),
                n == mid.len(),
                first@ == mid.subrange(i as int, n as int),
                forall|a: int|
                    0 <= a < i ==> (#[trigger] rebuilt[a]).data == mid[a].data && rebuilt[a].edges@
                        == if a == from || a == to {
                        mid[a].edges@.push(index)
                    } else {
                        mid[a].edges@
                    },
                forall|a: int, k: int|
                    0 <= a < rebuilt.len() && 0 <= k < rebuilt[a].edges.len()
                        ==> #[trigger] rebuilt[a].edges[k] < self.edges.len(),
                forall|a: int, k: int|
                    0 <= a < first.len() && 0 <= k < first[a].edges.len()
                        ==> #[trigger] first[a].edges[k] < self.edges.len(),
            decreases first.len(),
        {
            let ghost before = first@;
            let mut node = first.remove(0);
            assert(node == before[0]);
            assert(forall|k: int|
                0 <= k < node.edges.len() ==> #[trigger] node.edges[k] < self.edges.len()) by {
                assert forall|k: int| 0 <= k < node.edges.len() implies #[trigger] node.edges[k]
                    < self.edges.len() by {
                    assert(before[0].edges[k] < self.edges.len());
                }
            }
            assert forall|a: int, k: int|
                0 <= a < first.len() && 0 <= k < first[a].edges.len()
                    implies #[trigger] first[a].edges[k] < self.edges.len() by {
                assert(first[a] == before[a + 1]);
                assert(before[a + 1].edges[k] < self.edges.len());
            }
            if i == from || i == to {
                node.edges.push(index);
            }
            let ghost done = rebuilt@;
            rebuilt.push(node);
            assert forall|a: int, k: int|
                0 <= a < rebuilt.len() && 0 <= k < rebuilt[a].edges.len()
                    implies #[trigger] rebuilt[a].edges[k] < self.edges.len() by {
                if a < done.len() {
                    assert(rebuilt[a] == done[a]);
                }
            }
            assert(first@ =~= mid.subrange(i + 1, n as int));
            assert(before[0] == mid[i as int]);
            i = i + 1;
        }
        self.nodes = rebuilt;
        proof {
            let after = old(self)@.with_edge(from, to, directed, data.0, data.1@);
            assert(self@.nodes =~= after.nodes);
            assert(self@.edges =~= after.edges);
            assert(self@.incident =~= after.incident);
        }
    }

    /// The nodes.
    pub fn nodes(&self) -> (r: &Vec<Node>)
        ensures
            r.len() == self.node_count(),
            forall|i: int|
                0 <= i < r.len() ==> (#[trigger] r[i]).data@ == self@.nodes[i] && r[i].edges@
                    == self@.incident[i],
    {
        &self.nodes
    }

    /// The edges.
    pub fn edges(&self) -> (r: &Vec<Edge>)
        ensures
            r.len() == self.edge_count(),
            forall|e: int| 0 <= e < r.len() ==> edge_view(#[trigger] r[e]) == self@.edges[e],
            self.wf() ==> forall|e: int|
                0 <= e < r.len() ==> (#[trigger] r[e]).vertices.0 < self.node_count()
                    && r[e].vertices.1 < self.node_count(),
    {
        &self.edges
    }

    /// The node with the number `index`.
    pub fn node(&self, index: usize) -> (r: &Node)
        requires
            index < self.node_count(),
        ensures
            r.data@ == self@.nodes[index as int],
            r.edges@ == self@.incident[index as int],
            self@.incident.len() == self@.nodes.len(),
            self.wf() ==> forall|k: int|
                0 <= k < r.edges.len() ==> #[trigger] r.edges[k] < self.edge_count(),
    {
        &self.nodes[index]
    }

    /// The edge with the number `index`.
    pub fn edge(&self, index: usize) -> (r: &Edge)
        requires
            index < self.edge_count(),
        ensures
            edge_view(*r) == self@.edges[index as int],
            self.wf() ==> r.vertices.0 < self.node_count() && r.vertices.1 < self.node_count(),
    {
        &self.edges[index]
    }

    /// For each node the number of nodes that carry less.
    fn node_ranks(&self) -> (r: Vec<usize>)
        ensures
            r.len() == self.nodes.len(),
            all_below(r@, self.nodes.len() as int),
    {
        let n: usize = self.nodes.len();
        let mut out: Vec<usize> = Vec::new();
        let mut i: usize = 0;
        while i < n
            invariant
                i <= n,
                n == self.nodes.len(),
                out.len() == i,
                all_below(out@, n as int),
            decreases n - i,
        {
            let mut count: usize = 0;
            let mut j: usize = 0;
            while j < n
                invariant
                    j <= n,
                    i < n,
                    n == self.nodes.len(),
                    count <= j,
                    j > i ==> count < j,
                decreases n - j,
            {
                if j != i {
                    if compare(&self.nodes[j].data, &self.nodes[i].data) == Order::Less {
                        count = count + 1;
                    }
                }
                j = j + 1;
            }
            out.push(count);
            i = i + 1;
        }
        out
    }

    /// For each edge the number of edges that carry less.
    fn edge_ranks(&self) -> (r: Vec<usize>)
        ensures
            r.len() == self.edges.len(),
    {
        let m: usize = self.edges.len();
        let mut out: Vec<usize> = Vec::new();
        let mut i: usize = 0;
        while i < m
            invariant
                i <= m,
                m == self.edges.len(),
                out.len() == i,
            decreases m - i,
        {
            let mut count: usize = 0;
            let mut j: usize = 0;
            while j < m
                invariant
                    j <= m,
                    i < m,
                    m == self.edges.len(),
                    count <= j,
                decreases m - j,
            {
                let a = &self.edges[j];
                let b = &self.edges[i];
                let by_number = compare_usize(a.data.0, b.data.0);
                let o = if by_number != Order::Equal {
                    by_number
                } else {
                    compare(&a.data.1, &b.data.1)
                };
                if o == Order::Less {
                    count = count + 1;
                }
                j = j + 1;
            }
            out.push(count);
            i = i + 1;
        }
        out
    }

    /// What tells the node `i` apart: its colour, then for each of its
    /// edges the kind of the edge, what it carries and the colour at its
    /// other end, in order.
    fn signature(&self, labels: &Vec<usize>, colors: &Vec<usize>, i: usize) -> (r: Vec<usize>)
        requires
            self.wf(),
            i < self.nodes.len(),
            labels.len() == self.edges.len(),
            colors.len() == self.nodes.len(),
        ensures
            r@ == signature_of(self@, labels@, colors@, i as int),
    {
        let mut entries: Vec<Vec<usize>> = Vec::new();
        let mut e: usize = 0;
        assert(rows(entries@) =~= Seq::<Seq<usize>>::empty());
        while e < self.edges.len()
            invariant
                e <= self.edges.len(),
                self.wf(),
                i < self.nodes.len(),
                labels.len() == self.edges.len(),
                colors.len() == self.nodes.len(),
                rows(entries@) == entries_of(self@.edges, labels@, colors@, i as int, e as nat),
            decreases self.edges.len() - e,
        {
            let edge = &self.edges[e];
            let from = edge.vertices.0;
            let to = edge.vertices.1;
            assert(self.edges[e as int].vertices.0 < self.nodes.len());
            assert(self@.edges[e as int] == edge_view(self.edges[e as int]));
            if from == i {
                let mut entry: Vec<usize> = Vec::new();
                entry.push(if edge.directed {
                    1
                } else {
                    0
                });
                entry.push(labels[e]);
                entry.push(colors[to]);
                let ghost before = entries@;
                entries.push(entry);
                assert(entry@ =~= leaving_entry(self@.edges[e as int], labels@[e as int], colors@));
                assert(rows(entries@) =~= rows(before).push(entry@));
            }
            if to == i {
                let mut entry: Vec<usize> = Vec::new();
                entry.push(if edge.directed {
                    2
                } else {
                    0
                });
                entry.push(labels[e]);
                entry.push(colors[from]);
                let ghost before = entries@;
                entries.push(entry);
                assert(entry@ =~= arriving_entry(
                    self@.edges[e as int],
                    labels@[e as int],
                    colors@,
                ));
                assert(rows(entries@) =~= rows(before).push(entry@));
            }
            e = e + 1;
        }
        let sorted = sort_keys(&entries);
        let mut out: Vec<usize> = Vec::new();
        out.push(colors[i]);
        let mut k: usize = 0;
        assert(out@ =~= seq![colors@[i as int]] + flat(rows(sorted@), 0));
        while k < sorted.len()
            invariant
                k <= sorted.len(),
                i < colors.len(),
                out@ == seq![colors@[i as int]] + flat(rows(sorted@), k as nat),
            decreases sorted.len() - k,
        {
            let mut t: usize = 0;
            let ghost before = out@;
            assert(out@ =~= before + sorted[k as int]@.take(0));
            while t < sorted[k as usize].len()
                invariant
                    k < sorted.len(),
                    t <= sorted[k as int].len(),
                    out@ == before + sorted[k as int]@.take(t as int),
                decreases sorted[k as int].len() - t,
            {
                out.push(sorted[k][t]);
                assert(out@ =~= before + sorted[k as int]@.take(t + 1));
                t = t + 1;
            }
            assert(sorted[k as int]@.take(t as int) =~= sorted[k as int]@);
            assert(rows(sorted@)[k as int] == sorted[k as int]@);
            assert(out@ =~= seq![colors@[i as int]] + flat(rows(sorted@), (k + 1) as nat));
            k = k + 1;
        }
        out
    }

    /// The colours after the nodes have been told apart by their edges, as
    /// far as that goes.
    fn refine(&self, labels: &Vec<usize>, colors: Vec<usize>) -> (r: Vec<usize>)
        requires
            self.wf(),
            labels.len() == self.edges.len(),
            colors.len() == self.nodes.len(),
        ensures
            r.len() == self.nodes.len(),
            all_below(r@, self.nodes.len() as int) || r@ == colors@,
            r@ == refined(self@, labels@, colors@, self.nodes.len() as nat),
    {
        let n: usize = self.nodes.len();
        let mut current = colors;
        let mut round: usize = 0;
        while round < n
            invariant_except_break
                refined(self@, labels@, colors@, n as nat) == refined(
                    self@,
                    labels@,
                    current@,
                    (n - round) as nat,
                ),
            invariant
                round <= n,
                n == self.nodes.len(),
                self.wf(),
                labels.len() == self.edges.len(),
                current.len() == n,
                all_below(current@, n as int) || current@ == colors@,
            ensures
                current@ == refined(self@, labels@, colors@, n as nat),
            decreases n - round,
        {
            let mut signatures: Vec<Vec<usize>> = Vec::new();
            let mut i: usize = 0;
            while i < n
                invariant
                    i <= n,
                    n == self.nodes.len(),
                    self.wf(),
                    labels.len() == self.edges.len(),
                    current.len() == n,
                    signatures.len() == i,
                    forall|k: int|
                        0 <= k < i ==> (#[trigger] signatures[k])@ == signature_of(
                            self@,
                            labels@,
                            current@,
                            k,
                        ),
                decreases n - i,
            {
                signatures.push(self.signature(labels, &current, i));
                i = i + 1;
            }
            assert(rows(signatures@) =~= signatures_of(self@, labels@, current@));
            let next = ranks(&signatures);
            let before = count_distinct(&current);
            let after = count_distinct(&next);
            current = next;
            if after == before {
                break;
            }
            round = round + 1;
        }
        current
    }

    /// The numbering under which each node takes the place of its colour,
    /// nodes of one colour in the order in which they stand.
    fn numbering(colors: &Vec<usize>) -> (r: Vec<usize>)
        ensures
            r.len() == colors.len(),
            all_below(r@, colors.len() as int),
    {
        let mut keys: Vec<Vec<usize>> = Vec::new();
        let mut i: usize = 0;
        while i < colors.len()
            invariant
                i <= colors.len(),
                keys.len() == i,
            decreases colors.len() - i,
        {
            let mut key: Vec<usize> = Vec::new();
            key.push(colors[i]);
            keys.push(key);
            i = i + 1;
        }
        places(&keys)
    }

    /// The edges under the numbering `number`, each as its two ends, its
    /// kind and what it carries, in order.
    fn encoding(&self, labels: &Vec<usize>, number: &Vec<usize>) -> (r: Vec<Vec<usize>>)
        requires
            self.wf(),
            labels.len() == self.edges.len(),
            number.len() == self.nodes.len(),
        ensures
            r.len() == self.edges.len(),
    {
        let keys = self.edge_keys(labels, number);
        sort_keys(&keys)
    }

    fn edge_keys(&self, labels: &Vec<usize>, number: &Vec<usize>) -> (r: Vec<Vec<usize>>)
        requires
            self.wf(),
            labels.len() == self.edges.len(),
            number.len() == self.nodes.len(),
        ensures
            r.len() == self.edges.len(),
            forall|e: int| 0 <= e < r.len() ==> (#[trigger] r[e]).len() == 4,
            forall|e: int|
                0 <= e < r.len() ==> (#[trigger] r[e])[0] == if self.edges[e].directed
                    || number[self.edges[e].vertices.0 as int]
                    <= number[self.edges[e].vertices.1 as int] {
                    number[self.edges[e].vertices.0 as int]
                } else {
                    number[self.edges[e].vertices.1 as int]
                },
            forall|e: int|
                0 <= e < r.len() ==> (#[trigger] r[e])[1] == if self.edges[e].directed
                    || number[self.edges[e].vertices.0 as int]
                    <= number[self.edges[e].vertices.1 as int] {
                    number[self.edges[e].vertices.1 as int]
                } else {
                    number[self.edges[e].vertices.0 as int]
                },
    {
        let mut keys: Vec<Vec<usize>> = Vec::new();
        let mut e: usize = 0;
        while e < self.edges.len()
            invariant
                e <= self.edges.len(),
                self.wf(),
                labels.len() == self.edges.len(),
                number.len() == self.nodes.len(),
                keys.len() == e,
                forall|k: int| 0 <= k < keys.len() ==> (#[trigger] keys[k]).len() == 4,
                forall|k: int|
                    0 <= k < keys.len() ==> (#[trigger] keys[k])[0] == if self.edges[k].directed
                        || number[self.edges[k].vertices.0 as int]
                        <= number[self.edges[k].vertices.1 as int] {
                        number[self.edges[k].vertices.0 as int]
                    } else {
                        number[self.edges[k].vertices.1 as int]
                    },
                forall|k: int|
                    0 <= k < keys.len() ==> (#[trigger] keys[k])[1] == if self.edges[k].directed
                        || number[self.edges[k].vertices.0 as int]
                        <= number[self.edges[k].vertices.1 as int] {
                        number[self.edges[k].vertices.1 as int]
                    } else {
                        number[self.edges[k].vertices.0 as int]
                    },
            decreases self.edges.len() - e,
        {
            let edge = &self.edges[e];
            assert(self.edges[e as int].vertices.0 < self.nodes.len());
            let a = number[edge.vertices.0];
            let b = number[edge.vertices.1];
            let mut key: Vec<usize> = Vec::new();
            if edge.directed || a <= b {
                key.push(a);
                key.push(b);
            } else {
                key.push(b);
                key.push(a);
            }
            key.push(if edge.directed {
                1
            } else {
                0
            });
            key.push(labels[e]);
            keys.push(key);
            e = e + 1;
        }
        keys
    }

    /// Looks for the numbering with the least list of edges among those
    /// that the colours `colors` allow, and returns it if it beats `best`.
    fn search(&self, labels: &Vec<usize>, colors: Vec<usize>, fuel: usize, best: Option<Numbering>)
        -> (r: Numbering)
        requires
            self.wf(),
            labels.len() == self.edges.len(),
            colors.len() == self.nodes.len(),
            best is Some ==> best->0.number.len() == self.nodes.len() && all_below(
                best->0.number@,
                self.nodes.len() as int,
            ),
        ensures
            r.number.len() == self.nodes.len(),
            all_below(r.number@, self.nodes.len() as int),
        decreases fuel,
    {
        let n: usize = self.nodes.len();
        let refined = self.refine(labels, colors);
        let shared = first_shared(&refined);
        if shared.is_none() || fuel == 0 {
            return self.leaf(labels, &refined, best);
        }
        let cell = shared.unwrap();
        let mut found = best;
        let mut v: usize = 0;
        while v < n
            invariant
                v <= n,
                n == self.nodes.len(),
                self.wf(),
                labels.len() == self.edges.len(),
                refined.len() == n,
                fuel > 0,
                found is Some ==> found->0.number.len() == n && all_below(
                    found->0.number@,
                    n as int,
                ),
            decreases n - v,
        {
            if refined[v] == cell {
                let mut next: Vec<usize> = Vec::new();
                let mut u: usize = 0;
                while u < n
                    invariant
                        u <= n,
                        refined.len() == n,
                        next.len() == u,
                    decreases n - u,
                {
                    let c = refined[u];
                    if u != v && c == cell && c < usize::MAX {
                        next.push(c + 1);
                    } else {
                        next.push(c);
                    }
                    u = u + 1;
                }
                found = Some(self.search(labels, next, fuel - 1, found));
            }
            v = v + 1;
        }
        match found {
            Some(numbering) => numbering,
            None => self.leaf(labels, &refined, None),
        }
    }

    /// The numbering that the colours `colors` give, if its list of edges
    /// is less than that of `best`, and `best` otherwise.
    fn leaf(&self, labels: &Vec<usize>, colors: &Vec<usize>, best: Option<Numbering>) -> (r:
        Numbering)
        requires
            self.wf(),
            labels.len() == self.edges.len(),
            colors.len() == self.nodes.len(),
            best is Some ==> best->0.number.len() == self.nodes.len() && all_below(
                best->0.number@,
                self.nodes.len() as int,
            ),
        ensures
            r.number.len() == self.nodes.len(),
            all_below(r.number@, self.nodes.len() as int),
    {
        let number = Graph::numbering(colors);
        let code = self.encoding(labels, &number);
        match best {
            Some(known) => {
                if compare_key_lists(&code, &known.code) == Order::Less {
                    Numbering { code, number }
                } else {
                    known
                }
            },
            None => Numbering { code, number },
        }
    }

    /// The canonical form of the graph: the new number of each node, and
    /// the graph under those numbers, its edges in order. An undirected edge
    /// names its end with the lower number first.
    pub fn canonize(&self) -> (r: (Vec<usize>, Graph))
        requires
            self.wf(),
        ensures
            r.0.len() == self.node_count(),
            all_below(r.0@, self.node_count() as int),
            r.1.wf(),
            r.1.node_count() == self.node_count(),
            r.1.edge_count() == self.edge_count(),
    {
        let n: usize = self.nodes.len();
        let labels = self.edge_ranks();
        let colors = self.node_ranks();
        let number = self.search(&labels, colors, n, None).number;
        let mut out = Graph::new();
        let mut k: usize = 0;
        while k < n
            invariant
                k <= n,
                n == self.nodes.len(),
                number.len() == n,
                out.wf(),
                out.node_count() == k,
                out.edge_count() == 0,
            decreases n - k,
        {
            let mut data = Atom::Num(0);
            let mut i: usize = 0;
            while i < n
                invariant
                    i <= n,
                    n == self.nodes.len(),
                    number.len() == n,
                decreases n - i,
            {
                if number[i] == k {
                    data = clone_atom(&self.nodes[i].data);
                }
                i = i + 1;
            }
            out.add_node(data);
            k = k + 1;
        }
        let keys = self.edge_keys(&labels, &number);
        let place = places(&keys);
        let m: usize = self.edges.len();
        let mut p: usize = 0;
        while p < m
            invariant
                p <= m,
                m == self.edges.len(),
                n == self.nodes.len(),
                self.wf(),
                number.len() == n,
                all_below(number@, n as int),
                keys.len() == m,
                place.len() == m,
                forall|e: int| 0 <= e < keys.len() ==> (#[trigger] keys[e]).len() == 4,
                forall|e: int|
                    0 <= e < keys.len() ==> (#[trigger] keys[e])[0] == if self.edges[e].directed
                        || number[self.edges[e].vertices.0 as int]
                        <= number[self.edges[e].vertices.1 as int] {
                        number[self.edges[e].vertices.0 as int]
                    } else {
                        number[self.edges[e].vertices.1 as int]
                    },
                forall|e: int|
                    0 <= e < keys.len() ==> (#[trigger] keys[e])[1] == if self.edges[e].directed
                        || number[self.edges[e].vertices.0 as int]
                        <= number[self.edges[e].vertices.1 as int] {
                        number[self.edges[e].vertices.1 as int]
                    } else {
                        number[self.edges[e].vertices.0 as int]
                    },
                out.wf(),
                out.node_count() == n,
                out.edge_count() == p,
            decreases m - p,
        {
            let mut chosen: usize = p;
            let mut e: usize = 0;
            while e < m
                invariant
                    e <= m,
                    p < m,
                    chosen < m,
                    place.len() == m,
                decreases m - e,
            {
                if place[e] == p {
                    chosen = e;
                }
                e = e + 1;
            }
            let edge = &self.edges[chosen];
            assert(self.edges[chosen as int].vertices.0 < n);
            assert(keys[chosen as int].len() == 4);
            let from = keys[chosen][0];
            let to = keys[chosen][1];
            assert(number[self.edges[chosen as int].vertices.0 as int] < n);
            assert(number[self.edges[chosen as int].vertices.1 as int] < n);
            out.add_edge(from, to, edge.directed, (edge.data.0, clone_atom(&edge.data.1)));
            p = p + 1;
        }
        (number, out)
    }
}

} // verus!

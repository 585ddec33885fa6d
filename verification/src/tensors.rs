//! Canonical forms of products of tensors.
//!
//! A tensor is written as a function whose arguments are its indices. An
//! index that occurs twice in a product is contracted, and its name does not
//! matter: the canonical form names the contracted indices anew, so that two
//! products that differ in those names alone become the same expression.

use crate::atom::{
    clone_atom, clone_atoms, contains_atom, first_place, is_normal_form,
    lemma_normal_form_is_unique, lemma_terms, lemma_terms_pushed, make_add, make_fun, make_mul,
    occurs_in, place, position, same_atom, terms, Atom, Symbol, Term,
};
use crate::graph::{Graph, GraphView};
use crate::printing::{printed, push_atom};
use crate::state::State;
use vstd::prelude::*;

verus! {

/// A borrowed expression.
#[derive(Clone, Copy, Debug)]
pub struct AtomView<'a> {
    pub atom: &'a Atom,
}

/// A variable on its own.
#[derive(Debug)]
pub struct InlineVar {
    atom: Atom,
}

impl View for InlineVar {
    type V = Term;

    closed spec fn view(&self) -> Term {
        self.atom@
    }
}

impl InlineVar {
    /// The variable with the name `symbol`.
    pub fn new(symbol: Symbol) -> (r: InlineVar)
        ensures
            r@ == Term::Var(symbol),
    {
        InlineVar { atom: Atom::Var(symbol) }
    }

    /// The variable as a borrowed expression.
    pub fn as_view(&self) -> (r: AtomView<'_>)
        ensures
            r.atom@ == self@,
    {
        AtomView { atom: &self.atom }
    }
}

/// The message for a list of groups that does not match the indices.
pub open spec fn group_mismatch() -> Seq<char> {
    "Index group must have the same length as contracted indices"@
}

/// The message for a tensor under a power that is no positive number.
pub open spec fn positive_powers_only() -> Seq<char> {
    "Only tensors raised to positive powers are supported"@
}

/// The message for an antisymmetric function that holds a contracted index.
pub open spec fn no_antisymmetric() -> Seq<char> {
    "Antisymmetric functions are not supported yet"@
}

/// The message for a sum inside a product that holds a contracted index.
pub open spec fn no_nested_additions() -> Seq<char> {
    "Nested additions containing contracted indices is not supported"@
}

/// The message for an index that is met an odd number of times: it names
/// the index by its text.
pub open spec fn not_contracted(index: Seq<char>) -> Seq<char> {
    "Index "@ + index + " is not contracted"@
}

/// The message for a contraction for which no index of its group is free.
pub open spec fn none_left() -> Seq<char> {
    "No index is left for a contraction"@
}

/// Whether one of `needles` occurs in `a`.
pub open spec fn any_occurs(a: Term, needles: Seq<Term>) -> bool {
    exists|i: int| 0 <= i < needles.len() && occurs_in(a, #[trigger] needles[i])
}

/// Whether one of `args` is one of `indices`.
pub open spec fn holds_index(args: Seq<Term>, indices: Seq<Term>) -> bool {
    exists|i: int| 0 <= i < args.len() && indices.contains(#[trigger] args[i])
}

/// The reason for which a product of tensors has no graph, if there is
/// one: the first that is met when the product is walked from left to
/// right. What holds no contracted index is never a reason.
pub open spec fn graph_error(a: Term, indices: Seq<Term>) -> Option<Seq<char>>
    decreases a, 0nat,
{
    match a {
        Term::Num(_) | Term::Var(_) => None,
        Term::Pow(b, e) => if !any_occurs(*b, indices) {
            None
        } else {
            match *e {
                Term::Num(n) if n > 0 => graph_error(*b, indices),
                _ => Some(positive_powers_only()),
            }
        },
        Term::Fun(symbol, args) => if holds_index(args, indices) && !symbol.symmetric && args.len()
            != 1 && symbol.antisymmetric {
            Some(no_antisymmetric())
        } else {
            None
        },
        Term::Mul(v) => factors_error(v, indices, 0),
        Term::Add(_) => if any_occurs(a, indices) {
            Some(no_nested_additions())
        } else {
            None
        },
    }
}

/// The first reason among the factors from the index `from` on.
pub open spec fn factors_error(v: Seq<Term>, indices: Seq<Term>, from: nat) -> Option<Seq<char>>
    decreases v, v.len() - from,
{
    if from >= v.len() {
        None
    } else {
        match graph_error(v[from as int], indices) {
            Some(m) => Some(m),
            None => factors_error(v, indices, from + 1),
        }
    }
}

/// Where no factor from `from` on gives a reason, none of them has one.
pub proof fn lemma_none_fails(v: Seq<Term>, indices: Seq<Term>, from: nat, k: int)
    requires
        factors_error(v, indices, from) is None,
        from <= k < v.len(),
    ensures
        graph_error(v[k], indices) is None,
    decreases v.len() - from,
{
    if from < k {
        lemma_none_fails(v, indices, from + 1, k);
    }
}

/// A list, `times` times over.
pub open spec fn repeated(s: Seq<Term>, times: int) -> Seq<Term>
    decreases times,
{
    if times <= 0 {
        Seq::empty()
    } else {
        repeated(s, times - 1) + s
    }
}

/// What of the product `a` holds no contracted index and is left as it
/// is, in the order in which it is met.
pub open spec fn left_alone(a: Term, indices: Seq<Term>) -> Seq<Term>
    decreases a, 0nat,
{
    match a {
        Term::Num(_) | Term::Var(_) => seq![a],
        Term::Pow(b, e) => if !any_occurs(*b, indices) {
            seq![a]
        } else {
            match *e {
                Term::Num(n) if n > 0 => repeated(left_alone(*b, indices), n),
                _ => Seq::empty(),
            }
        },
        Term::Fun(_, args) => if holds_index(args, indices) {
            Seq::empty()
        } else {
            seq![a]
        },
        Term::Mul(v) => left_alone_among(v, indices, v.len()),
        Term::Add(_) => if any_occurs(a, indices) {
            Seq::empty()
        } else {
            seq![a]
        },
    }
}

/// What is left as it is of the first `n` factors.
pub open spec fn left_alone_among(v: Seq<Term>, indices: Seq<Term>, n: nat) -> Seq<Term>
    decreases v, n,
{
    if n == 0 || n > v.len() {
        Seq::empty()
    } else {
        left_alone_among(v, indices, (n - 1) as nat) + left_alone(v[n - 1], indices)
    }
}

/// Whether a function of the product `a` holds a contracted index.
pub open spec fn touches(a: Term, indices: Seq<Term>) -> bool
    decreases a, 0nat,
{
    match a {
        Term::Num(_) | Term::Var(_) | Term::Add(_) => false,
        Term::Pow(b, e) => any_occurs(*b, indices) && match *e {
            Term::Num(n) if n > 0 => touches(*b, indices),
            _ => false,
        },
        Term::Fun(_, args) => holds_index(args, indices),
        Term::Mul(v) => touches_among(v, indices, v.len()),
    }
}

/// Whether a function of one of the first `n` factors holds a contracted
/// index.
pub open spec fn touches_among(v: Seq<Term>, indices: Seq<Term>, n: nat) -> bool
    decreases v, n,
{
    if n == 0 || n > v.len() {
        false
    } else {
        touches_among(v, indices, (n - 1) as nat) || touches(v[n - 1], indices)
    }
}

/// What is touched among the first factors is touched among more of them.
pub proof fn lemma_touches_among(v: Seq<Term>, indices: Seq<Term>, n: nat, m: nat)
    requires
        n <= m <= v.len(),
        touches_among(v, indices, n),
    ensures
        touches_among(v, indices, m),
    decreases m,
{
    if n < m {
        lemma_touches_among(v, indices, n, (m - 1) as nat);
    }
}

/// Whether the graph and the indices that wait for their second meeting
/// are what they were.
pub open spec fn untouched(
    before: &Graph,
    after: &Graph,
    waiting_before: Seq<Option<usize>>,
    waiting_after: Seq<Option<usize>>,
) -> bool {
    &&& after@ == before@
    &&& waiting_after == waiting_before
}

/// Whether every node that `connections` names is a node of a graph with
/// `nodes` nodes.
pub open spec fn connected_within(connections: Seq<Option<usize>>, nodes: nat) -> bool {
    forall|p: int|
        0 <= p < connections.len() && (#[trigger] connections[p]) is Some ==> connections[p]->0
            < nodes
}

/// A product that holds no contracted index and is in normal form is
/// returned as it is.
pub proof fn lemma_what_holds_no_index_is_returned(
    r: Result<Atom, String>,
    a: Term,
    indices: Seq<Term>,
)
    requires
        left_as_it_is(r, a, indices),
        graph_error(a, indices) is None,
        !touches(a, indices),
        is_normal_form(true, left_alone(a, indices), a),
    ensures
        r is Ok,
        r->Ok_0@ == a,
{
    lemma_normal_form_is_unique(true, left_alone(a, indices), r->Ok_0@, a);
}

/// Whether `r` fails with the message `error`, or succeeds where there is
/// none.
pub open spec fn fails_with<T>(r: Result<T, String>, error: Option<Seq<char>>) -> bool {
    match error {
        Some(m) => r is Err && r->Err_0@ == m,
        None => r is Ok,
    }
}

/// The first of the contracted indices from the place `from` on that is
/// met an odd number of times when the product `a` is walked.
pub open spec fn first_open(a: Term, indices: Seq<Term>, from: nat) -> Option<nat>
    decreases indices.len() - from,
{
    if from >= indices.len() {
        None
    } else if odd(meetings(a, indices, from as int)) {
        Some(from)
    } else {
        first_open(a, indices, from + 1)
    }
}

/// The failure that the product `a` decides by itself: the reason for
/// which it has no graph, if there is one; else the first of the contracted
/// indices that is met an odd number of times, which has no partner, named
/// by its text under `names`.
pub open spec fn product_error(a: Term, indices: Seq<Term>, names: Seq<Seq<char>>) -> Option<
    Seq<char>,
> {
    match graph_error(a, indices) {
        Some(m) => Some(m),
        None => match first_open(a, indices, 0) {
            Some(p) => Some(not_contracted(printed(indices[p as int], names))),
            None => None,
        },
    }
}

/// Whether bringing the product `a` into canonical form fails as the
/// product allows: with the failure that the product decides by itself, if
/// there is one; else not at all, or for want of a free index.
pub open spec fn product_fails<T>(
    r: Result<T, String>,
    a: Term,
    indices: Seq<Term>,
    names: Seq<Seq<char>>,
) -> bool {
    match product_error(a, indices, names) {
        Some(m) => r is Err && r->Err_0@ == m,
        None => r is Err ==> r->Err_0@ == none_left(),
    }
}

/// Whether `r` is the product of what is left as it is of `a`, in normal
/// form, where `a` has a graph and no function of it holds a contracted
/// index.
pub open spec fn left_as_it_is(r: Result<Atom, String>, a: Term, indices: Seq<Term>) -> bool {
    graph_error(a, indices) is None && !touches(a, indices) ==> r is Ok && is_normal_form(
        true,
        left_alone(a, indices),
        r->Ok_0@,
    )
}

/// The first failure that a term from the place `from` on decides by
/// itself.
pub open spec fn terms_error(v: Seq<Term>, indices: Seq<Term>, names: Seq<Seq<char>>, from: nat)
    -> Option<Seq<char>>
    decreases v.len() - from,
{
    if from >= v.len() {
        None
    } else {
        match product_error(v[from as int], indices, names) {
            Some(m) => Some(m),
            None => terms_error(v, indices, names, from + 1),
        }
    }
}

/// Whether bringing the terms of a sum into canonical form fails as the
/// terms allow: it fails where a term decides a failure by itself, and it
/// fails with the first such failure or for want of a free index.
pub open spec fn sum_fails<T>(
    r: Result<T, String>,
    v: Seq<Term>,
    indices: Seq<Term>,
    names: Seq<Seq<char>>,
) -> bool {
    match terms_error(v, indices, names, 0) {
        Some(m) => r is Err && (r->Err_0@ == m || r->Err_0@ == none_left()),
        None => r is Err ==> r->Err_0@ == none_left(),
    }
}

/// Whether each of `products` is the product of what is left as it is of
/// the term of `v` in its place, in normal form.
pub open spec fn each_left_as_it_is(products: Seq<Term>, v: Seq<Term>, indices: Seq<Term>) -> bool {
    &&& products.len() == v.len()
    &&& forall|i: int|
        0 <= i < v.len() ==> is_normal_form(
            true,
            left_alone(v[i], indices),
            #[trigger] products[i],
        )
}

/// Whether `sum` is the sum, in normal form, of `products`, and these are
/// the products of what is left as it is of the terms `v`.
pub open spec fn sum_of(products: Seq<Term>, v: Seq<Term>, indices: Seq<Term>, sum: Term) -> bool {
    is_normal_form(false, products, sum) && each_left_as_it_is(products, v, indices)
}

/// Whether `r` is the sum of the terms `v`, each brought into canonical
/// form as a product, where each of them has a graph and no function of
/// them holds a contracted index.
pub open spec fn sum_left_as_it_is(r: Result<Atom, String>, v: Seq<Term>, indices: Seq<Term>)
    -> bool {
    factors_error(v, indices, 0) is None && !touches_among(v, indices, v.len()) ==> r is Ok
        && exists|products: Seq<Term>| sum_of(products, v, indices, r->Ok_0@)
}

/// The expressions behind `views`.
pub open spec fn viewed(views: Seq<AtomView>) -> Seq<Term> {
    views.map_values(|v: AtomView| v.atom@)
}

/// Whether `r` is a result of bringing `a` into canonical form: a failure
/// for groups that do not match the indices; else, for a sum, what its
/// terms allow, and for anything else what a product allows. What holds no
/// contracted index is left as it is.
pub open spec fn canonized(
    r: Result<Atom, String>,
    a: Term,
    indices: Seq<Term>,
    names: Seq<Seq<char>>,
    mismatch: bool,
) -> bool {
    if mismatch {
        r is Err && r->Err_0@ == group_mismatch()
    } else {
        match a {
            Term::Add(v) => sum_fails(r, v, indices, names) && sum_left_as_it_is(r, v, indices),
            _ => product_fails(r, a, indices, names) && left_as_it_is(r, a, indices),
        }
    }
}

fn failure<T>(message: &str) -> (r: Result<T, String>)
    ensures
        r is Err,
        r->Err_0@ == message@,
{
    Err(message.to_owned())
}

/// Copies of the expressions behind `views`.
fn atoms_of(views: &[AtomView]) -> (r: Vec<Atom>)
    ensures
        r.len() == views.len(),
        terms(r) == viewed(views@),
{
    let mut out: Vec<Atom> = Vec::new();
    let mut i: usize = 0;
    while i < views.len()
        invariant
            i <= views.len(),
            out.len() == i,
            forall|k: int| 0 <= k < i ==> (#[trigger] out[k])@ == views[k].atom@,
        decreases views.len() - i,
    {
        out.push(clone_atom(views[i].atom));
        i = i + 1;
    }
    proof {
        lemma_terms(out, out.len() as nat);
        assert(terms(out) =~= viewed(views@));
    }
    out
}

/// Whether one of `needles` occurs in `a`.
fn contains_any(a: &Atom, needles: &Vec<Atom>) -> (r: bool)
    ensures
        r == any_occurs(a@, terms(*needles)),
{
    proof {
        lemma_terms(*needles, needles.len() as nat);
    }
    let mut i: usize = 0;
    while i < needles.len()
        invariant
            i <= needles.len(),
            terms(*needles).len() == needles.len(),
            forall|k: int|
                0 <= k < needles.len() ==> #[trigger] terms(*needles)[k] == needles[k]@,
            forall|k: int| 0 <= k < i ==> !occurs_in(a@, #[trigger] terms(*needles)[k]),
        decreases needles.len() - i,
    {
        if contains_atom(a, &needles[i]) {
            assert(occurs_in(a@, terms(*needles)[i as int]));
            return true;
        }
        i = i + 1;
    }
    false
}

/// Whether one of `args` is one of `indices`.
fn any_index(args: &Vec<Atom>, indices: &Vec<Atom>) -> (r: bool)
    ensures
        r == holds_index(terms(*args), terms(*indices)),
{
    proof {
        lemma_terms(*args, args.len() as nat);
        lemma_terms(*indices, indices.len() as nat);
    }
    let mut i: usize = 0;
    while i < args.len()
        invariant
            i <= args.len(),
            terms(*args).len() == args.len(),
            terms(*indices).len() == indices.len(),
            forall|k: int| 0 <= k < args.len() ==> #[trigger] terms(*args)[k] == args[k]@,
            forall|k: int| 0 <= k < indices.len() ==> #[trigger] terms(*indices)[k] == indices[k]@,
            forall|k: int| 0 <= k < i ==> !terms(*indices).contains(#[trigger] terms(*args)[k]),
        decreases args.len() - i,
    {
        match position(indices, &args[i]) {
            Some(p) => {
                assert(terms(*indices)[p as int] == terms(*args)[i as int]);
                return true;
            },
            None => {
                assert(!terms(*indices).contains(terms(*args)[i as int])) by {
                    if terms(*indices).contains(terms(*args)[i as int]) {
                        let j = choose|j: int|
                            0 <= j < terms(*indices).len() && terms(*indices)[j] == terms(
                                *args,
                            )[i as int];
                        assert(indices[j]@ == args[i as int]@);
                    }
                }
            },
        }
        i = i + 1;
    }
    false
}

/// The group of the index at `p`: the one that `groups` gives it, or zero
/// where it gives none.
pub open spec fn group_at(groups: Option<Vec<Atom>>, p: int) -> Term {
    match groups {
        Some(g) => if 0 <= p < g.len() {
            g[p]@
        } else {
            Term::Num(0)
        },
        None => Term::Num(0),
    }
}

/// Whether the index at `p` can take the place of an index of the group
/// `group`: always where no groups are given, and else where `groups`
/// gives it that group.
pub open spec fn in_group(groups: Option<Vec<Atom>>, p: int, group: Term) -> bool {
    match groups {
        Some(g) => 0 <= p < g.len() && g[p]@ == group,
        None => true,
    }
}

/// What an edge for the index at `p` carries: its group, or zero where no
/// groups are given.
fn group_of(groups: &Option<Vec<Atom>>, p: usize) -> (r: Atom)
    ensures
        r@ == group_at(*groups, p as int),
{
    match groups {
        Some(g) => if p < g.len() {
            clone_atom(&g[p])
        } else {
            Atom::Num(0)
        },
        None => Atom::Num(0),
    }
}

/// A graph under construction: the graph, and for each contracted index
/// the node at which it has been met once and waits for its second meeting.
pub ghost struct Build {
    pub graph: GraphView,
    pub waiting: Seq<Option<usize>>,
}

/// The construction after the index at `p` has been met at the node
/// `node`: an index that waited at a node is joined to it by an undirected
/// edge that carries the group of the index, and waits no more; any other
/// index waits at `node` from now on.
pub open spec fn met(b: Build, p: int, node: usize, groups: Option<Vec<Atom>>) -> Build {
    match b.waiting[p] {
        Some(other) => Build {
            graph: b.graph.with_edge(node, other, false, 0, group_at(groups, p)),
            waiting: b.waiting.update(p, None),
        },
        None => Build { graph: b.graph, waiting: b.waiting.update(p, Some(node)) },
    }
}

/// Meets the index at `p` at the node `node`: the first meeting is
/// remembered, the second joins the two nodes by an edge.
fn connect(
    p: usize,
    node: usize,
    groups: &Option<Vec<Atom>>,
    connections: &mut Vec<Option<usize>>,
    g: &mut Graph,
)
    requires
        old(g).wf(),
        p < old(connections).len(),
        node < old(g).node_count(),
        connected_within(old(connections)@, old(g).node_count()),
    ensures
        final(g).wf(),
        final(g).node_count() == old(g).node_count(),
        final(connections).len() == old(connections).len(),
        connected_within(final(connections)@, final(g).node_count()),
        (Build { graph: final(g)@, waiting: final(connections)@ }) == met(
            Build { graph: old(g)@, waiting: old(connections)@ },
            p as int,
            node,
            *groups,
        ),
{
    match connections[p] {
        Some(other) => {
            g.add_edge(node, other, false, (0, group_of(groups, p)));
            connections.set(p, None);
        },
        None => {
            connections.set(p, Some(node));
        },
    }
}

/// Those of the first `n` arguments that are no contracted indices.
pub open spec fn kept_args(args: Seq<Term>, indices: Seq<Term>, n: nat) -> Seq<Term>
    decreases n,
{
    if n == 0 || n > args.len() {
        Seq::empty()
    } else if place(indices, args[n - 1]) is None {
        kept_args(args, indices, (n - 1) as nat).push(args[n - 1])
    } else {
        kept_args(args, indices, (n - 1) as nat)
    }
}

/// The construction after those of the first `n` arguments that are
/// contracted indices have been met at the node `node`, in order.
pub open spec fn met_all(
    b: Build,
    args: Seq<Term>,
    indices: Seq<Term>,
    groups: Option<Vec<Atom>>,
    node: usize,
    n: nat,
) -> Build
    decreases n,
{
    if n == 0 || n > args.len() {
        b
    } else {
        let before = met_all(b, args, indices, groups, node, (n - 1) as nat);
        match place(indices, args[n - 1]) {
            Some(p) => met(before, p as int, node, groups),
            None => before,
        }
    }
}

/// The construction after a function has become one node: the node carries
/// the function with the arguments that are no contracted indices, and
/// each argument that is one is met at the node.
pub open spec fn as_one_node(
    b: Build,
    symbol: Symbol,
    args: Seq<Term>,
    indices: Seq<Term>,
    groups: Option<Vec<Atom>>,
) -> Build {
    met_all(
        Build {
            graph: b.graph.with_node(Term::Fun(symbol, kept_args(args, indices, args.len()))),
            waiting: b.waiting,
        },
        args,
        indices,
        groups,
        b.graph.nodes.len() as usize,
        args.len(),
    )
}

/// The construction after the slot `i` of a function has become a node of
/// its own. A slot that holds a contracted index becomes an empty node at
/// which the index is met, any other a node that holds the argument; each
/// slot but the first is reached from the slot before it by a directed
/// edge, which carries the place of the slot unless the function is
/// symmetric under cyclic shifts.
pub open spec fn with_slot(
    b: Build,
    symbol: Symbol,
    args: Seq<Term>,
    indices: Seq<Term>,
    groups: Option<Vec<Atom>>,
    i: int,
) -> Build {
    let node = b.graph.nodes.len() as usize;
    let placed = match place(indices, args[i]) {
        Some(p) => met(
            Build {
                graph: b.graph.with_node(Term::Fun(symbol, Seq::empty())),
                waiting: b.waiting,
            },
            p as int,
            node,
            groups,
        ),
        None => Build {
            graph: b.graph.with_node(Term::Fun(symbol, seq![args[i]])),
            waiting: b.waiting,
        },
    };
    if i == 0 {
        placed
    } else {
        Build {
            graph: placed.graph.with_edge(
                (node - 1) as usize,
                node,
                true,
                if symbol.cyclesymmetric {
                    0
                } else {
                    i as usize
                },
                Term::Num(0),
            ),
            waiting: placed.waiting,
        }
    }
}

/// The construction after the first `n` slots of a function have become
/// nodes.
pub open spec fn with_slots(
    b: Build,
    symbol: Symbol,
    args: Seq<Term>,
    indices: Seq<Term>,
    groups: Option<Vec<Atom>>,
    n: nat,
) -> Build
    decreases n,
{
    if n == 0 || n > args.len() {
        b
    } else {
        with_slot(
            with_slots(b, symbol, args, indices, groups, (n - 1) as nat),
            symbol,
            args,
            indices,
            groups,
            n - 1,
        )
    }
}

/// The construction after a function has become one node for each of its
/// slots: for a function that is symmetric under cyclic shifts a last
/// directed edge leads from the last slot back to the first.
pub open spec fn as_slots(
    b: Build,
    symbol: Symbol,
    args: Seq<Term>,
    indices: Seq<Term>,
    groups: Option<Vec<Atom>>,
) -> Build {
    let slots = with_slots(b, symbol, args, indices, groups, args.len());
    if symbol.cyclesymmetric {
        Build {
            graph: slots.graph.with_edge(
                (b.graph.nodes.len() + args.len() - 1) as usize,
                b.graph.nodes.len() as usize,
                true,
                0,
                Term::Num(0),
            ),
            waiting: slots.waiting,
        }
    } else {
        slots
    }
}

/// The construction after the product `a` has been walked: each function
/// that holds a contracted index becomes one node where it is symmetric or
/// has one argument, and one node for each slot otherwise; a power of a
/// positive whole number is walked that many times; what holds no
/// contracted index leaves the construction as it is.
pub open spec fn built(b: Build, a: Term, indices: Seq<Term>, groups: Option<Vec<Atom>>) -> Build
    decreases a, 0nat,
{
    match a {
        Term::Num(_) | Term::Var(_) | Term::Add(_) => b,
        Term::Pow(base, e) => if !any_occurs(*base, indices) {
            b
        } else {
            match *e {
                Term::Num(n) if n > 0 => built_times(b, *base, indices, groups, n),
                _ => b,
            }
        },
        Term::Fun(symbol, args) => if !holds_index(args, indices) {
            b
        } else if symbol.symmetric || args.len() == 1 {
            as_one_node(b, symbol, args, indices, groups)
        } else if symbol.antisymmetric || args.len() == 0 {
            b
        } else {
            as_slots(b, symbol, args, indices, groups)
        },
        Term::Mul(v) => built_among(b, v, indices, groups, v.len()),
    }
}

/// The construction after the product `a` has been walked `times` times.
pub open spec fn built_times(
    b: Build,
    a: Term,
    indices: Seq<Term>,
    groups: Option<Vec<Atom>>,
    times: int,
) -> Build
    decreases a, (if times > 0 { times + 1 } else { 1 }) as nat,
{
    if times <= 0 {
        b
    } else {
        built(built_times(b, a, indices, groups, times - 1), a, indices, groups)
    }
}

/// The construction after the first `n` factors have been walked.
pub open spec fn built_among(
    b: Build,
    v: Seq<Term>,
    indices: Seq<Term>,
    groups: Option<Vec<Atom>>,
    n: nat,
) -> Build
    decreases v, n,
{
    if n == 0 || n > v.len() {
        b
    } else {
        built(built_among(b, v, indices, groups, (n - 1) as nat), v[n - 1], indices, groups)
    }
}

/// Whether the index at `p` has been met once and waits for its second
/// meeting.
pub open spec fn waits(b: Build, p: int) -> bool {
    b.waiting[p] is Some
}

/// Whether a number is odd.
pub open spec fn odd(n: nat) -> bool {
    n % 2 == 1
}

/// How often the index at `p` stands among the first `n` arguments.
pub open spec fn meetings_in(args: Seq<Term>, indices: Seq<Term>, p: int, n: nat) -> nat
    decreases n,
{
    if n == 0 || n > args.len() {
        0
    } else if place(indices, args[n - 1]) == Some(p as nat) {
        meetings_in(args, indices, p, (n - 1) as nat) + 1
    } else {
        meetings_in(args, indices, p, (n - 1) as nat)
    }
}

/// How often the index at `p` is met when the product `a` is walked: how
/// often it stands as an argument of a function of the product, a function
/// under a power counting as often as the power says.
pub open spec fn meetings(a: Term, indices: Seq<Term>, p: int) -> nat
    decreases a, 0nat,
{
    match a {
        Term::Num(_) | Term::Var(_) | Term::Add(_) => 0,
        Term::Pow(base, e) => if !any_occurs(*base, indices) {
            0
        } else {
            match *e {
                Term::Num(n) if n > 0 => meetings_times(*base, indices, p, n),
                _ => 0,
            }
        },
        Term::Fun(_, args) => meetings_in(args, indices, p, args.len()),
        Term::Mul(v) => meetings_among(v, indices, p, v.len()),
    }
}

/// How often the index at `p` is met when the product `a` is walked
/// `times` times.
pub open spec fn meetings_times(a: Term, indices: Seq<Term>, p: int, times: int) -> nat
    decreases a, (if times > 0 { times + 1 } else { 1 }) as nat,
{
    if times <= 0 {
        0
    } else {
        meetings_times(a, indices, p, times - 1) + meetings(a, indices, p)
    }
}

/// How often the index at `p` is met when the first `n` factors are
/// walked.
pub open spec fn meetings_among(v: Seq<Term>, indices: Seq<Term>, p: int, n: nat) -> nat
    decreases v, n,
{
    if n == 0 || n > v.len() {
        0
    } else {
        meetings_among(v, indices, p, (n - 1) as nat) + meetings(v[n - 1], indices, p)
    }
}

/// A place that is found lies within the list, and holds what was looked
/// for; nothing is found only where the list does not hold it.
pub proof fn lemma_place(s: Seq<Term>, a: Term, from: nat)
    ensures
        match first_place(s, a, from) {
            Some(q) => from <= q < s.len() && s[q as int] == a,
            None => forall|k: int| from <= k < s.len() ==> s[k] != a,
        },
    decreases s.len() - from,
{
    if from < s.len() && s[from as int] != a {
        lemma_place(s, a, from + 1);
    }
}

/// A meeting changes whether the index that is met waits, and leaves every
/// other index as it is.
pub proof fn lemma_met(b: Build, q: int, node: usize, groups: Option<Vec<Atom>>, p: int)
    requires
        0 <= q < b.waiting.len(),
        0 <= p < b.waiting.len(),
    ensures
        met(b, q, node, groups).waiting.len() == b.waiting.len(),
        waits(met(b, q, node, groups), p) == (waits(b, p) != (p == q)),
{
}

/// After the index arguments among the first `n` have been met, an index
/// waits where it waited before and was met an even number of times, or did
/// not wait and was met an odd number of times.
pub proof fn lemma_met_all(
    b: Build,
    args: Seq<Term>,
    indices: Seq<Term>,
    groups: Option<Vec<Atom>>,
    node: usize,
    n: nat,
    p: int,
)
    requires
        n <= args.len(),
        b.waiting.len() == indices.len(),
        0 <= p < indices.len(),
    ensures
        met_all(b, args, indices, groups, node, n).waiting.len() == indices.len(),
        waits(met_all(b, args, indices, groups, node, n), p) == (waits(b, p) != odd(
            meetings_in(args, indices, p, n),
        )),
    decreases n,
{
    if n > 0 {
        lemma_met_all(b, args, indices, groups, node, (n - 1) as nat, p);
        let before = met_all(b, args, indices, groups, node, (n - 1) as nat);
        lemma_place(indices, args[n - 1], 0);
        match place(indices, args[n - 1]) {
            Some(q) => {
                lemma_met(before, q as int, node, groups, p);
            },
            None => {},
        }
    }
}

/// The same for the slots of a function.
pub proof fn lemma_with_slots(
    b: Build,
    symbol: Symbol,
    args: Seq<Term>,
    indices: Seq<Term>,
    groups: Option<Vec<Atom>>,
    n: nat,
    p: int,
)
    requires
        n <= args.len(),
        b.waiting.len() == indices.len(),
        0 <= p < indices.len(),
    ensures
        with_slots(b, symbol, args, indices, groups, n).waiting.len() == indices.len(),
        waits(with_slots(b, symbol, args, indices, groups, n), p) == (waits(b, p) != odd(
            meetings_in(args, indices, p, n),
        )),
    decreases n,
{
    if n > 0 {
        lemma_with_slots(b, symbol, args, indices, groups, (n - 1) as nat, p);
        let before = with_slots(b, symbol, args, indices, groups, (n - 1) as nat);
        lemma_place(indices, args[n - 1], 0);
        match place(indices, args[n - 1]) {
            Some(q) => {
                let fresh = Build {
                    graph: before.graph.with_node(Term::Fun(symbol, Seq::empty())),
                    waiting: before.waiting,
                };
                lemma_met(fresh, q as int, before.graph.nodes.len() as usize, groups, p);
            },
            None => {},
        }
    }
}

/// After a product has been walked, an index waits where it waited before
/// and was met an even number of times, or did not wait and was met an odd
/// number of times.
pub proof fn lemma_built(
    b: Build,
    a: Term,
    indices: Seq<Term>,
    groups: Option<Vec<Atom>>,
    p: int,
)
    requires
        graph_error(a, indices) is None,
        b.waiting.len() == indices.len(),
        0 <= p < indices.len(),
    ensures
        built(b, a, indices, groups).waiting.len() == indices.len(),
        waits(built(b, a, indices, groups), p) == (waits(b, p) != odd(meetings(a, indices, p))),
    decreases a, 0nat,
{
    match a {
        Term::Num(_) | Term::Var(_) | Term::Add(_) => {},
        Term::Pow(base, e) => {
            if any_occurs(*base, indices) {
                match *e {
                    Term::Num(n) if n > 0 => {
                        lemma_built_times(b, *base, indices, groups, n, p);
                    },
                    _ => {},
                }
            }
        },
        Term::Fun(symbol, args) => {
            if !holds_index(args, indices) {
                lemma_no_meetings(args, indices, p, args.len());
            } else if symbol.symmetric || args.len() == 1 {
                let fresh = Build {
                    graph: b.graph.with_node(
                        Term::Fun(symbol, kept_args(args, indices, args.len())),
                    ),
                    waiting: b.waiting,
                };
                lemma_met_all(
                    fresh,
                    args,
                    indices,
                    groups,
                    b.graph.nodes.len() as usize,
                    args.len(),
                    p,
                );
            } else if args.len() > 0 {
                lemma_with_slots(b, symbol, args, indices, groups, args.len(), p);
            }
        },
        Term::Mul(v) => {
            lemma_built_among(b, v, indices, groups, v.len(), p);
        },
    }
}

/// Arguments of which none is a contracted index meet no index.
pub proof fn lemma_no_meetings(args: Seq<Term>, indices: Seq<Term>, p: int, n: nat)
    requires
        !holds_index(args, indices),
        n <= args.len(),
    ensures
        meetings_in(args, indices, p, n) == 0,
    decreases n,
{
    if n > 0 {
        lemma_no_meetings(args, indices, p, (n - 1) as nat);
        lemma_place(indices, args[n - 1], 0);
        if place(indices, args[n - 1]) is Some {
            assert(indices.contains(args[n - 1]));
        }
    }
}

/// The same for a product that is walked several times.
pub proof fn lemma_built_times(
    b: Build,
    a: Term,
    indices: Seq<Term>,
    groups: Option<Vec<Atom>>,
    times: int,
    p: int,
)
    requires
        graph_error(a, indices) is None,
        b.waiting.len() == indices.len(),
        0 <= p < indices.len(),
    ensures
        built_times(b, a, indices, groups, times).waiting.len() == indices.len(),
        waits(built_times(b, a, indices, groups, times), p) == (waits(b, p) != odd(
            meetings_times(a, indices, p, times),
        )),
    decreases a, (if times > 0 { times + 1 } else { 1 }) as nat,
{
    if times > 0 {
        lemma_built_times(b, a, indices, groups, times - 1, p);
        lemma_built(built_times(b, a, indices, groups, times - 1), a, indices, groups, p);
    }
}

/// The same for the factors of a product.
pub proof fn lemma_built_among(
    b: Build,
    v: Seq<Term>,
    indices: Seq<Term>,
    groups: Option<Vec<Atom>>,
    n: nat,
    p: int,
)
    requires
        factors_error(v, indices, 0) is None,
        n <= v.len(),
        b.waiting.len() == indices.len(),
        0 <= p < indices.len(),
    ensures
        built_among(b, v, indices, groups, n).waiting.len() == indices.len(),
        waits(built_among(b, v, indices, groups, n), p) == (waits(b, p) != odd(
            meetings_among(v, indices, p, n),
        )),
    decreases v, n,
{
    if n > 0 {
        lemma_built_among(b, v, indices, groups, (n - 1) as nat, p);
        lemma_none_fails(v, indices, 0, n - 1);
        let before = built_among(b, v, indices, groups, (n - 1) as nat);
        lemma_built(before, v[n - 1], indices, groups, p);
    }
}

/// A symmetric function, or one of a single argument, becomes one node that
/// keeps the arguments that are no contracted indices.
fn symmetric_to_graph(
    symbol: Symbol,
    args: &Vec<Atom>,
    indices: &Vec<Atom>,
    groups: &Option<Vec<Atom>>,
    connections: &mut Vec<Option<usize>>,
    g: &mut Graph,
)
    requires
        old(g).wf(),
        old(connections).len() == indices.len(),
        connected_within(old(connections)@, old(g).node_count()),
    ensures
        final(g).wf(),
        final(g).node_count() >= old(g).node_count(),
        final(connections).len() == indices.len(),
        connected_within(final(connections)@, final(g).node_count()),
        (Build { graph: final(g)@, waiting: final(connections)@ }) == as_one_node(
            Build { graph: old(g)@, waiting: old(connections)@ },
            symbol,
            terms(*args),
            terms(*indices),
            *groups,
        ),
{
    proof {
        lemma_terms(*args, args.len() as nat);
        lemma_terms(*indices, indices.len() as nat);
    }
    let mut kept: Vec<Atom> = Vec::new();
    let mut i: usize = 0;
    proof {
        lemma_terms(kept, 0);
        assert(terms(kept) =~= Seq::<Term>::empty());
    }
    while i < args.len()
        invariant
            i <= args.len(),
            terms(*args).len() == args.len(),
            forall|k: int| 0 <= k < args.len() ==> #[trigger] terms(*args)[k] == args[k]@,
            terms(kept) == kept_args(terms(*args), terms(*indices), i as nat),
        decreases args.len() - i,
    {
        assert(terms(*args)[i as int] == args[i as int]@);
        if position(indices, &args[i]).is_none() {
            let ghost before = kept;
            let copy = clone_atom(&args[i]);
            kept.push(copy);
            proof {
                lemma_terms_pushed(before, kept, copy);
            }
        }
        i = i + 1;
    }
    proof {
        lemma_terms(kept, kept.len() as nat);
    }
    let ghost start = Build {
        graph: old(g)@.with_node(
            Term::Fun(symbol, kept_args(terms(*args), terms(*indices), args.len() as nat)),
        ),
        waiting: old(connections)@,
    };
    let node = g.add_node(Atom::Fun { symbol, args: kept });
    let mut k: usize = 0;
    while k < args.len()
        invariant
            k <= args.len(),
            g.wf(),
            node < g.node_count(),
            node == old(g)@.nodes.len(),
            g.node_count() == old(g).node_count() + 1,
            connections.len() == indices.len(),
            connected_within(connections@, g.node_count()),
            terms(*args).len() == args.len(),
            terms(*indices).len() == indices.len(),
            forall|j: int| 0 <= j < args.len() ==> #[trigger] terms(*args)[j] == args[j]@,
            (Build { graph: g@, waiting: connections@ }) == met_all(
                start,
                terms(*args),
                terms(*indices),
                *groups,
                node,
                k as nat,
            ),
        decreases args.len() - k,
    {
        assert(terms(*args)[k as int] == args[k as int]@);
        if let Some(p) = position(indices, &args[k]) {
            connect(p, node, groups, connections, g);
        }
        k = k + 1;
    }
}

/// Any other function becomes one node for each of its slots, joined in
/// order by directed edges; for a function that is symmetric under cyclic
/// shifts the last slot leads back to the first.
fn slots_to_graph(
    symbol: Symbol,
    args: &Vec<Atom>,
    indices: &Vec<Atom>,
    groups: &Option<Vec<Atom>>,
    connections: &mut Vec<Option<usize>>,
    g: &mut Graph,
)
    requires
        old(g).wf(),
        args.len() > 0,
        old(connections).len() == indices.len(),
        connected_within(old(connections)@, old(g).node_count()),
    ensures
        final(g).wf(),
        final(g).node_count() >= old(g).node_count(),
        final(connections).len() == indices.len(),
        connected_within(final(connections)@, final(g).node_count()),
        (Build { graph: final(g)@, waiting: final(connections)@ }) == as_slots(
            Build { graph: old(g)@, waiting: old(connections)@ },
            symbol,
            terms(*args),
            terms(*indices),
            *groups,
        ),
{
    proof {
        lemma_terms(*args, args.len() as nat);
    }
    let ghost start = Build { graph: old(g)@, waiting: old(connections)@ };
    let cyclic = symbol.cyclesymmetric;
    let mut first: usize = 0;
    let mut previous: usize = 0;
    let mut i: usize = 0;
    while i < args.len()
        invariant
            i <= args.len(),
            g.wf(),
            g.node_count() == old(g).node_count() + i,
            i > 0 ==> first == old(g).node_count() && previous == old(g).node_count() + i - 1,
            connections.len() == indices.len(),
            connected_within(connections@, g.node_count()),
            cyclic == symbol.cyclesymmetric,
            terms(*args).len() == args.len(),
            forall|j: int| 0 <= j < args.len() ==> #[trigger] terms(*args)[j] == args[j]@,
            (Build { graph: g@, waiting: connections@ }) == with_slots(
                start,
                symbol,
                terms(*args),
                terms(*indices),
                *groups,
                i as nat,
            ),
        decreases args.len() - i,
    {
        assert(terms(*args)[i as int] == args[i as int]@);
        let found = position(indices, &args[i]);
        let node = match found {
            Some(p) => {
                let empty: Vec<Atom> = Vec::new();
                proof {
                    lemma_terms(empty, 0);
                    assert(terms(empty) =~= Seq::<Term>::empty());
                }
                let node = g.add_node(Atom::Fun { symbol, args: empty });
                connect(p, node, groups, connections, g);
                node
            },
            None => {
                let mut held: Vec<Atom> = Vec::new();
                let copy = clone_atom(&args[i]);
                held.push(copy);
                proof {
                    lemma_terms(held, 1);
                    lemma_terms(held, 0);
                    assert(terms(held) =~= seq![args[i as int]@]);
                }
                g.add_node(Atom::Fun { symbol, args: held })
            },
        };
        if i == 0 {
            first = node;
        } else {
            let label: usize = if cyclic {
                0
            } else {
                i
            };
            g.add_edge(previous, node, true, (label, Atom::Num(0)));
        }
        previous = node;
        i = i + 1;
    }
    if cyclic {
        g.add_edge(previous, first, true, (0, Atom::Num(0)));
    }
}

/// Puts a copy of `a` at the end of `remainder`.
fn keep(remainder: &mut Vec<Atom>, a: &Atom)
    ensures
        terms(*final(remainder)) == terms(*old(remainder)) + seq![a@],
{
    let copy = clone_atom(a);
    remainder.push(copy);
    proof {
        lemma_terms_pushed(*old(remainder), *remainder, copy);
        assert(terms(*old(remainder)).push(a@) =~= terms(*old(remainder)) + seq![a@]);
    }
}

/// Builds the graph of a product of tensors. Each tensor becomes nodes of
/// `g`, each contracted index an edge; what holds no contracted index goes
/// to `remainder`.
pub(crate) fn tensor_to_graph(
    a: &Atom,
    indices: &Vec<Atom>,
    groups: &Option<Vec<Atom>>,
    connections: &mut Vec<Option<usize>>,
    g: &mut Graph,
    remainder: &mut Vec<Atom>,
) -> (r: Result<(), String>)
    requires
        old(g).wf(),
        old(connections).len() == indices.len(),
        connected_within(old(connections)@, old(g).node_count()),
    ensures
        final(g).wf(),
        final(g).node_count() >= old(g).node_count(),
        final(connections).len() == indices.len(),
        connected_within(final(connections)@, final(g).node_count()),
        fails_with(r, graph_error(a@, terms(*indices))),
        r is Ok ==> terms(*final(remainder)) == terms(*old(remainder)) + left_alone(
            a@,
            terms(*indices),
        ),
        !touches(a@, terms(*indices)) ==> untouched(
            old(g),
            final(g),
            old(connections)@,
            final(connections)@,
        ),
        r is Ok ==> (Build { graph: final(g)@, waiting: final(connections)@ }) == built(
            Build { graph: old(g)@, waiting: old(connections)@ },
            a@,
            terms(*indices),
            *groups,
        ),
    decreases a, 0nat,
{
    match a {
        Atom::Num(_) | Atom::Var(_) => {
            keep(remainder, a);
            Ok(())
        },
        Atom::Pow(b, e) => {
            if !contains_any(b, indices) {
                keep(remainder, a);
                return Ok(());
            }
            assert(a@ == Term::Pow(Box::new((**b)@), Box::new((**e)@)));
            match &**e {
                Atom::Num(n) => {
                    if *n > 0 {
                        repeat_to_graph(b, *n, indices, groups, connections, g, remainder)
                    } else {
                        failure("Only tensors raised to positive powers are supported")
                    }
                },
                _ => {
                    assert(!((**e)@ is Num));
                    failure("Only tensors raised to positive powers are supported")
                },
            }
        },
        Atom::Fun { symbol, args } => {
            proof {
                lemma_terms(*args, args.len() as nat);
            }
            if !any_index(args, indices) {
                keep(remainder, a);
                return Ok(());
            }
            proof {
                assert(terms(*remainder) + Seq::<Term>::empty() =~= terms(*remainder));
            }
            if symbol.symmetric || args.len() == 1 {
                symmetric_to_graph(*symbol, args, indices, groups, connections, g);
                Ok(())
            } else if symbol.antisymmetric {
                failure("Antisymmetric functions are not supported yet")
            } else {
                if args.len() > 0 {
                    slots_to_graph(*symbol, args, indices, groups, connections, g);
                }
                Ok(())
            }
        },
        Atom::Mul(v) => {
            proof {
                lemma_terms(*v, v.len() as nat);
            }
            factors_to_graph(v, indices, groups, connections, g, remainder)
        },
        Atom::Add(_) => {
            if !contains_any(a, indices) {
                keep(remainder, a);
                Ok(())
            } else {
                failure("Nested additions containing contracted indices is not supported")
            }
        },
    }
}

fn repeat_to_graph(
    b: &Atom,
    times: i64,
    indices: &Vec<Atom>,
    groups: &Option<Vec<Atom>>,
    connections: &mut Vec<Option<usize>>,
    g: &mut Graph,
    remainder: &mut Vec<Atom>,
) -> (r: Result<(), String>)
    requires
        old(g).wf(),
        old(connections).len() == indices.len(),
        connected_within(old(connections)@, old(g).node_count()),
    ensures
        final(g).wf(),
        final(g).node_count() >= old(g).node_count(),
        final(connections).len() == indices.len(),
        connected_within(final(connections)@, final(g).node_count()),
        times > 0 ==> fails_with(r, graph_error(b@, terms(*indices))),
        times <= 0 ==> r is Ok,
        r is Ok ==> terms(*final(remainder)) == terms(*old(remainder)) + repeated(
            left_alone(b@, terms(*indices)),
            times as int,
        ),
        !touches(b@, terms(*indices)) ==> untouched(
            old(g),
            final(g),
            old(connections)@,
            final(connections)@,
        ),
        r is Ok ==> (Build { graph: final(g)@, waiting: final(connections)@ }) == built_times(
            Build { graph: old(g)@, waiting: old(connections)@ },
            b@,
            terms(*indices),
            *groups,
            times as int,
        ),
    decreases b, 1nat,
{
    let mut k: i64 = 0;
    proof {
        assert(terms(*remainder) + Seq::<Term>::empty() =~= terms(*remainder));
    }
    while k < times
        invariant
            0 <= k,
            times > 0 ==> k <= times,
            times <= 0 ==> k == 0,
            g.wf(),
            g.node_count() >= old(g).node_count(),
            connections.len() == indices.len(),
            connected_within(connections@, g.node_count()),
            k > 0 ==> graph_error(b@, terms(*indices)) is None,
            terms(*remainder) == terms(*old(remainder)) + repeated(
                left_alone(b@, terms(*indices)),
                k as int,
            ),
            !touches(b@, terms(*indices)) ==> untouched(old(g), g, old(connections)@, connections@),
            (Build { graph: g@, waiting: connections@ }) == built_times(
                Build { graph: old(g)@, waiting: old(connections)@ },
                b@,
                terms(*indices),
                *groups,
                k as int,
            ),
        decreases times - k,
    {
        let ghost so_far = repeated(left_alone(b@, terms(*indices)), k as int);
        assert((terms(*old(remainder)) + so_far) + left_alone(b@, terms(*indices)) =~= terms(
            *old(remainder),
        ) + (so_far + left_alone(b@, terms(*indices))));
        match tensor_to_graph(b, indices, groups, connections, g, remainder) {
            Ok(_) => {},
            Err(e) => {
                return Err(e);
            },
        }
        k = k + 1;
    }
    assert(repeated(left_alone(b@, terms(*indices)), k as int) =~= repeated(
        left_alone(b@, terms(*indices)),
        times as int,
    ));
    Ok(())
}

fn factors_to_graph(
    v: &Vec<Atom>,
    indices: &Vec<Atom>,
    groups: &Option<Vec<Atom>>,
    connections: &mut Vec<Option<usize>>,
    g: &mut Graph,
    remainder: &mut Vec<Atom>,
) -> (r: Result<(), String>)
    requires
        old(g).wf(),
        old(connections).len() == indices.len(),
        connected_within(old(connections)@, old(g).node_count()),
    ensures
        final(g).wf(),
        final(g).node_count() >= old(g).node_count(),
        final(connections).len() == indices.len(),
        connected_within(final(connections)@, final(g).node_count()),
        fails_with(r, factors_error(terms(*v), terms(*indices), 0)),
        r is Ok ==> terms(*final(remainder)) == terms(*old(remainder)) + left_alone_among(
            terms(*v),
            terms(*indices),
            v.len() as nat,
        ),
        !touches_among(terms(*v), terms(*indices), v.len() as nat) ==> untouched(
            old(g),
            final(g),
            old(connections)@,
            final(connections)@,
        ),
        r is Ok ==> (Build { graph: final(g)@, waiting: final(connections)@ }) == built_among(
            Build { graph: old(g)@, waiting: old(connections)@ },
            terms(*v),
            terms(*indices),
            *groups,
            v.len() as nat,
        ),
    decreases v, 1nat,
{
    proof {
        lemma_terms(*v, v.len() as nat);
        assert(terms(*remainder) + Seq::<Term>::empty() =~= terms(*remainder));
    }
    let mut i: usize = 0;
    while i < v.len()
        invariant
            i <= v.len(),
            g.wf(),
            g.node_count() >= old(g).node_count(),
            connections.len() == indices.len(),
            connected_within(connections@, g.node_count()),
            terms(*v).len() == v.len(),
            forall|k: int| 0 <= k < v.len() ==> #[trigger] terms(*v)[k] == v[k]@,
            factors_error(terms(*v), terms(*indices), 0) == factors_error(
                terms(*v),
                terms(*indices),
                i as nat,
            ),
            terms(*remainder) == terms(*old(remainder)) + left_alone_among(
                terms(*v),
                terms(*indices),
                i as nat,
            ),
            !touches_among(terms(*v), terms(*indices), i as nat) ==> untouched(
                old(g),
                g,
                old(connections)@,
                connections@,
            ),
            (Build { graph: g@, waiting: connections@ }) == built_among(
                Build { graph: old(g)@, waiting: old(connections)@ },
                terms(*v),
                terms(*indices),
                *groups,
                i as nat,
            ),
        decreases v.len() - i,
    {
        assert(terms(*v)[i as int] == v[i as int]@);
        let ghost so_far = left_alone_among(terms(*v), terms(*indices), i as nat);
        assert((terms(*old(remainder)) + so_far) + left_alone(v[i as int]@, terms(*indices))
            =~= terms(*old(remainder)) + (so_far + left_alone(v[i as int]@, terms(*indices))));
        proof {
            if touches_among(terms(*v), terms(*indices), (i + 1) as nat) {
                lemma_touches_among(terms(*v), terms(*indices), (i + 1) as nat, v.len() as nat);
            }
        }
        match tensor_to_graph(&v[i], indices, groups, connections, g, remainder) {
            Ok(_) => {},
            Err(e) => {
                return Err(e);
            },
        }
        i = i + 1;
    }
    Ok(())
}

/// A function under assembly: its symbol, its arguments so far, and whether
/// it still waits to be put into the product.
struct Assembly {
    open: bool,
    symbol: Option<Symbol>,
    args: Vec<Atom>,
}

/// The first index that is free and belongs to the group `group`.
fn first_free(used: &Vec<bool>, groups: &Option<Vec<Atom>>, group: &Atom) -> (r: Option<usize>)
    ensures
        match r {
            Some(p) => {
                &&& p < used.len()
                &&& !used[p as int]
                &&& in_group(*groups, p as int, group@)
                &&& forall|q: int|
                    0 <= q < p ==> #[trigger] used[q] || !in_group(*groups, q, group@)
            },
            None => forall|q: int|
                0 <= q < used.len() ==> #[trigger] used[q] || !in_group(*groups, q, group@),
        },
{
    let mut p: usize = 0;
    while p < used.len()
        invariant
            p <= used.len(),
            forall|q: int| 0 <= q < p ==> #[trigger] used[q] || !in_group(*groups, q, group@),
        decreases used.len() - p,
    {
        if !used[p] {
            let fits = match groups {
                Some(g) => p < g.len() && same_atom(&g[p], group),
                None => true,
            };
            if fits {
                return Some(p);
            }
        }
        p = p + 1;
    }
    None
}

/// Whether the edge at the place `k` among those that touch the node
/// `node` is a directed edge that leads to the node.
pub open spec fn arrives(g: GraphView, node: int, k: int) -> bool {
    let e = g.edges[g.incident[node][k] as int];
    e.directed && e.to == node
}

/// Whether the edge at the place `k` among those that touch the node
/// `node` is a directed edge that leads away from the node.
pub open spec fn leaves(g: GraphView, node: int, k: int) -> bool {
    let e = g.edges[g.incident[node][k] as int];
    e.directed && e.from == node
}

/// Whether a directed edge leads to the node `node`.
pub open spec fn is_reached(g: GraphView, node: int) -> bool {
    exists|k: int| 0 <= k < g.incident[node].len() && arrives(g, node, k)
}

/// The node to which the first directed edge from the node `node` leads,
/// among the edges that touch the node from the place `from` on.
pub open spec fn next_node(g: GraphView, node: int, from: nat) -> Option<usize>
    decreases g.incident[node].len() - from,
{
    if from >= g.incident[node].len() {
        None
    } else if leaves(g, node, from as int) {
        Some(g.edges[g.incident[node][from as int] as int].to)
    } else {
        next_node(g, node, from + 1)
    }
}

/// Whether a directed edge leads to the node `node` of `g`.
fn has_incoming(g: &Graph, node: usize) -> (r: bool)
    requires
        g.wf(),
        node < g.node_count(),
    ensures
        r == is_reached(g@, node as int),
{
    let incident = &g.node(node).edges;
    let mut k: usize = 0;
    while k < incident.len()
        invariant
            k <= incident.len(),
            g.wf(),
            incident@ == g@.incident[node as int],
            forall|t: int| 0 <= t < incident.len() ==> #[trigger] incident[t] < g.edge_count(),
            forall|t: int| 0 <= t < k ==> !arrives(g@, node as int, t),
        decreases incident.len() - k,
    {
        let e = g.edge(incident[k]);
        if e.directed && e.vertices.1 == node {
            assert(arrives(g@, node as int, k as int));
            return true;
        }
        k = k + 1;
    }
    false
}

/// The node that the directed edge from `node` leads to, if there is one.
fn successor(g: &Graph, node: usize) -> (r: Option<usize>)
    requires
        g.wf(),
        node < g.node_count(),
    ensures
        r == next_node(g@, node as int, 0),
        r is Some ==> r->0 < g.node_count(),
{
    let incident = &g.node(node).edges;
    let mut k: usize = 0;
    while k < incident.len()
        invariant
            k <= incident.len(),
            g.wf(),
            incident@ == g@.incident[node as int],
            forall|t: int| 0 <= t < incident.len() ==> #[trigger] incident[t] < g.edge_count(),
            next_node(g@, node as int, 0) == next_node(g@, node as int, k as nat),
        decreases incident.len() - k,
    {
        let e = g.edge(incident[k]);
        if e.directed && e.vertices.0 == node {
            return Some(e.vertices.1);
        }
        k = k + 1;
    }
    None
}

/// An assembly as the model sees it.
ghost struct AssemblyView {
    open: bool,
    symbol: Option<Symbol>,
    args: Seq<Term>,
}

/// The model of an assembly.
spec fn assembly_view(a: Assembly) -> AssemblyView {
    AssemblyView { open: a.open, symbol: a.symbol, args: terms(a.args) }
}

/// The models of a list of assemblies.
spec fn assemblies(parts: Seq<Assembly>) -> Seq<AssemblyView> {
    parts.map_values(|a: Assembly| assembly_view(a))
}

/// An assembly after its arguments have been taken out: it is empty, and
/// waits no more.
spec fn emptied(a: AssemblyView) -> AssemblyView {
    AssemblyView { open: false, symbol: a.symbol, args: Seq::empty() }
}

/// An assembly after it has been given one more argument: it waits to be
/// put into the product.
spec fn extended(a: AssemblyView, arg: Term) -> AssemblyView {
    AssemblyView { open: true, symbol: a.symbol, args: a.args.push(arg) }
}

/// Takes the arguments out of the assembly at `index`.
fn take_args(parts: &mut Vec<Assembly>, index: usize) -> (r: Vec<Atom>)
    requires
        index < old(parts).len(),
    ensures
        final(parts).len() == old(parts).len(),
        terms(r) == assemblies(old(parts)@)[index as int].args,
        assemblies(final(parts)@) == assemblies(old(parts)@).update(
            index as int,
            emptied(assemblies(old(parts)@)[index as int]),
        ),
{
    let ghost given = parts@;
    let mut taken: Vec<Atom> = Vec::new();
    let mut rebuilt: Vec<Assembly> = Vec::new();
    let n: usize = parts.len();
    let mut i: usize = 0;
    proof {
        lemma_terms(taken, 0);
        assert(terms(taken) =~= Seq::<Term>::empty());
    }
    while parts.len() > 0
        invariant
            i + parts.len() == n,
            rebuilt.len() == i,
            n == given.len(),
            index < n,
            parts@ == given.subrange(i as int, n as int),
            i <= index ==> terms(taken) == Seq::<Term>::empty(),
            i > index ==> terms(taken) == terms(given[index as int].args),
            forall|k: int|
                0 <= k < i ==> assembly_view(#[trigger] rebuilt[k]) == if k == index {
                    emptied(assembly_view(given[k]))
                } else {
                    assembly_view(given[k])
                },
        decreases parts.len(),
    {
        let ghost before = parts@;
        let mut part = parts.remove(0);
        assert(part == given[i as int]);
        assert(parts@ =~= given.subrange(i + 1, n as int));
        if i == index {
            core::mem::swap(&mut taken, &mut part.args);
            part.open = false;
        }
        rebuilt.push(part);
        i = i + 1;
    }
    *parts = rebuilt;
    proof {
        assert(assemblies(parts@) =~= assemblies(given).update(
            index as int,
            emptied(assemblies(given)[index as int]),
        ));
    }
    taken
}

/// Adds `arg` to the arguments of the assembly at `index`.
fn add_arg(parts: &mut Vec<Assembly>, index: usize, arg: Atom)
    requires
        index < old(parts).len(),
    ensures
        final(parts).len() == old(parts).len(),
        assemblies(final(parts)@) == assemblies(old(parts)@).update(
            index as int,
            extended(assemblies(old(parts)@)[index as int], arg@),
        ),
{
    let ghost given = assemblies(parts@);
    let mut held = take_args(parts, index);
    let ghost taken = held;
    held.push(arg);
    proof {
        lemma_terms_pushed(taken, held, arg);
    }
    let ghost emptied_parts = parts@;
    let mut rebuilt: Vec<Assembly> = Vec::new();
    let n: usize = parts.len();
    let mut i: usize = 0;
    let mut pending = Some(held);
    while parts.len() > 0
        invariant
            i + parts.len() == n,
            rebuilt.len() == i,
            n == emptied_parts.len(),
            n == given.len(),
            index < n,
            parts@ == emptied_parts.subrange(i as int, n as int),
            assemblies(emptied_parts) == given.update(index as int, emptied(given[index as int])),
            i <= index ==> pending is Some && terms(pending->0) == given[index as int].args.push(
                arg@,
            ),
            forall|k: int|
                0 <= k < i ==> assembly_view(#[trigger] rebuilt[k]) == if k == index {
                    extended(given[k], arg@)
                } else {
                    given[k]
                },
        decreases parts.len(),
    {
        let mut part = parts.remove(0);
        assert(part == emptied_parts[i as int]);
        assert(assembly_view(part) == assemblies(emptied_parts)[i as int]);
        assert(parts@ =~= emptied_parts.subrange(i + 1, n as int));
        if i == index {
            if let Some(args) = pending {
                part.args = args;
                part.open = true;
            }
            pending = None;
        }
        rebuilt.push(part);
        i = i + 1;
    }
    *parts = rebuilt;
    proof {
        assert(assemblies(parts@) =~= given.update(
            index as int,
            extended(given[index as int], arg@),
        ));
    }
}

/// The canonical form of a product of tensors.
fn canonize_product(
    a: &Atom,
    indices: &Vec<Atom>,
    groups: &Option<Vec<Atom>>,
    state: &State,
) -> (r: Result<Atom, String>)
    ensures
        product_fails(r, a@, terms(*indices), state@.names),
        left_as_it_is(r, a@, terms(*indices)),
{
    let ghost plain = !touches(a@, terms(*indices));
    let ghost left = left_alone(a@, terms(*indices));
    let mut g = Graph::new();
    let mut connections: Vec<Option<usize>> = Vec::new();
    let mut c: usize = 0;
    while c < indices.len()
        invariant
            c <= indices.len(),
            connections.len() == c,
            forall|p: int| 0 <= p < connections.len() ==> (#[trigger] connections[p]) is None,
        decreases indices.len() - c,
    {
        connections.push(None);
        c = c + 1;
    }
    let mut product: Vec<Atom> = Vec::new();
    proof {
        lemma_terms(product, 0);
        lemma_terms(*indices, indices.len() as nat);
        assert(terms(product) + left =~= left);
    }
    let ghost start = Build { graph: g@, waiting: connections@ };
    let whole = AtomView { atom: a };
    match whole.tensor_to_graph_impl(indices, groups, &mut connections, &mut g, &mut product) {
        Ok(_) => {},
        Err(e) => {
            return Err(e);
        },
    }
    let mut p: usize = 0;
    while p < connections.len()
        invariant
            p <= connections.len(),
            connections.len() == indices.len(),
            terms(*indices).len() == indices.len(),
            forall|k: int| 0 <= k < indices.len() ==> #[trigger] terms(*indices)[k] == indices[k]@,
            graph_error(a@, terms(*indices)) is None,
            start.waiting.len() == indices.len(),
            forall|q: int| 0 <= q < start.waiting.len() ==> (#[trigger] start.waiting[q]) is None,
            connections@ == built(start, a@, terms(*indices), *groups).waiting,
            first_open(a@, terms(*indices), 0) == first_open(a@, terms(*indices), p as nat),
            plain == !touches(a@, terms(*indices)),
            plain ==> forall|q: int|
                0 <= q < connections.len() ==> (#[trigger] connections[q]) is None,
        decreases connections.len() - p,
    {
        proof {
            lemma_built(start, a@, terms(*indices), *groups, p as int);
            assert(!waits(start, p as int));
        }
        if connections[p].is_some() {
            let mut message = String::from_str("Index ");
            push_atom(&mut message, &indices[p], state);
            message.append(" is not contracted");
            assert(terms(*indices)[p as int] == indices[p as int]@);
            return Err(message);
        }
        p = p + 1;
    }
    let (_, gc) = g.canonize();
    let n: usize = gc.nodes().len();
    let mut parts: Vec<Assembly> = Vec::new();
    let mut i: usize = 0;
    while i < n
        invariant
            i <= n,
            n == gc.node_count(),
            parts.len() == i,
        decreases n - i,
    {
        let part = match &gc.nodes()[i].data {
            Atom::Fun { symbol, args } => Assembly {
                open: true,
                symbol: Some(*symbol),
                args: clone_atoms(args),
            },
            _ => Assembly { open: false, symbol: None, args: Vec::new() },
        };
        parts.push(part);
        i = i + 1;
    }
    // Name the contracted indices anew, edge by edge.
    let mut used: Vec<bool> = Vec::new();
    let mut u: usize = 0;
    while u < indices.len()
        invariant
            u <= indices.len(),
            used.len() == u,
        decreases indices.len() - u,
    {
        used.push(false);
        u = u + 1;
    }
    let m: usize = gc.edges().len();
    let mut e: usize = 0;
    while e < m
        invariant
            e <= m,
            m == gc.edge_count(),
            n == gc.node_count(),
            gc.wf(),
            parts.len() == n,
            used.len() == indices.len(),
            graph_error(a@, terms(*indices)) is None,
            first_open(a@, terms(*indices), 0) is None,
            plain == !touches(a@, terms(*indices)),
            plain ==> m == 0,
        decreases m - e,
    {
        let edge = gc.edge(e);
        if !edge.directed {
            match first_free(&used, groups, &edge.data.1) {
                Some(index) => {
                    used.set(index, true);
                    add_arg(&mut parts, edge.vertices.0, clone_atom(&indices[index]));
                    add_arg(&mut parts, edge.vertices.1, clone_atom(&indices[index]));
                },
                None => {
                    return failure("No index is left for a contraction");
                },
            }
        }
        e = e + 1;
    }
    // Put each function together from its nodes.
    let mut f: usize = 0;
    while f < n
        invariant
            f <= n,
            n == gc.node_count(),
            gc.wf(),
            parts.len() == n,
            left == left_alone(a@, terms(*indices)),
            plain ==> n == 0 && terms(product) == left,
        decreases n - f,
    {
        if parts[f].open {
            match parts[f].symbol {
                Some(symbol) => {
                    let cyclic = symbol.cyclesymmetric;
                    if symbol.symmetric || cyclic || !has_incoming(&gc, f) {
                        let mut args = take_args(&mut parts, f);
                        let mut position: usize = f;
                        let mut steps: usize = 0;
                        while steps < n
                            invariant
                                steps <= n,
                                n == gc.node_count(),
                                gc.wf(),
                                parts.len() == n,
                                position < n,
                                f < n,
                            decreases n - steps,
                        {
                            match successor(&gc, position) {
                                Some(next) => {
                                    if next == f {
                                        break;
                                    }
                                    let mut more = take_args(&mut parts, next);
                                    args.append(&mut more);
                                    position = next;
                                },
                                None => {
                                    break;
                                },
                            }
                            steps = steps + 1;
                        }
                        product.push(make_fun(symbol, args));
                    }
                },
                None => {},
            }
        }
        f = f + 1;
    }
    Ok(make_mul(product))
}

impl Atom {
    /// The expression, borrowed.
    pub fn as_view(&self) -> (r: AtomView<'_>)
        ensures
            r.atom == self,
    {
        AtomView { atom: self }
    }

    /// Brings the products of tensors in the expression into canonical form
    /// by naming the contracted indices anew. The tensors are functions
    /// whose arguments are their indices; `contracted_indices` lists the
    /// indices that are contracted. Where `index_group` gives a group for
    /// each index, an index is only renamed to an index of its own group.
    /// An index that is met an odd number of times has no partner: the
    /// failure names the first such index, by the name that `state` gave
    /// it.
    ///
    /// The contract says when the groups are refused, which construct stops
    /// the walk, which index is found without its partner, and what the
    /// result is where no function holds a contracted index. Of the names
    /// that the contracted indices take it says nothing.
    pub fn canonize_tensors(
        &self,
        contracted_indices: &[AtomView],
        index_group: Option<&[AtomView]>,
        state: &State,
    ) -> (r: Result<Atom, String>)
        ensures
            canonized(
                r,
                self@,
                viewed(contracted_indices@),
                state@.names,
                index_group is Some && index_group->0.len() != contracted_indices.len(),
            ),
    {
        self.as_view().canonize_tensors(contracted_indices, index_group, state)
    }
}

impl<'a> AtomView<'a> {
    /// Brings the products of tensors in the expression into canonical form
    /// by naming the contracted indices anew. A sum is brought into
    /// canonical form term by term.
    pub fn canonize_tensors(
        &self,
        contracted_indices: &[AtomView],
        index_group: Option<&[AtomView]>,
        state: &State,
    ) -> (r: Result<Atom, String>)
        ensures
            canonized(
                r,
                self.atom@,
                viewed(contracted_indices@),
                state@.names,
                index_group is Some && index_group->0.len() != contracted_indices.len(),
            ),
    {
        let groups = match index_group {
            Some(c) => {
                if c.len() != contracted_indices.len() {
                    return failure("Index group must have the same length as contracted indices");
                }
                Some(atoms_of(c))
            },
            None => None,
        };
        let indices = atoms_of(contracted_indices);
        match self.atom {
            Atom::Add(summands) => {
                let ghost v = terms(*summands);
                proof {
                    lemma_terms(*summands, summands.len() as nat);
                }
                let mut out: Vec<Atom> = Vec::new();
                let mut i: usize = 0;
                while i < summands.len()
                    invariant
                        i <= summands.len(),
                        !(index_group is Some && index_group->0.len()
                            != contracted_indices.len()),
                        terms(indices) == viewed(contracted_indices@),
                        self.atom@ == Term::Add(v),
                        v == terms(*summands),
                        v.len() == summands.len(),
                        forall|k: int| 0 <= k < summands.len() ==> #[trigger] v[k] == summands[k]@,
                        factors_error(v, terms(indices), 0) == factors_error(
                            v,
                            terms(indices),
                            i as nat,
                        ),
                        terms_error(v, terms(indices), state@.names, 0) == terms_error(
                            v,
                            terms(indices),
                            state@.names,
                            i as nat,
                        ),
                        out.len() == i,
                        forall|k: int|
                            0 <= k < i ==> left_as_it_is(
                                Ok::<Atom, String>(#[trigger] out[k]),
                                v[k],
                                terms(indices),
                            ),
                    decreases summands.len() - i,
                {
                    assert(v[i as int] == summands[i as int]@);
                    match canonize_product(&summands[i], &indices, &groups, state) {
                        Ok(t) => {
                            out.push(t);
                        },
                        Err(e) => {
                            proof {
                                if factors_error(v, terms(indices), 0) is None {
                                    lemma_none_fails(v, terms(indices), 0, i as int);
                                }
                                if touches(v[i as int], terms(indices)) {
                                    lemma_touches_among(
                                        v,
                                        terms(indices),
                                        (i + 1) as nat,
                                        v.len(),
                                    );
                                }
                            }
                            return Err(e);
                        },
                    }
                    i = i + 1;
                }
                let sum = make_add(out);
                proof {
                    lemma_terms(out, out.len() as nat);
                    if factors_error(v, terms(indices), 0) is None && !touches_among(
                        v,
                        terms(indices),
                        v.len(),
                    ) {
                        assert forall|k: int| 0 <= k < v.len() implies is_normal_form(
                            true,
                            left_alone(v[k], terms(indices)),
                            #[trigger] terms(out)[k],
                        ) by {
                            lemma_none_fails(v, terms(indices), 0, k);
                            if touches(v[k], terms(indices)) {
                                lemma_touches_among(v, terms(indices), (k + 1) as nat, v.len());
                            }
                            assert(left_as_it_is(Ok::<Atom, String>(out[k]), v[k], terms(indices)));
                        }
                        assert(sum_of(terms(out), v, terms(indices), sum@));
                        let ghost done = Ok::<Atom, String>(sum);
                        assert(done->Ok_0@ == sum@);
                        assert(sum_left_as_it_is(done, v, terms(indices)));
                    }
                }
                Ok(sum)
            },
            _ => canonize_product(self.atom, &indices, &groups, state),
        }
    }

    /// Builds the graph of a product of tensors: see [`tensor_to_graph`].
    pub(crate) fn tensor_to_graph_impl(
        &self,
        contracted_indices: &Vec<Atom>,
        index_group: &Option<Vec<Atom>>,
        connections: &mut Vec<Option<usize>>,
        g: &mut Graph,
        remainder: &mut Vec<Atom>,
    ) -> (r: Result<(), String>)
        requires
            old(g).wf(),
            old(connections).len() == contracted_indices.len(),
            connected_within(old(connections)@, old(g).node_count()),
        ensures
            final(g).wf(),
            final(g).node_count() >= old(g).node_count(),
            final(connections).len() == contracted_indices.len(),
            connected_within(final(connections)@, final(g).node_count()),
            fails_with(r, graph_error(self.atom@, terms(*contracted_indices))),
            r is Ok ==> terms(*final(remainder)) == terms(*old(remainder)) + left_alone(
                self.atom@,
                terms(*contracted_indices),
            ),
            !touches(self.atom@, terms(*contracted_indices)) ==> untouched(
                old(g),
                final(g),
                old(connections)@,
                final(connections)@,
            ),
            r is Ok ==> (Build { graph: final(g)@, waiting: final(connections)@ }) == built(
                Build { graph: old(g)@, waiting: old(connections)@ },
                self.atom@,
                terms(*contracted_indices),
                *index_group,
            ),
    {
        tensor_to_graph(self.atom, contracted_indices, index_group, connections, g, remainder)
    }
}

} // verus!

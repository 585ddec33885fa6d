//! Symbolic expressions: numbers, variables, functions, powers, products
//! and sums, with a total order on them and the constructors that keep them
//! in normal form.

use vstd::prelude::*;

verus! {

/// The result of a comparison.
#[derive(Clone, Copy, Debug, PartialEq, Eq, Structural)]
pub enum Order {
    Less,
    Equal,
    Greater,
}

/// An attribute of a function symbol.
#[derive(Clone, Copy, Debug, PartialEq, Eq, Structural)]
pub enum FunctionAttribute {
    Symmetric,
    Antisymmetric,
    Cyclesymmetric,
    Linear,
}

/// A symbol: its number in the state that made it, and its attributes.
#[derive(Clone, Copy, Debug, PartialEq, Eq, Structural)]
pub struct Symbol {
    pub id: usize,
    pub symmetric: bool,
    pub antisymmetric: bool,
    pub cyclesymmetric: bool,
    pub linear: bool,
}

impl Symbol {
    pub fn is_symmetric(&self) -> (r: bool)
        ensures
            r == self.symmetric,
    {
        self.symmetric
    }

    pub fn is_antisymmetric(&self) -> (r: bool)
        ensures
            r == self.antisymmetric,
    {
        self.antisymmetric
    }

    pub fn is_cyclesymmetric(&self) -> (r: bool)
        ensures
            r == self.cyclesymmetric,
    {
        self.cyclesymmetric
    }
}

/// An expression.
#[derive(Debug, PartialEq, Eq)]
pub enum Atom {
    Num(i64),
    Var(Symbol),
    Fun { symbol: Symbol, args: Vec<Atom> },
    Pow(Box<Atom>, Box<Atom>),
    Mul(Vec<Atom>),
    Add(Vec<Atom>),
}

/// An expression as the model sees it.
pub enum Term {
    Num(int),
    Var(Symbol),
    Fun(Symbol, Seq<Term>),
    Pow(Box<Term>, Box<Term>),
    Mul(Seq<Term>),
    Add(Seq<Term>),
}

/// The model of an expression.
pub open spec fn term_of(a: Atom) -> Term
    decreases a, 0nat,
{
    match a {
        Atom::Num(n) => Term::Num(n as int),
        Atom::Var(s) => Term::Var(s),
        Atom::Fun { symbol, args } => Term::Fun(symbol, terms_of(args, args.len() as nat)),
        Atom::Pow(b, e) => Term::Pow(Box::new(term_of(*b)), Box::new(term_of(*e))),
        Atom::Mul(v) => Term::Mul(terms_of(v, v.len() as nat)),
        Atom::Add(v) => Term::Add(terms_of(v, v.len() as nat)),
    }
}

/// The models of the first `n` expressions of a list.
pub open spec fn terms_of(v: Vec<Atom>, n: nat) -> Seq<Term>
    decreases v, n,
{
    if n == 0 || n > v.len() {
        Seq::empty()
    } else {
        terms_of(v, (n - 1) as nat).push(term_of(v[n - 1]))
    }
}

/// The models of the expressions of a list.
pub open spec fn terms(v: Vec<Atom>) -> Seq<Term> {
    terms_of(v, v.len() as nat)
}

impl View for Atom {
    type V = Term;

    open spec fn view(&self) -> Term {
        term_of(*self)
    }
}

/// The models of a list are the models of its expressions, one for one.
pub proof fn lemma_terms(v: Vec<Atom>, n: nat)
    requires
        n <= v.len(),
    ensures
        terms_of(v, n).len() == n,
        forall|i: int| 0 <= i < n ==> #[trigger] terms_of(v, n)[i] == term_of(v[i]),
    decreases n,
{
    if n > 0 {
        lemma_terms(v, (n - 1) as nat);
    }
}

/// The order of two integers.
pub open spec fn int_order(a: int, b: int) -> Order {
    if a < b {
        Order::Less
    } else if a == b {
        Order::Equal
    } else {
        Order::Greater
    }
}

/// The order of two truth values: `false` comes first.
pub open spec fn flag_order(a: bool, b: bool) -> Order {
    if a == b {
        Order::Equal
    } else if b {
        Order::Less
    } else {
        Order::Greater
    }
}

/// The order of two symbols: by their numbers, and for one number by their
/// attributes.
pub open spec fn symbol_order(s: Symbol, t: Symbol) -> Order {
    or_else(
        int_order(s.id as int, t.id as int),
        or_else(
            flag_order(s.symmetric, t.symmetric),
            or_else(
                flag_order(s.antisymmetric, t.antisymmetric),
                or_else(
                    flag_order(s.cyclesymmetric, t.cyclesymmetric),
                    flag_order(s.linear, t.linear),
                ),
            ),
        ),
    )
}

/// The place of a kind of expression among the kinds.
pub open spec fn rank(a: Term) -> int {
    match a {
        Term::Num(_) => 0,
        Term::Var(_) => 1,
        Term::Fun(_, _) => 2,
        Term::Pow(_, _) => 3,
        Term::Mul(_) => 4,
        Term::Add(_) => 5,
    }
}

/// The first of two orders that decides.
pub open spec fn or_else(first: Order, second: Order) -> Order {
    if first != Order::Equal {
        first
    } else {
        second
    }
}

/// The order of two expressions: first by kind, then by what they hold,
/// lists element by element and a shorter list before a longer one.
pub open spec fn term_order(a: Term, b: Term) -> Order
    decreases a, 0nat,
{
    if rank(a) != rank(b) {
        int_order(rank(a), rank(b))
    } else {
        match (a, b) {
            (Term::Num(x), Term::Num(y)) => int_order(x, y),
            (Term::Var(s), Term::Var(t)) => symbol_order(s, t),
            (Term::Fun(s, x), Term::Fun(t, y)) => or_else(symbol_order(s, t), seq_order(x, y, 0)),
            (Term::Pow(b1, e1), Term::Pow(b2, e2)) => or_else(
                term_order(*b1, *b2),
                term_order(*e1, *e2),
            ),
            (Term::Mul(x), Term::Mul(y)) => seq_order(x, y, 0),
            (Term::Add(x), Term::Add(y)) => seq_order(x, y, 0),
            _ => Order::Equal,
        }
    }
}

/// The order of two lists of expressions from the index `from` on.
pub open spec fn seq_order(x: Seq<Term>, y: Seq<Term>, from: nat) -> Order
    decreases x, x.len() - from,
{
    if from >= x.len() || from >= y.len() {
        int_order(x.len() as int, y.len() as int)
    } else {
        or_else(term_order(x[from as int], y[from as int]), seq_order(x, y, from + 1))
    }
}

pub fn compare_usize(a: usize, b: usize) -> (r: Order)
    ensures
        r == int_order(a as int, b as int),
{
    if a < b {
        Order::Less
    } else if a == b {
        Order::Equal
    } else {
        Order::Greater
    }
}

fn compare_flags(a: bool, b: bool) -> (r: Order)
    ensures
        r == flag_order(a, b),
{
    if a == b {
        Order::Equal
    } else if b {
        Order::Less
    } else {
        Order::Greater
    }
}

/// Compares two symbols.
pub fn compare_symbols(s: &Symbol, t: &Symbol) -> (r: Order)
    ensures
        r == symbol_order(*s, *t),
{
    let by_id = compare_usize(s.id, t.id);
    if by_id != Order::Equal {
        return by_id;
    }
    let by_symmetric = compare_flags(s.symmetric, t.symmetric);
    if by_symmetric != Order::Equal {
        return by_symmetric;
    }
    let by_antisymmetric = compare_flags(s.antisymmetric, t.antisymmetric);
    if by_antisymmetric != Order::Equal {
        return by_antisymmetric;
    }
    let by_cyclesymmetric = compare_flags(s.cyclesymmetric, t.cyclesymmetric);
    if by_cyclesymmetric != Order::Equal {
        return by_cyclesymmetric;
    }
    compare_flags(s.linear, t.linear)
}

fn kind_of(a: &Atom) -> (r: usize)
    ensures
        r == rank(a@),
{
    match a {
        Atom::Num(_) => 0,
        Atom::Var(_) => 1,
        Atom::Fun { .. } => 2,
        Atom::Pow(_, _) => 3,
        Atom::Mul(_) => 4,
        Atom::Add(_) => 5,
    }
}

/// Compares two expressions.
pub fn compare(a: &Atom, b: &Atom) -> (r: Order)
    ensures
        r == term_order(a@, b@),
    decreases a, 0nat,
{
    let ka = kind_of(a);
    let kb = kind_of(b);
    if ka != kb {
        return compare_usize(ka, kb);
    }
    match (a, b) {
        (Atom::Num(x), Atom::Num(y)) => {
            if *x < *y {
                Order::Less
            } else if *x == *y {
                Order::Equal
            } else {
                Order::Greater
            }
        },
        (Atom::Var(s), Atom::Var(t)) => compare_symbols(s, t),
        (Atom::Fun { symbol: s, args: x }, Atom::Fun { symbol: t, args: y }) => {
            let o = compare_symbols(s, t);
            if o != Order::Equal {
                o
            } else {
                compare_lists(x, y)
            }
        },
        (Atom::Pow(b1, e1), Atom::Pow(b2, e2)) => {
            let o = compare(b1, b2);
            if o != Order::Equal {
                o
            } else {
                compare(e1, e2)
            }
        },
        (Atom::Mul(x), Atom::Mul(y)) => compare_lists(x, y),
        (Atom::Add(x), Atom::Add(y)) => compare_lists(x, y),
        _ => Order::Equal,
    }
}

/// Compares two lists of expressions.
pub fn compare_lists(x: &Vec<Atom>, y: &Vec<Atom>) -> (r: Order)
    ensures
        r == seq_order(terms(*x), terms(*y), 0),
    decreases x, 1nat,
{
    proof {
        lemma_terms(*x, x.len() as nat);
        lemma_terms(*y, y.len() as nat);
    }
    let mut i: usize = 0;
    while i < x.len() && i < y.len()
        invariant
            i <= x.len(),
            i <= y.len(),
            terms(*x).len() == x.len(),
            terms(*y).len() == y.len(),
            forall|k: int| 0 <= k < x.len() ==> #[trigger] terms(*x)[k] == term_of(x[k]),
            forall|k: int| 0 <= k < y.len() ==> #[trigger] terms(*y)[k] == term_of(y[k]),
            seq_order(terms(*x), terms(*y), 0) == seq_order(terms(*x), terms(*y), i as nat),
        decreases x.len() - i,
    {
        let o = compare(&x[i], &y[i]);
        assert(terms(*x)[i as int] == term_of(x[i as int]));
        assert(terms(*y)[i as int] == term_of(y[i as int]));
        if o != Order::Equal {
            return o;
        }
        i = i + 1;
    }
    compare_usize(x.len(), y.len())
}

/// Two lists are in the order `Equal` from an index on only where they are
/// as long as one another and hold the same expressions from that index on.
pub proof fn lemma_seq_order_equal(x: Seq<Term>, y: Seq<Term>, from: nat)
    requires
        from <= x.len(),
        from <= y.len(),
    ensures
        seq_order(x, y, from) == Order::Equal <==> x.len() == y.len() && forall|i: int|
            from <= i < x.len() ==> x[i] == y[i],
    decreases x, x.len() - from,
{
    if from >= x.len() || from >= y.len() {
    } else {
        lemma_order_equal(x[from as int], y[from as int]);
        lemma_seq_order_equal(x, y, from + 1);
        if seq_order(x, y, from) == Order::Equal {
            assert forall|i: int| from <= i < x.len() implies x[i] == y[i] by {
                if i > from {
                }
            }
        }
    }
}

/// Two expressions are in the order `Equal` only where they are the same.
pub proof fn lemma_order_equal(a: Term, b: Term)
    ensures
        term_order(a, b) == Order::Equal <==> a == b,
    decreases a, 0nat,
{
    if rank(a) == rank(b) {
        match (a, b) {
            (Term::Fun(s, x), Term::Fun(t, y)) => {
                lemma_seq_order_equal(x, y, 0);
                if term_order(a, b) == Order::Equal {
                    assert(x =~= y);
                }
            },
            (Term::Pow(b1, e1), Term::Pow(b2, e2)) => {
                lemma_order_equal(*b1, *b2);
                lemma_order_equal(*e1, *e2);
            },
            (Term::Mul(x), Term::Mul(y)) => {
                lemma_seq_order_equal(x, y, 0);
                if term_order(a, b) == Order::Equal {
                    assert(x =~= y);
                }
            },
            (Term::Add(x), Term::Add(y)) => {
                lemma_seq_order_equal(x, y, 0);
                if term_order(a, b) == Order::Equal {
                    assert(x =~= y);
                }
            },
            _ => {},
        }
    }
}

/// An order read from the other side.
pub open spec fn flipped(o: Order) -> Order {
    match o {
        Order::Less => Order::Greater,
        Order::Equal => Order::Equal,
        Order::Greater => Order::Less,
    }
}

/// Two lists taken in the other order are in the flipped order.
pub proof fn lemma_seq_order_flips(x: Seq<Term>, y: Seq<Term>, from: nat)
    ensures
        seq_order(y, x, from) == flipped(seq_order(x, y, from)),
    decreases x, x.len() - from,
{
    if from >= x.len() || from >= y.len() {
    } else {
        lemma_order_flips(x[from as int], y[from as int]);
        lemma_seq_order_flips(x, y, from + 1);
    }
}

/// Two expressions taken in the other order are in the flipped order.
pub proof fn lemma_order_flips(a: Term, b: Term)
    ensures
        term_order(b, a) == flipped(term_order(a, b)),
    decreases a, 0nat,
{
    if rank(a) == rank(b) {
        match (a, b) {
            (Term::Fun(s, x), Term::Fun(t, y)) => {
                lemma_seq_order_flips(x, y, 0);
            },
            (Term::Pow(b1, e1), Term::Pow(b2, e2)) => {
                lemma_order_flips(*b1, *b2);
                lemma_order_flips(*e1, *e2);
            },
            (Term::Mul(x), Term::Mul(y)) => {
                lemma_seq_order_flips(x, y, 0);
            },
            (Term::Add(x), Term::Add(y)) => {
                lemma_seq_order_flips(x, y, 0);
            },
            _ => {},
        }
    }
}

/// A list before a second one that is before a third is before the third.
pub proof fn lemma_seq_order_chains(x: Seq<Term>, y: Seq<Term>, z: Seq<Term>, from: nat)
    requires
        from <= x.len(),
        from <= y.len(),
        from <= z.len(),
        seq_order(x, y, from) == Order::Less,
        seq_order(y, z, from) == Order::Less,
    ensures
        seq_order(x, z, from) == Order::Less,
    decreases x, x.len() - from,
{
    if from >= x.len() || from >= y.len() || from >= z.len() {
    } else {
        let a = x[from as int];
        let b = y[from as int];
        let c = z[from as int];
        lemma_order_equal(a, b);
        lemma_order_equal(b, c);
        lemma_order_equal(a, c);
        if term_order(a, b) == Order::Less && term_order(b, c) == Order::Less {
            lemma_order_chains(a, b, c);
        } else if term_order(a, b) == Order::Equal && term_order(b, c) == Order::Equal {
            lemma_seq_order_chains(x, y, z, from + 1);
        }
    }
}

/// An expression before a second one that is before a third is before the
/// third.
pub proof fn lemma_order_chains(a: Term, b: Term, c: Term)
    requires
        term_order(a, b) == Order::Less,
        term_order(b, c) == Order::Less,
    ensures
        term_order(a, c) == Order::Less,
    decreases a, 0nat,
{
    if rank(a) == rank(b) && rank(b) == rank(c) {
        match (a, b, c) {
            (Term::Fun(s, x), Term::Fun(t, y), Term::Fun(u, z)) => {
                if symbol_order(s, t) == Order::Equal && symbol_order(t, u) == Order::Equal {
                    lemma_seq_order_chains(x, y, z, 0);
                }
            },
            (Term::Pow(b1, e1), Term::Pow(b2, e2), Term::Pow(b3, e3)) => {
                lemma_order_equal(*b1, *b2);
                lemma_order_equal(*b2, *b3);
                lemma_order_equal(*b1, *b3);
                if term_order(*b1, *b2) == Order::Less && term_order(*b2, *b3) == Order::Less {
                    lemma_order_chains(*b1, *b2, *b3);
                } else if term_order(*b1, *b2) == Order::Equal && term_order(*b2, *b3)
                    == Order::Equal {
                    lemma_order_chains(*e1, *e2, *e3);
                }
            },
            (Term::Mul(x), Term::Mul(y), Term::Mul(z)) => {
                lemma_seq_order_chains(x, y, z, 0);
            },
            (Term::Add(x), Term::Add(y), Term::Add(z)) => {
                lemma_seq_order_chains(x, y, z, 0);
            },
            _ => {},
        }
    }
}

/// Whether `a` does not come after `b`.
pub open spec fn precedes(a: Term, b: Term) -> bool {
    term_order(a, b) != Order::Greater
}

/// Of two expressions one does not come after the other, and what does not
/// come after a second expression that does not come after a third does not
/// come after the third.
pub proof fn lemma_precedes(a: Term, b: Term, c: Term)
    ensures
        precedes(a, b) || precedes(b, a),
        precedes(a, b) && precedes(b, a) ==> a == b,
        precedes(a, b) && precedes(b, c) ==> precedes(a, c),
{
    lemma_order_flips(a, b);
    lemma_order_equal(a, b);
    lemma_order_equal(b, c);
    if term_order(a, b) == Order::Less && term_order(b, c) == Order::Less {
        lemma_order_chains(a, b, c);
    }
}

/// Whether two expressions are the same.
pub fn same_atom(a: &Atom, b: &Atom) -> (r: bool)
    ensures
        r == (a@ == b@),
{
    proof {
        lemma_order_equal(a@, b@);
    }
    compare(a, b) == Order::Equal
}

/// A copy of an expression.
pub fn clone_atom(a: &Atom) -> (r: Atom)
    ensures
        r@ == a@,
    decreases a, 0nat,
{
    match a {
        Atom::Num(n) => Atom::Num(*n),
        Atom::Var(s) => Atom::Var(*s),
        Atom::Fun { symbol, args } => Atom::Fun { symbol: *symbol, args: clone_atoms(args) },
        Atom::Pow(b, e) => Atom::Pow(Box::new(clone_atom(b)), Box::new(clone_atom(e))),
        Atom::Mul(v) => Atom::Mul(clone_atoms(v)),
        Atom::Add(v) => Atom::Add(clone_atoms(v)),
    }
}

/// A copy of a list of expressions.
pub fn clone_atoms(v: &Vec<Atom>) -> (r: Vec<Atom>)
    ensures
        r.len() == v.len(),
        terms(r) == terms(*v),
    decreases v, 1nat,
{
    let mut out: Vec<Atom> = Vec::new();
    let mut i: usize = 0;
    while i < v.len()
        invariant
            i <= v.len(),
            out.len() == i,
            forall|k: int| 0 <= k < i ==> term_of(#[trigger] out[k]) == term_of(v[k]),
        decreases v.len() - i,
    {
        out.push(clone_atom(&v[i]));
        i = i + 1;
    }
    proof {
        lemma_terms(out, out.len() as nat);
        lemma_terms(*v, v.len() as nat);
        assert(terms(out) =~= terms(*v));
    }
    out
}

impl Clone for Atom {
    fn clone(&self) -> (r: Atom)
        ensures
            r@ == self@,
    {
        clone_atom(self)
    }
}

/// The models of a list with one more expression at its end.
pub proof fn lemma_terms_pushed(v: Vec<Atom>, w: Vec<Atom>, x: Atom)
    requires
        w@ == v@.push(x),
    ensures
        terms(w) == terms(v).push(x@),
{
    lemma_terms(v, v.len() as nat);
    lemma_terms(w, w.len() as nat);
    assert(terms(w) =~= terms(v).push(x@));
}

/// The models of a list without the expression at `i`.
pub proof fn lemma_terms_removed(v: Vec<Atom>, w: Vec<Atom>, i: int)
    requires
        0 <= i < v.len(),
        w@ == v@.remove(i),
    ensures
        terms(w) == terms(v).remove(i),
{
    lemma_terms(v, v.len() as nat);
    lemma_terms(w, w.len() as nat);
    assert(terms(w) =~= terms(v).remove(i));
}

/// Whether no expression of a list comes after a later one.
pub open spec fn sorted(s: Seq<Term>) -> bool {
    forall|i: int, j: int| 0 <= i < j < s.len() ==> precedes(#[trigger] s[i], #[trigger] s[j])
}

/// A list has one sorted order: two sorted lists that hold the same
/// expressions, each as often as the other, are the same list.
pub proof fn lemma_sorted_is_unique(x: Seq<Term>, y: Seq<Term>)
    requires
        sorted(x),
        sorted(y),
        x.to_multiset() == y.to_multiset(),
    ensures
        x == y,
    decreases x.len(),
{
    x.to_multiset_ensures();
    y.to_multiset_ensures();
    if x.len() == 0 {
        assert(x =~= y);
    } else {
        let last = x.len() - 1;
        let a = x[last];
        let b = y[last];
        assert(x.to_multiset().count(a) > 0);
        assert(y.to_multiset().count(b) > 0);
        assert(y.contains(a));
        assert(x.contains(b));
        let j = choose|j: int| 0 <= j < y.len() && y[j] == a;
        let i = choose|i: int| 0 <= i < x.len() && x[i] == b;
        lemma_order_equal(a, a);
        lemma_precedes(a, b, a);
        assert(precedes(y[j], y[last]));
        assert(precedes(x[i], x[last]));
        assert(a == b);
        vstd::seq_lib::to_multiset_remove(x, last);
        vstd::seq_lib::to_multiset_remove(y, last);
        assert(x.remove(last) =~= x.drop_last());
        assert(y.remove(last) =~= y.drop_last());
        lemma_sorted_is_unique(x.drop_last(), y.drop_last());
        assert(x =~= x.drop_last().push(a));
        assert(y =~= y.drop_last().push(b));
    }
}

/// The index of an expression of `v` that comes after no other.
fn least_of(v: &Vec<Atom>) -> (best: usize)
    requires
        v.len() > 0,
    ensures
        best < v.len(),
        forall|k: int| 0 <= k < v.len() ==> precedes(v[best as int]@, (#[trigger] v[k])@),
{
    let mut best: usize = 0;
    let mut j: usize = 1;
    proof {
        lemma_order_equal(v[0]@, v[0]@);
    }
    while j < v.len()
        invariant
            best < v.len(),
            1 <= j <= v.len(),
            forall|k: int| 0 <= k < j ==> precedes(v[best as int]@, (#[trigger] v[k])@),
        decreases v.len() - j,
    {
        let o = compare(&v[j], &v[best]);
        proof {
            lemma_order_flips(v[j as int]@, v[best as int]@);
            lemma_order_equal(v[j as int]@, v[j as int]@);
        }
        if o == Order::Less {
            proof {
                assert forall|k: int| 0 <= k < j + 1 implies precedes(
                    v[j as int]@,
                    (#[trigger] v[k])@,
                ) by {
                    lemma_precedes(v[j as int]@, v[best as int]@, v[k]@);
                }
            }
            best = j;
        }
        j = j + 1;
    }
    best
}

/// Sorts a list of expressions: the result holds what the list held, each
/// as often as the list held it, and none of them after a later one.
pub fn sort_atoms(v: Vec<Atom>) -> (r: Vec<Atom>)
    ensures
        r.len() == v.len(),
        terms(r).to_multiset() == terms(v).to_multiset(),
        sorted(terms(r)),
{
    let mut src = v;
    let mut out: Vec<Atom> = Vec::new();
    proof {
        lemma_terms(out, 0);
        assert(terms(out) =~= Seq::empty());
        terms(out).to_multiset_ensures();
        assert(terms(out).to_multiset().add(terms(src).to_multiset()) =~= terms(v).to_multiset());
    }
    while src.len() > 0
        invariant
            terms(out).to_multiset().add(terms(src).to_multiset()) == terms(v).to_multiset(),
            out.len() + src.len() == v.len(),
            sorted(terms(out)),
            forall|i: int, j: int|
                0 <= i < out.len() && 0 <= j < src.len() ==> precedes(
                    (#[trigger] out[i])@,
                    (#[trigger] src[j])@,
                ),
        decreases src.len(),
    {
        let best = least_of(&src);
        let ghost before_src = src;
        let ghost before_out = out;
        let x = src.remove(best);
        out.push(x);
        proof {
            lemma_terms_removed(before_src, src, best as int);
            lemma_terms_pushed(before_out, out, x);
            lemma_terms(before_out, before_out.len() as nat);
            lemma_terms(out, out.len() as nat);
            let held = terms(before_src);
            lemma_terms(before_src, before_src.len() as nat);
            held.to_multiset_ensures();
            vstd::seq_lib::to_multiset_remove(held, best as int);
            vstd::seq_lib::to_multiset_build(terms(before_out), x@);
            assert(held[best as int] == x@);
            assert(held.to_multiset().count(x@) > 0);
            assert(terms(out).to_multiset().add(terms(src).to_multiset()) =~= terms(
                before_out,
            ).to_multiset().add(held.to_multiset()));
            assert forall|i: int, j: int| 0 <= i < j < terms(out).len() implies precedes(
                #[trigger] terms(out)[i],
                #[trigger] terms(out)[j],
            ) by {
                if j < before_out.len() {
                    assert(terms(out)[i] == terms(before_out)[i]);
                    assert(terms(out)[j] == terms(before_out)[j]);
                } else {
                    assert(terms(out)[i] == before_out[i]@);
                    assert(precedes(before_out[i]@, before_src[best as int]@));
                }
            }
            assert forall|i: int, j: int| 0 <= i < out.len() && 0 <= j < src.len() implies precedes(
                (#[trigger] out[i])@,
                (#[trigger] src[j])@,
            ) by {
                let k = if j < best {
                    j
                } else {
                    j + 1
                };
                assert(src[j] == before_src[k]);
                if i < before_out.len() {
                    assert(out[i] == before_out[i]);
                } else {
                    assert(out[i] == x);
                }
            }
        }
    }
    proof {
        lemma_terms(src, 0);
        assert(terms(src) =~= Seq::empty());
        terms(src).to_multiset_ensures();
        assert(terms(src).to_multiset() =~= vstd::multiset::Multiset::empty());
        assert(terms(out).to_multiset().add(terms(src).to_multiset()) =~= terms(out).to_multiset());
    }
    out
}

/// A list turned so that the element at `start` comes first.
pub open spec fn rotated(s: Seq<Term>, start: int) -> Seq<Term> {
    s.subrange(start, s.len() as int) + s.subrange(0, start)
}

/// Whether `least` is a turn of `s` that comes after no turn of `s`.
pub open spec fn is_least_rotation(least: Seq<Term>, s: Seq<Term>) -> bool {
    if s.len() == 0 {
        least == s
    } else {
        &&& exists|k: int| 0 <= k < s.len() && least == #[trigger] rotated(s, k)
        &&& forall|k: int|
            0 <= k < s.len() ==> seq_order(least, #[trigger] rotated(s, k), 0) != Order::Greater
    }
}

/// Of two lists one does not come after the other; two lists of which none
/// comes after the other are the same; and a list that does not come after
/// a second one that does not come after a third does not come after the
/// third.
pub proof fn lemma_seq_precedes(x: Seq<Term>, y: Seq<Term>, z: Seq<Term>)
    ensures
        seq_order(x, y, 0) != Order::Greater || seq_order(y, x, 0) != Order::Greater,
        seq_order(x, y, 0) != Order::Greater && seq_order(y, x, 0) != Order::Greater ==> x == y,
        seq_order(x, y, 0) != Order::Greater && seq_order(y, z, 0) != Order::Greater ==> seq_order(
            x,
            z,
            0,
        ) != Order::Greater,
{
    lemma_seq_order_flips(x, y, 0);
    lemma_seq_order_equal(x, y, 0);
    lemma_seq_order_equal(y, z, 0);
    if seq_order(x, y, 0) == Order::Equal {
        assert(x =~= y);
    }
    if seq_order(y, z, 0) == Order::Equal {
        assert(y =~= z);
    }
    if seq_order(x, y, 0) == Order::Less && seq_order(y, z, 0) == Order::Less {
        lemma_seq_order_chains(x, y, z, 0);
    }
}

/// The list turned so that the element at `start` comes first.
pub fn rotate(v: &Vec<Atom>, start: usize) -> (r: Vec<Atom>)
    requires
        start < v.len(),
    ensures
        r.len() == v.len(),
        terms(r) == rotated(terms(*v), start as int),
{
    let n: usize = v.len();
    let mut out: Vec<Atom> = Vec::new();
    let mut i: usize = 0;
    proof {
        lemma_terms(*v, n as nat);
    }
    while i < n
        invariant
            i <= n,
            n == v.len(),
            start < n,
            out.len() == i,
            terms(*v).len() == n,
            forall|k: int| 0 <= k < n ==> #[trigger] terms(*v)[k] == term_of(v[k]),
            forall|k: int|
                0 <= k < i ==> term_of(#[trigger] out[k]) == rotated(terms(*v), start as int)[k],
        decreases n - i,
    {
        let k: usize = if i < n - start {
            start + i
        } else {
            i - (n - start)
        };
        out.push(clone_atom(&v[k]));
        assert(terms(*v)[k as int] == term_of(v[k as int]));
        i = i + 1;
    }
    proof {
        lemma_terms(out, n as nat);
        assert(terms(out) =~= rotated(terms(*v), start as int));
    }
    out
}

/// The least among the turns of a list: the form under which a function
/// that is symmetric under cyclic shifts keeps its arguments.
pub fn least_rotation(v: Vec<Atom>) -> (r: Vec<Atom>)
    ensures
        r.len() == v.len(),
        is_least_rotation(terms(r), terms(v)),
{
    if v.len() == 0 {
        return v;
    }
    proof {
        lemma_terms(v, v.len() as nat);
    }
    let mut best = rotate(&v, 0);
    let mut s: usize = 1;
    let ghost mut at: int = 0;
    proof {
        lemma_seq_order_equal(terms(best), terms(best), 0);
    }
    while s < v.len()
        invariant
            1 <= s <= v.len(),
            best.len() == v.len(),
            terms(v).len() == v.len(),
            0 <= at < v.len(),
            terms(best) == rotated(terms(v), at),
            forall|k: int|
                0 <= k < s ==> seq_order(terms(best), #[trigger] rotated(terms(v), k), 0)
                    != Order::Greater,
        decreases v.len() - s,
    {
        let candidate = rotate(&v, s);
        let o = compare_lists(&candidate, &best);
        proof {
            lemma_seq_order_flips(terms(candidate), terms(best), 0);
            lemma_seq_order_equal(terms(candidate), terms(candidate), 0);
        }
        if o == Order::Less {
            proof {
                assert forall|k: int| 0 <= k < s + 1 implies seq_order(
                    terms(candidate),
                    #[trigger] rotated(terms(v), k),
                    0,
                ) != Order::Greater by {
                    lemma_seq_precedes(terms(candidate), terms(best), rotated(terms(v), k));
                }
                at = s as int;
            }
            best = candidate;
        }
        s = s + 1;
    }
    best
}

/// Whether `kept` is the form under which a call of `symbol` keeps the
/// arguments `given`: sorted for a symmetric function, turned to the least
/// turn for a function that is symmetric under cyclic shifts, and as they
/// are for any other.
pub open spec fn normal_args(symbol: Symbol, given: Seq<Term>, kept: Seq<Term>) -> bool {
    if symbol.symmetric {
        sorted(kept) && kept.to_multiset() == given.to_multiset()
    } else if symbol.cyclesymmetric {
        is_least_rotation(kept, given)
    } else {
        kept == given
    }
}

/// A function keeps its arguments in one form.
pub proof fn lemma_normal_args_are_unique(
    symbol: Symbol,
    given: Seq<Term>,
    first: Seq<Term>,
    second: Seq<Term>,
)
    requires
        normal_args(symbol, given, first),
        normal_args(symbol, given, second),
    ensures
        first == second,
{
    if symbol.symmetric {
        lemma_sorted_is_unique(first, second);
    } else if symbol.cyclesymmetric && given.len() > 0 {
        let i = choose|k: int| 0 <= k < given.len() && first == #[trigger] rotated(given, k);
        let j = choose|k: int| 0 <= k < given.len() && second == #[trigger] rotated(given, k);
        assert(seq_order(first, rotated(given, j), 0) != Order::Greater);
        assert(seq_order(second, rotated(given, i), 0) != Order::Greater);
        lemma_seq_precedes(first, second, first);
    }
}

/// The call of `symbol` on `args`, in normal form.
pub open spec fn normal_call(symbol: Symbol, args: Seq<Term>) -> Term {
    Term::Fun(symbol, choose|kept: Seq<Term>| normal_args(symbol, args, kept))
}

/// The call of `symbol` on `args`, in normal form.
pub fn make_fun(symbol: Symbol, args: Vec<Atom>) -> (r: Atom)
    ensures
        r is Fun,
        r->Fun_symbol == symbol,
        r->Fun_args.len() == args.len(),
        normal_args(symbol, terms(args), terms(r->Fun_args)),
        r@ == normal_call(symbol, terms(args)),
{
    let ghost given = terms(args);
    let kept = if symbol.symmetric {
        sort_atoms(args)
    } else if symbol.cyclesymmetric {
        least_rotation(args)
    } else {
        args
    };
    proof {
        assert(normal_args(symbol, given, terms(kept)));
        let chosen = choose|chosen: Seq<Term>| normal_args(symbol, given, chosen);
        lemma_normal_args_are_unique(symbol, given, terms(kept), chosen);
        lemma_terms(kept, kept.len() as nat);
    }
    Atom::Fun { symbol, args: kept }
}

/// The power of `base` to `exponent` in normal form: the base itself for
/// the exponent one, and one for the exponent zero.
pub open spec fn power(base: Term, exponent: Term) -> Term {
    if exponent == Term::Num(1) {
        base
    } else if exponent == Term::Num(0) {
        Term::Num(1)
    } else {
        Term::Pow(Box::new(base), Box::new(exponent))
    }
}

/// The power of `base` to `exponent`, in normal form.
pub fn make_pow(base: Atom, exponent: Atom) -> (r: Atom)
    ensures
        r@ == power(base@, exponent@),
{
    match exponent {
        Atom::Num(1) => base,
        Atom::Num(0) => Atom::Num(1),
        _ => Atom::Pow(Box::new(base), Box::new(exponent)),
    }
}

/// The number that stands for no operand: one in a product, zero in a sum.
pub open spec fn unit(product: bool) -> int {
    if product {
        1
    } else {
        0
    }
}

/// Two numbers joined: multiplied in a product, added in a sum.
pub open spec fn joined(product: bool, c: int, n: int) -> int {
    if product {
        c * n
    } else {
        c + n
    }
}

/// Whether a number can be held.
pub open spec fn fits(n: int) -> bool {
    i64::MIN <= n <= i64::MAX
}

/// What has been gathered of the operands of a product or a sum: those
/// that are kept as they are, and the numbers joined into one.
pub ghost struct Gathered {
    pub parts: Seq<Term>,
    pub number: int,
}

/// What is gathered once `x` is taken in: a number is joined to the number
/// where the result can be held, and anything else is kept.
pub open spec fn with_part(product: bool, g: Gathered, x: Term) -> Gathered {
    match x {
        Term::Num(n) if fits(joined(product, g.number, n)) => Gathered {
            parts: g.parts,
            number: joined(product, g.number, n),
        },
        _ => Gathered { parts: g.parts.push(x), number: g.number },
    }
}

/// What is gathered once the first `n` of `xs` are taken in.
pub open spec fn with_parts(product: bool, g: Gathered, xs: Seq<Term>, n: nat) -> Gathered
    decreases n,
{
    if n == 0 || n > xs.len() {
        g
    } else {
        with_part(product, with_parts(product, g, xs, (n - 1) as nat), xs[n - 1])
    }
}

/// What is gathered once the operand `a` is taken in: a product among the
/// operands of a product, and a sum among those of a sum, is taken apart.
pub open spec fn with_operand(product: bool, g: Gathered, a: Term) -> Gathered {
    match a {
        Term::Mul(v) if product => with_parts(product, g, v, v.len()),
        Term::Add(v) if !product => with_parts(product, g, v, v.len()),
        _ => with_part(product, g, a),
    }
}

/// What is gathered once the first `n` operands of `xs` are taken in.
pub open spec fn with_operands(product: bool, g: Gathered, xs: Seq<Term>, n: nat) -> Gathered
    decreases n,
{
    if n == 0 || n > xs.len() {
        g
    } else {
        with_operand(product, with_operands(product, g, xs, (n - 1) as nat), xs[n - 1])
    }
}

/// The operands of the normal form of a product or a sum of `xs`, before
/// they are sorted: what is kept of `xs`, and the number where it is not
/// the unit.
pub open spec fn operands(product: bool, xs: Seq<Term>) -> Seq<Term> {
    let g = with_operands(
        product,
        Gathered { parts: Seq::empty(), number: unit(product) },
        xs,
        xs.len(),
    );
    if g.number != unit(product) {
        g.parts.push(Term::Num(g.number))
    } else {
        g.parts
    }
}

/// Whether a product of `xs` is zero by its number.
pub open spec fn vanishes(product: bool, xs: Seq<Term>) -> bool {
    product && with_operands(
        product,
        Gathered { parts: Seq::empty(), number: unit(product) },
        xs,
        xs.len(),
    ).number == 0
}

/// Whether `r` is the normal form of the product or the sum of `xs`: zero
/// for a product whose number is zero; else the unit for no operand, the
/// operand itself for one, and for more the product or sum of the operands
/// in their order.
pub open spec fn is_normal_form(product: bool, xs: Seq<Term>, r: Term) -> bool {
    let all = operands(product, xs);
    if vanishes(product, xs) {
        r == Term::Num(0)
    } else if all.len() == 0 {
        r == Term::Num(unit(product))
    } else if all.len() == 1 {
        r == all[0]
    } else {
        match r {
            Term::Mul(kept) => product && sorted(kept) && kept.to_multiset() == all.to_multiset(),
            Term::Add(kept) => !product && sorted(kept) && kept.to_multiset() == all.to_multiset(),
            _ => false,
        }
    }
}

/// The normal form of the product or the sum of `xs`.
pub open spec fn normal_form(product: bool, xs: Seq<Term>) -> Term {
    choose|t: Term| is_normal_form(product, xs, t)
}

/// A product or a sum has one normal form.
pub proof fn lemma_normal_form_is_unique(product: bool, xs: Seq<Term>, first: Term, second: Term)
    requires
        is_normal_form(product, xs, first),
        is_normal_form(product, xs, second),
    ensures
        first == second,
{
    let all = operands(product, xs);
    if !vanishes(product, xs) && all.len() >= 2 {
        match (first, second) {
            (Term::Mul(x), Term::Mul(y)) => {
                lemma_sorted_is_unique(x, y);
            },
            (Term::Add(x), Term::Add(y)) => {
                lemma_sorted_is_unique(x, y);
            },
            _ => {},
        }
    }
}

/// What `parts` and `number` hold.
pub open spec fn held(parts: Vec<Atom>, number: i64) -> Gathered {
    Gathered { parts: terms(parts), number: number as int }
}

fn take_in(product: bool, parts: &mut Vec<Atom>, number: &mut i64, x: Atom)
    ensures
        held(*final(parts), *final(number)) == with_part(
            product,
            held(*old(parts), *old(number)),
            x@,
        ),
{
    match x {
        Atom::Num(n) => {
            let sum = if product {
                number.checked_mul(n)
            } else {
                number.checked_add(n)
            };
            match sum {
                Some(c) => {
                    *number = c;
                },
                None => {
                    parts.push(Atom::Num(n));
                    proof {
                        lemma_terms_pushed(*old(parts), *parts, x);
                    }
                },
            }
        },
        other => {
            parts.push(other);
            proof {
                lemma_terms_pushed(*old(parts), *parts, x);
            }
        },
    }
}

fn take_all(product: bool, parts: &mut Vec<Atom>, number: &mut i64, v: Vec<Atom>)
    ensures
        held(*final(parts), *final(number)) == with_parts(
            product,
            held(*old(parts), *old(number)),
            terms(v),
            v.len() as nat,
        ),
{
    let mut rest = v;
    let ghost mut done: nat = 0;
    proof {
        lemma_terms(v, v.len() as nat);
    }
    while rest.len() > 0
        invariant
            done + rest.len() == v.len(),
            rest@ == v@.subrange(done as int, v.len() as int),
            terms(v).len() == v.len(),
            forall|k: int| 0 <= k < v.len() ==> #[trigger] terms(v)[k] == term_of(v[k]),
            held(*parts, *number) == with_parts(
                product,
                held(*old(parts), *old(number)),
                terms(v),
                done,
            ),
        decreases rest.len(),
    {
        let x = rest.remove(0);
        assert(x == v[done as int]);
        assert(terms(v)[done as int] == term_of(v[done as int]));
        take_in(product, parts, number, x);
        proof {
            done = done + 1;
            assert(rest@ =~= v@.subrange(done as int, v.len() as int));
        }
    }
}

fn take_operand(product: bool, parts: &mut Vec<Atom>, number: &mut i64, a: Atom)
    ensures
        held(*final(parts), *final(number)) == with_operand(
            product,
            held(*old(parts), *old(number)),
            a@,
        ),
{
    match a {
        Atom::Mul(v) => {
            proof {
                lemma_terms(v, v.len() as nat);
            }
            if product {
                take_all(product, parts, number, v)
            } else {
                take_in(product, parts, number, Atom::Mul(v))
            }
        },
        Atom::Add(v) => {
            proof {
                lemma_terms(v, v.len() as nat);
            }
            if product {
                take_in(product, parts, number, Atom::Add(v))
            } else {
                take_all(product, parts, number, v)
            }
        },
        other => take_in(product, parts, number, other),
    }
}

/// The product or the sum of `given`, in normal form.
fn combine(product: bool, given: Vec<Atom>) -> (r: Atom)
    ensures
        is_normal_form(product, terms(given), r@),
{
    let mut rest = given;
    let mut flat: Vec<Atom> = Vec::new();
    let mut number: i64 = if product {
        1
    } else {
        0
    };
    let ghost mut done: nat = 0;
    let ghost start = Gathered { parts: Seq::empty(), number: unit(product) };
    proof {
        lemma_terms(given, given.len() as nat);
        lemma_terms(flat, 0);
        assert(terms(flat) =~= Seq::empty());
    }
    while rest.len() > 0
        invariant
            done + rest.len() == given.len(),
            rest@ == given@.subrange(done as int, given.len() as int),
            terms(given).len() == given.len(),
            forall|k: int| 0 <= k < given.len() ==> #[trigger] terms(given)[k] == term_of(given[k]),
            held(flat, number) == with_operands(product, start, terms(given), done),
        decreases rest.len(),
    {
        let x = rest.remove(0);
        assert(x == given[done as int]);
        assert(terms(given)[done as int] == term_of(given[done as int]));
        take_operand(product, &mut flat, &mut number, x);
        proof {
            done = done + 1;
            assert(rest@ =~= given@.subrange(done as int, given.len() as int));
        }
    }
    if product && number == 0 {
        return Atom::Num(0);
    }
    let unit: i64 = if product {
        1
    } else {
        0
    };
    if number != unit {
        let ghost before = flat;
        flat.push(Atom::Num(number));
        proof {
            lemma_terms_pushed(before, flat, Atom::Num(number));
        }
    }
    let ghost all = terms(flat);
    let mut kept = sort_atoms(flat);
    proof {
        lemma_terms(flat, flat.len() as nat);
        lemma_terms(kept, kept.len() as nat);
    }
    if kept.len() == 0 {
        Atom::Num(unit)
    } else if kept.len() == 1 {
        proof {
            all.to_multiset_ensures();
            terms(kept).to_multiset_ensures();
            assert(all.to_multiset().count(all[0]) > 0);
            assert(terms(kept).contains(all[0]));
        }
        kept.remove(0)
    } else if product {
        Atom::Mul(kept)
    } else {
        Atom::Add(kept)
    }
}

/// The product of `factors`, in normal form: products among the factors are
/// taken apart, the numbers are multiplied into one, and the factors are
/// sorted.
pub fn make_mul(factors: Vec<Atom>) -> (r: Atom)
    ensures
        is_normal_form(true, terms(factors), r@),
        r@ == normal_form(true, terms(factors)),
{
    let r = combine(true, factors);
    proof {
        lemma_normal_form_is_unique(true, terms(factors), r@, normal_form(true, terms(factors)));
    }
    r
}

/// The sum of `terms`, in normal form: sums among the terms are taken
/// apart, the numbers are added into one, and the terms are sorted.
pub fn make_add(summands: Vec<Atom>) -> (r: Atom)
    ensures
        is_normal_form(false, terms(summands), r@),
        r@ == normal_form(false, terms(summands)),
{
    let r = combine(false, summands);
    proof {
        lemma_normal_form_is_unique(
            false,
            terms(summands),
            r@,
            normal_form(false, terms(summands)),
        );
    }
    r
}

/// Whether `needle` occurs in `a`, as `a` itself or anywhere inside it.
pub open spec fn occurs_in(a: Term, needle: Term) -> bool
    decreases a, 0nat,
{
    a == needle || match a {
        Term::Num(_) => false,
        Term::Var(_) => false,
        Term::Fun(_, args) => occurs_among(args, args.len(), needle),
        Term::Pow(b, e) => occurs_in(*b, needle) || occurs_in(*e, needle),
        Term::Mul(v) => occurs_among(v, v.len(), needle),
        Term::Add(v) => occurs_among(v, v.len(), needle),
    }
}

/// Whether `needle` occurs in one of the first `n` expressions of `v`.
pub open spec fn occurs_among(v: Seq<Term>, n: nat, needle: Term) -> bool
    decreases v, n,
{
    if n == 0 || n > v.len() {
        false
    } else {
        occurs_among(v, (n - 1) as nat, needle) || occurs_in(v[n - 1], needle)
    }
}

/// Whether `needle` occurs in `a`, as `a` itself or anywhere inside it.
pub fn contains_atom(a: &Atom, needle: &Atom) -> (r: bool)
    ensures
        r == occurs_in(a@, needle@),
    decreases a, 0nat,
{
    if same_atom(a, needle) {
        return true;
    }
    match a {
        Atom::Num(_) => false,
        Atom::Var(_) => false,
        Atom::Fun { args, .. } => {
            proof {
                lemma_terms(*args, args.len() as nat);
            }
            any_contains(args, needle)
        },
        Atom::Pow(b, e) => contains_atom(b, needle) || contains_atom(e, needle),
        Atom::Mul(v) => {
            proof {
                lemma_terms(*v, v.len() as nat);
            }
            any_contains(v, needle)
        },
        Atom::Add(v) => {
            proof {
                lemma_terms(*v, v.len() as nat);
            }
            any_contains(v, needle)
        },
    }
}

/// Whether `needle` occurs in one of the expressions of `v`.
pub fn any_contains(v: &Vec<Atom>, needle: &Atom) -> (r: bool)
    ensures
        r == occurs_among(terms(*v), v.len() as nat, needle@),
    decreases v, 1nat,
{
    proof {
        lemma_terms(*v, v.len() as nat);
    }
    let mut i: usize = 0;
    while i < v.len()
        invariant
            i <= v.len(),
            terms(*v).len() == v.len(),
            forall|k: int| 0 <= k < v.len() ==> #[trigger] terms(*v)[k] == term_of(v[k]),
            !occurs_among(terms(*v), i as nat, needle@),
        decreases v.len() - i,
    {
        let found = contains_atom(&v[i], needle);
        assert(terms(*v)[i as int] == term_of(v[i as int]));
        if found {
            proof {
                lemma_occurs_among(terms(*v), (i + 1) as nat, v.len() as nat, needle@);
            }
            return true;
        }
        i = i + 1;
    }
    false
}

/// What occurs among the first expressions of a list occurs among more of
/// them.
pub proof fn lemma_occurs_among(v: Seq<Term>, n: nat, m: nat, needle: Term)
    requires
        n <= m <= v.len(),
        occurs_among(v, n, needle),
    ensures
        occurs_among(v, m, needle),
    decreases m,
{
    if n < m {
        lemma_occurs_among(v, n, (m - 1) as nat, needle);
    }
}

/// The first place from `from` on at which `s` holds `a`.
pub open spec fn first_place(s: Seq<Term>, a: Term, from: nat) -> Option<nat>
    decreases s.len() - from,
{
    if from >= s.len() {
        None
    } else if s[from as int] == a {
        Some(from)
    } else {
        first_place(s, a, from + 1)
    }
}

/// The first place at which `s` holds `a`.
pub open spec fn place(s: Seq<Term>, a: Term) -> Option<nat> {
    first_place(s, a, 0)
}

/// The index of the first expression of `v` that is the same as `a`.
pub fn position(v: &Vec<Atom>, a: &Atom) -> (r: Option<usize>)
    ensures
        match r {
            Some(i) => i < v.len() && v[i as int]@ == a@ && forall|j: int|
                0 <= j < i ==> (#[trigger] v[j])@ != a@,
            None => forall|j: int| 0 <= j < v.len() ==> (#[trigger] v[j])@ != a@,
        },
        match r {
            Some(i) => place(terms(*v), a@) == Some(i as nat),
            None => place(terms(*v), a@) is None,
        },
{
    proof {
        lemma_terms(*v, v.len() as nat);
    }
    let mut i: usize = 0;
    while i < v.len()
        invariant
            i <= v.len(),
            terms(*v).len() == v.len(),
            forall|k: int| 0 <= k < v.len() ==> #[trigger] terms(*v)[k] == v[k]@,
            forall|j: int| 0 <= j < i ==> (#[trigger] v[j])@ != a@,
            place(terms(*v), a@) == first_place(terms(*v), a@, i as nat),
        decreases v.len() - i,
    {
        assert(terms(*v)[i as int] == v[i as int]@);
        if same_atom(&v[i], a) {
            return Some(i);
        }
        i = i + 1;
    }
    None
}

} // verus!

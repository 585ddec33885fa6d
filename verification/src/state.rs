//! The symbols of a computation: each name is given a number once, and
//! keeps the attributes it was first given.

use crate::atom::{FunctionAttribute, Symbol};
use crate::sets::views;
use vstd::prelude::*;

verus! {

/// The place of the first of `names` that is `name`.
pub open spec fn place_of(names: Seq<Seq<char>>, name: Seq<char>) -> Option<int>
    decreases names.len(),
{
    if names.len() == 0 {
        None
    } else {
        match place_of(names.drop_last(), name) {
            Some(i) => Some(i),
            None => if names.last() == name {
                Some(names.len() - 1)
            } else {
                None
            },
        }
    }
}

/// The place of a name is the first place that holds it, and a name has no
/// place only where no place holds it.
pub proof fn lemma_place_of(names: Seq<Seq<char>>, name: Seq<char>)
    ensures
        match place_of(names, name) {
            Some(i) => 0 <= i < names.len() && names[i] == name && forall|j: int|
                0 <= j < i ==> names[j] != name,
            None => forall|j: int| 0 <= j < names.len() ==> names[j] != name,
        },
    decreases names.len(),
{
    if names.len() > 0 {
        lemma_place_of(names.drop_last(), name);
        match place_of(names.drop_last(), name) {
            Some(i) => {
                assert(names.drop_last()[i] == names[i]);
                assert forall|j: int| 0 <= j < i implies names[j] != name by {
                    assert(names.drop_last()[j] == names[j]);
                }
            },
            None => {
                assert forall|j: int| 0 <= j < names.len() - 1 implies names[j] != name by {
                    assert(names.drop_last()[j] == names[j]);
                }
            },
        }
    }
}

/// The symbol with the number `id` and the attributes `attributes`.
pub open spec fn symbol_with(id: usize, attributes: Seq<FunctionAttribute>) -> Symbol {
    Symbol {
        id,
        symmetric: attributes.contains(FunctionAttribute::Symmetric),
        antisymmetric: attributes.contains(FunctionAttribute::Antisymmetric),
        cyclesymmetric: attributes.contains(FunctionAttribute::Cyclesymmetric),
        linear: attributes.contains(FunctionAttribute::Linear),
    }
}

/// The message for a name that is known with other attributes.
pub open spec fn redefined(name: Seq<char>) -> Seq<char> {
    "Function redefined with new attributes: "@ + name
}

/// What a state knows, as the model sees it: the names in the order of
/// their numbers, and their symbols.
pub ghost struct Known {
    pub names: Seq<Seq<char>>,
    pub symbols: Seq<Symbol>,
}

impl Known {
    /// The symbol that is known under `name`.
    pub open spec fn symbol_of(self, name: Seq<char>) -> Option<Symbol> {
        match place_of(self.names, name) {
            Some(i) => Some(self.symbols[i]),
            None => None,
        }
    }

    /// The symbol with the name `name`: the one that is known under it, or
    /// a new one without attributes, which takes the next number.
    pub open spec fn symbol(self, name: Seq<char>) -> Symbol {
        match self.symbol_of(name) {
            Some(symbol) => symbol,
            None => symbol_with(self.symbols.len() as usize, Seq::empty()),
        }
    }

    /// What is known after the symbol with the name `name` has been asked
    /// for.
    pub open spec fn with(self, name: Seq<char>) -> Known {
        match self.symbol_of(name) {
            Some(_) => self,
            None => Known {
                names: self.names.push(name),
                symbols: self.symbols.push(self.symbol(name)),
            },
        }
    }
}

/// The symbols that are known, by name.
pub struct State {
    names: Vec<String>,
    symbols: Vec<Symbol>,
}

impl View for State {
    type V = Known;

    open spec fn view(&self) -> Known {
        Known { names: self.names(), symbols: self.symbols() }
    }
}

impl State {
    /// The names that are known, in the order of their numbers.
    pub closed spec fn names(&self) -> Seq<Seq<char>> {
        views(self.names@)
    }

    /// The symbols that are known, in the order of their numbers.
    pub closed spec fn symbols(&self) -> Seq<Symbol> {
        self.symbols@
    }

    /// Every name has its symbol, and the number of a symbol is its place.
    pub open spec fn wf(&self) -> bool {
        &&& self.names().len() == self.symbols().len()
        &&& forall|i: int| 0 <= i < self.symbols().len() ==> (#[trigger] self.symbols()[i]).id == i
    }

    /// The number of symbols that are known.
    pub open spec fn count(&self) -> nat {
        self.symbols().len()
    }

    /// The symbol that is known under `name`.
    pub open spec fn known(&self, name: Seq<char>) -> Option<Symbol> {
        match place_of(self.names(), name) {
            Some(i) => Some(self.symbols()[i]),
            None => None,
        }
    }

    /// The state after `symbol` has become known under `name`.
    pub open spec fn grown_by(&self, before: &State, name: Seq<char>, symbol: Symbol) -> bool {
        &&& self.names() == before.names().push(name)
        &&& self.symbols() == before.symbols().push(symbol)
    }

    /// The state that knows what `before` knows.
    pub open spec fn same_as(&self, before: &State) -> bool {
        self.names() == before.names() && self.symbols() == before.symbols()
    }

    /// Whether the state knows what `before` knows, under the same numbers,
    /// and perhaps more.
    pub open spec fn extends(&self, before: &State) -> bool {
        &&& before.names().is_prefix_of(self.names())
        &&& before.symbols().is_prefix_of(self.symbols())
    }

    /// A state that extends another knows every name that the other knows,
    /// as the same symbol.
    pub proof fn lemma_extends_keeps(&self, before: &State, name: Seq<char>)
        requires
            self.wf(),
            before.wf(),
            self.extends(before),
            before.known(name) is Some,
        ensures
            self.known(name) == before.known(name),
    {
        lemma_place_of(before.names(), name);
        lemma_place_of(self.names(), name);
        let i = place_of(before.names(), name)->0;
        assert(self.names()[i] == before.names()[i]);
        assert(self.symbols()[i] == before.symbols()[i]);
        match place_of(self.names(), name) {
            Some(j) => {
                if j < i {
                    assert(self.names()[j] == before.names()[j]);
                }
            },
            None => {},
        }
    }

    /// Appends the name of `symbol` to `out`: the name with its number, and
    /// nothing where the state knows no such number.
    pub fn push_name(&self, symbol: &Symbol, out: &mut String)
        ensures
            final(out)@ == old(out)@ + if symbol.id < self@.names.len() {
                self@.names[symbol.id as int]
            } else {
                Seq::<char>::empty()
            },
    {
        if symbol.id < self.names.len() {
            out.append(self.names[symbol.id].as_str());
            assert(self.names()[symbol.id as int] == self.names@[symbol.id as int]@);
        } else {
            assert(out@ =~= old(out)@ + Seq::<char>::empty());
        }
    }

    /// A state that knows no symbol.
    pub fn new() -> (r: State)
        ensures
            r.wf(),
            r.count() == 0,
    {
        let r = State { names: Vec::new(), symbols: Vec::new() };
        assert(r.names() =~= Seq::empty());
        r
    }

    fn find(&self, name: &str) -> (r: Option<usize>)
        requires
            self.wf(),
        ensures
            match r {
                Some(i) => place_of(self.names(), name@) == Some(i as int) && i
                    < self.symbols().len(),
                None => place_of(self.names(), name@) is None,
            },
    {
        let key = name.to_owned();
        let mut i: usize = 0;
        while i < self.names.len()
            invariant
                i <= self.names.len(),
                key@ == name@,
                self.names.len() == self.symbols.len(),
                forall|j: int| 0 <= j < i ==> self.names()[j] != name@,
            decreases self.names.len() - i,
        {
            if self.names[i] == key {
                proof {
                    assert(self.names()[i as int] == name@);
                    lemma_place_of(self.names(), name@);
                }
                return Some(i);
            }
            i = i + 1;
        }
        proof {
            lemma_place_of(self.names(), name@);
        }
        None
    }

    fn learn(&mut self, name: &str, symbol: Symbol)
        requires
            old(self).wf(),
            symbol.id == old(self).count(),
        ensures
            final(self).wf(),
            final(self).grown_by(old(self), name@, symbol),
    {
        self.names.push(name.to_owned());
        self.symbols.push(symbol);
        assert(self.names() =~= old(self).names().push(name@));
    }

    /// The symbol with the name `name`: the one that is known under it, or
    /// a new one without attributes, which takes the next number.
    pub fn get_symbol(&mut self, name: &str) -> (r: Symbol)
        requires
            old(self).wf(),
        ensures
            final(self).wf(),
            final(self).extends(old(self)),
            r == old(self)@.symbol(name@),
            final(self)@ == old(self)@.with(name@),
            match old(self).known(name@) {
                Some(symbol) => r == symbol && final(self).same_as(old(self)),
                None => {
                    &&& r == symbol_with(old(self).count() as usize, Seq::empty())
                    &&& final(self).grown_by(old(self), name@, r)
                },
            },
    {
        match self.find(name) {
            Some(i) => self.symbols[i],
            None => {
                let symbol = Symbol {
                    id: self.symbols.len(),
                    symmetric: false,
                    antisymmetric: false,
                    cyclesymmetric: false,
                    linear: false,
                };
                self.learn(name, symbol);
                symbol
            },
        }
    }

    /// The symbol with the name `name` and the attributes `attributes`: the
    /// one that is known under the name, if it has these attributes, or a
    /// new one. A name that is known with other attributes is refused.
    pub fn get_symbol_with_attributes(
        &mut self,
        name: &str,
        attributes: &[FunctionAttribute],
    ) -> (r: Result<Symbol, String>)
        requires
            old(self).wf(),
        ensures
            final(self).wf(),
            final(self).extends(old(self)),
            match old(self).known(name@) {
                Some(symbol) => final(self).same_as(old(self)) && if symbol == symbol_with(
                    symbol.id,
                    attributes@,
                ) {
                    r == Ok::<Symbol, String>(symbol)
                } else {
                    r is Err && r->Err_0@ == redefined(name@)
                },
                None => r == Ok::<Symbol, String>(
                    symbol_with(old(self).count() as usize, attributes@),
                ) && final(self).grown_by(old(self), name@, r->Ok_0),
            },
    {
        let mut symmetric = false;
        let mut antisymmetric = false;
        let mut cyclesymmetric = false;
        let mut linear = false;
        let mut k: usize = 0;
        while k < attributes.len()
            invariant
                k <= attributes.len(),
                symmetric == attributes@.take(k as int).contains(FunctionAttribute::Symmetric),
                antisymmetric == attributes@.take(k as int).contains(
                    FunctionAttribute::Antisymmetric,
                ),
                cyclesymmetric == attributes@.take(k as int).contains(
                    FunctionAttribute::Cyclesymmetric,
                ),
                linear == attributes@.take(k as int).contains(FunctionAttribute::Linear),
            decreases attributes.len() - k,
        {
            let ghost seen = attributes@.take(k as int);
            let ghost next = attributes@.take(k + 1);
            proof {
                assert(next == seen.push(attributes@[k as int]));
                assert forall|a: FunctionAttribute| next.contains(a) == (seen.contains(a) || a
                    == attributes@[k as int]) by {
                    if seen.contains(a) {
                        let j = choose|j: int| 0 <= j < seen.len() && seen[j] == a;
                        assert(next[j] == a);
                    }
                    if a == attributes@[k as int] {
                        assert(next[k as int] == a);
                    }
                    if next.contains(a) {
                        let j = choose|j: int| 0 <= j < next.len() && next[j] == a;
                        if j < k {
                            assert(seen[j] == a);
                        }
                    }
                }
            }
            match attributes[k] {
                FunctionAttribute::Symmetric => {
                    symmetric = true;
                },
                FunctionAttribute::Antisymmetric => {
                    antisymmetric = true;
                },
                FunctionAttribute::Cyclesymmetric => {
                    cyclesymmetric = true;
                },
                FunctionAttribute::Linear => {
                    linear = true;
                },
            }
            k = k + 1;
        }
        assert(attributes@.take(attributes.len() as int) == attributes@);
        match self.find(name) {
            Some(i) => {
                let known = self.symbols[i];
                if known.symmetric == symmetric && known.antisymmetric == antisymmetric
                    && known.cyclesymmetric == cyclesymmetric && known.linear == linear {
                    Ok(known)
                } else {
                    Err(String::from_str("Function redefined with new attributes: ").concat(name))
                }
            },
            None => {
                let symbol = Symbol {
                    id: self.symbols.len(),
                    symmetric,
                    antisymmetric,
                    cyclesymmetric,
                    linear,
                };
                self.learn(name, symbol);
                Ok(symbol)
            },
        }
    }
}

} // verus!

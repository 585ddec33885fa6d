//! Expressions as text.
//!
//! A number is written in decimal digits, a variable by its name, a call as
//! its name and its arguments in parentheses with commas between them, a
//! power with `^`, a product with `*` and a sum with `+`. A sum that stands
//! in a product, and a sum, product or power that stands in a power, is put
//! in parentheses. The names are those of the state that made the symbols.

use crate::atom::{lemma_terms, terms, Atom, Symbol, Term};
use crate::error::decimal;
use crate::state::State;
use vstd::prelude::*;

verus! {

/// The name of a symbol among `names`: the name with its number, and the
/// empty name where there is none.
pub open spec fn name_at(names: Seq<Seq<char>>, symbol: Symbol) -> Seq<char> {
    if symbol.id < names.len() {
        names[symbol.id as int]
    } else {
        Seq::empty()
    }
}

/// A whole number in decimal digits, with a minus sign before a negative
/// one.
pub open spec fn number_text(n: int) -> Seq<char> {
    if n < 0 {
        seq!['-'] + decimal((-n) as nat)
    } else {
        decimal(n as nat)
    }
}

/// Whether an expression is put in parentheses where it stands in a
/// product, or, with `in_power`, in a power.
pub open spec fn is_wrapped(t: Term, in_power: bool) -> bool {
    match t {
        Term::Add(_) => true,
        Term::Mul(_) | Term::Pow(_, _) => in_power,
        _ => false,
    }
}

/// An expression as text.
pub open spec fn printed(t: Term, names: Seq<Seq<char>>) -> Seq<char>
    decreases t, 0nat,
{
    match t {
        Term::Num(n) => number_text(n),
        Term::Var(symbol) => name_at(names, symbol),
        Term::Fun(symbol, args) => name_at(names, symbol) + seq!['('] + joined(
            args,
            names,
            ',',
            false,
            args.len(),
        ) + seq![')'],
        Term::Pow(base, exponent) => operand(*base, names, true) + seq!['^'] + operand(
            *exponent,
            names,
            true,
        ),
        Term::Mul(v) => joined(v, names, '*', true, v.len()),
        Term::Add(v) => joined(v, names, '+', false, v.len()),
    }
}

/// An expression as text, in parentheses where it needs them.
pub open spec fn operand(t: Term, names: Seq<Seq<char>>, in_power: bool) -> Seq<char>
    decreases t, 1nat,
{
    if is_wrapped(t, in_power) {
        seq!['('] + printed(t, names) + seq![')']
    } else {
        printed(t, names)
    }
}

/// The first `n` expressions of a list as text, with `between` between
/// them; with `factors` each as an operand of a product.
pub open spec fn joined(
    v: Seq<Term>,
    names: Seq<Seq<char>>,
    between: char,
    factors: bool,
    n: nat,
) -> Seq<char>
    decreases v, n,
{
    if n == 0 || n > v.len() {
        Seq::empty()
    } else {
        let item = if factors {
            operand(v[n - 1], names, false)
        } else {
            printed(v[n - 1], names)
        };
        if n == 1 {
            item
        } else {
            joined(v, names, between, factors, (n - 1) as nat) + seq![between] + item
        }
    }
}

/// Appends the decimal digits of `n` to `out`.
fn push_digits(out: &mut String, n: u64)
    ensures
        final(out)@ == old(out)@ + decimal(n as nat),
    decreases n,
{
    if n >= 10 {
        push_digits(out, n / 10);
    }
    let d: u8 = (n % 10) as u8;
    out.push((48 + d) as char);
    assert(out@ =~= old(out)@ + decimal(n as nat));
}

/// Appends the whole number `n` to `out`.
fn push_number(out: &mut String, n: i64)
    ensures
        final(out)@ == old(out)@ + number_text(n as int),
{
    if n < 0 {
        out.push('-');
        let magnitude: u64 = if n == i64::MIN {
            9223372036854775808u64
        } else {
            (-n) as u64
        };
        push_digits(out, magnitude);
        assert(out@ =~= old(out)@ + number_text(n as int));
    } else {
        push_digits(out, n as u64);
    }
}

/// Appends the name of `symbol` to `out`.
fn push_name(out: &mut String, symbol: &Symbol, state: &State)
    ensures
        final(out)@ == old(out)@ + name_at(state@.names, *symbol),
{
    state.push_name(symbol, out);
}

/// Appends the expression `a` to `out`.
pub fn push_atom(out: &mut String, a: &Atom, state: &State)
    ensures
        final(out)@ == old(out)@ + printed(a@, state@.names),
    decreases a, 0nat,
{
    match a {
        Atom::Num(n) => push_number(out, *n),
        Atom::Var(symbol) => push_name(out, symbol, state),
        Atom::Fun { symbol, args } => {
            proof {
                lemma_terms(*args, args.len() as nat);
            }
            push_name(out, symbol, state);
            out.push('(');
            push_list(out, args, ',', false, state);
            out.push(')');
            assert(out@ =~= old(out)@ + printed(a@, state@.names));
        },
        Atom::Pow(base, exponent) => {
            push_operand(out, base, true, state);
            out.push('^');
            push_operand(out, exponent, true, state);
            assert(out@ =~= old(out)@ + printed(a@, state@.names));
        },
        Atom::Mul(v) => {
            proof {
                lemma_terms(*v, v.len() as nat);
            }
            push_list(out, v, '*', true, state)
        },
        Atom::Add(v) => {
            proof {
                lemma_terms(*v, v.len() as nat);
            }
            push_list(out, v, '+', false, state)
        },
    }
}

fn wrapped(a: &Atom, in_power: bool) -> (r: bool)
    ensures
        r == is_wrapped(a@, in_power),
{
    match a {
        Atom::Add(_) => true,
        Atom::Mul(_) => in_power,
        Atom::Pow(_, _) => in_power,
        _ => false,
    }
}

/// Appends the expression `a` to `out`, in parentheses where it needs
/// them.
fn push_operand(out: &mut String, a: &Atom, in_power: bool, state: &State)
    ensures
        final(out)@ == old(out)@ + operand(a@, state@.names, in_power),
    decreases a, 1nat,
{
    if wrapped(a, in_power) {
        out.push('(');
        push_atom(out, a, state);
        out.push(')');
        assert(out@ =~= old(out)@ + operand(a@, state@.names, in_power));
    } else {
        push_atom(out, a, state);
    }
}

/// Appends the expressions of `v` to `out`, with `between` between them.
fn push_list(out: &mut String, v: &Vec<Atom>, between: char, factors: bool, state: &State)
    ensures
        final(out)@ == old(out)@ + joined(
            terms(*v),
            state@.names,
            between,
            factors,
            v.len() as nat,
        ),
    decreases v, 2nat,
{
    proof {
        lemma_terms(*v, v.len() as nat);
    }
    let mut i: usize = 0;
    assert(out@ =~= old(out)@ + joined(terms(*v), state@.names, between, factors, 0));
    while i < v.len()
        invariant
            i <= v.len(),
            terms(*v).len() == v.len(),
            forall|k: int| 0 <= k < v.len() ==> #[trigger] terms(*v)[k] == v[k]@,
            out@ == old(out)@ + joined(terms(*v), state@.names, between, factors, i as nat),
        decreases v.len() - i,
    {
        let ghost before = out@;
        assert(terms(*v)[i as int] == v[i as int]@);
        if i > 0 {
            out.push(between);
        }
        if factors {
            push_operand(out, &v[i], false, state);
        } else {
            push_atom(out, &v[i], state);
        }
        assert(out@ =~= old(out)@ + joined(
            terms(*v),
            state@.names,
            between,
            factors,
            (i + 1) as nat,
        ));
        i = i + 1;
    }
}

impl Atom {
    /// The expression as text, with the names that `state` gave to its
    /// symbols.
    pub fn to_text(&self, state: &State) -> (r: String)
        ensures
            r@ == printed(self@, state@.names),
    {
        let mut out = String::new();
        push_atom(&mut out, self, state);
        assert(out@ =~= printed(self@, state@.names));
        out
    }
}

} // verus!

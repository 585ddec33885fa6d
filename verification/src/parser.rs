//! Reading an expression from text.
//!
//! The grammar: a sum is terms joined by `+`; a term is factors joined by
//! `*`; a factor is a base, or a base raised by `^` to a factor; a base is a
//! whole number, a name, a name applied to arguments in parentheses, or a
//! sum in parentheses. Spaces between the parts are passed over.
//!
//! What a text reads as is written down as functions on its characters
//! ([`read`] and what it is made of); the functions that do the reading are
//! proved to compute them.

use crate::atom::{
    lemma_terms, lemma_terms_pushed, make_add, make_fun, make_mul, make_pow, normal_call,
    normal_form, power, terms, Atom, Term,
};
use crate::state::{Known, State};
use crate::text::chars_of;
use vstd::prelude::*;

verus! {

pub open spec fn is_digit(c: char) -> bool {
    '0' <= c && c <= '9'
}

pub open spec fn is_letter(c: char) -> bool {
    ('a' <= c && c <= 'z') || ('A' <= c && c <= 'Z') || c == '_'
}

/// The number of spaces that stand at `pos`, one after another.
pub open spec fn spaces(s: Seq<char>, pos: nat) -> nat
    decreases s.len() - pos,
{
    if pos < s.len() && s[pos as int] == ' ' {
        1 + spaces(s, pos + 1)
    } else {
        0
    }
}

/// The first position from `pos` on that holds no space.
pub open spec fn after_spaces(s: Seq<char>, pos: nat) -> nat {
    pos + spaces(s, pos)
}

/// The number of digits that stand at `pos`, one after another.
pub open spec fn digits(s: Seq<char>, pos: nat) -> nat
    decreases s.len() - pos,
{
    if pos < s.len() && is_digit(s[pos as int]) {
        1 + digits(s, pos + 1)
    } else {
        0
    }
}

/// The number of letters and digits that stand at `pos`, one after
/// another.
pub open spec fn name_length(s: Seq<char>, pos: nat) -> nat
    decreases s.len() - pos,
{
    if pos < s.len() && (is_letter(s[pos as int]) || is_digit(s[pos as int])) {
        1 + name_length(s, pos + 1)
    } else {
        0
    }
}

/// The number that the `n` digits at `pos` write.
pub open spec fn digits_value(s: Seq<char>, pos: nat, n: nat) -> int
    decreases n,
{
    if n == 0 || pos + n > s.len() {
        0
    } else {
        digits_value(s, pos, (n - 1) as nat) * 10 + (s[pos + n - 1] as int - 48)
    }
}

/// An expression that was read: its model, the position after it, and the
/// symbols that are known once it is read.
pub ghost struct Parsed {
    pub term: Term,
    pub end: nat,
    pub known: Known,
}

/// A list of arguments that was read, with the position after its closing
/// parenthesis.
pub ghost struct ParsedList {
    pub terms: Seq<Term>,
    pub end: nat,
    pub known: Known,
}

/// The base at `pos`: a number that can be held, a name, a call, or a sum
/// in parentheses.
pub open spec fn read_base(s: Seq<char>, pos: nat, known: Known) -> Option<Parsed>
    decreases s.len() - pos, 0nat,
{
    let p = after_spaces(s, pos);
    if p >= s.len() {
        None
    } else if is_digit(s[p as int]) {
        let n = digits(s, p);
        if digits_value(s, p, n) <= i64::MAX {
            Some(Parsed { term: Term::Num(digits_value(s, p, n)), end: p + n, known })
        } else {
            None
        }
    } else if is_letter(s[p as int]) {
        let end = p + name_length(s, p);
        let name = s.subrange(p as int, end as int);
        let symbol = known.symbol(name);
        let q = after_spaces(s, end);
        if q < s.len() && s[q as int] == '(' {
            match read_args(s, q + 1, known.with(name)) {
                Some(args) => Some(
                    Parsed {
                        term: normal_call(symbol, args.terms),
                        end: args.end,
                        known: args.known,
                    },
                ),
                None => None,
            }
        } else {
            Some(Parsed { term: Term::Var(symbol), end, known: known.with(name) })
        }
    } else if s[p as int] == '(' {
        match read_sum(s, p + 1, known) {
            Some(inner) => {
                let q = after_spaces(s, inner.end);
                if q < s.len() && s[q as int] == ')' {
                    Some(Parsed { term: inner.term, end: q + 1, known: inner.known })
                } else {
                    None
                }
            },
            None => None,
        }
    } else {
        None
    }
}

/// The factor at `pos`: a base, or a base raised to a factor.
pub open spec fn read_factor(s: Seq<char>, pos: nat, known: Known) -> Option<Parsed>
    decreases s.len() - pos, 1nat,
{
    match read_base(s, pos, known) {
        Some(base) => {
            let q = after_spaces(s, base.end);
            if base.end > pos && q < s.len() && s[q as int] == '^' {
                match read_factor(s, q + 1, base.known) {
                    Some(exponent) => Some(
                        Parsed {
                            term: power(base.term, exponent.term),
                            end: exponent.end,
                            known: exponent.known,
                        },
                    ),
                    None => None,
                }
            } else {
                Some(base)
            }
        },
        None => None,
    }
}

/// The product of `factors` and of the factors that follow at `end`, each
/// after a `*`.
pub open spec fn read_factors(s: Seq<char>, end: nat, known: Known, factors: Seq<Term>) -> Option<
    Parsed,
>
    decreases s.len() - end, 2nat,
{
    let q = after_spaces(s, end);
    if q < s.len() && s[q as int] == '*' {
        match read_factor(s, q + 1, known) {
            Some(next) => if q < next.end <= s.len() {
                read_factors(s, next.end, next.known, factors.push(next.term))
            } else {
                None
            },
            None => None,
        }
    } else {
        Some(Parsed { term: normal_form(true, factors), end, known })
    }
}

/// The term at `pos`: factors joined by `*`.
pub open spec fn read_term(s: Seq<char>, pos: nat, known: Known) -> Option<Parsed>
    decreases s.len() - pos, 2nat,
{
    match read_factor(s, pos, known) {
        Some(first) => if pos < first.end <= s.len() {
            read_factors(s, first.end, first.known, seq![first.term])
        } else {
            None
        },
        None => None,
    }
}

/// The sum of `summands` and of the terms that follow at `end`, each after
/// a `+`.
pub open spec fn read_terms(s: Seq<char>, end: nat, known: Known, summands: Seq<Term>) -> Option<
    Parsed,
>
    decreases s.len() - end, 3nat,
{
    let q = after_spaces(s, end);
    if q < s.len() && s[q as int] == '+' {
        match read_term(s, q + 1, known) {
            Some(next) => if q < next.end <= s.len() {
                read_terms(s, next.end, next.known, summands.push(next.term))
            } else {
                None
            },
            None => None,
        }
    } else {
        Some(Parsed { term: normal_form(false, summands), end, known })
    }
}

/// The sum at `pos`: terms joined by `+`.
pub open spec fn read_sum(s: Seq<char>, pos: nat, known: Known) -> Option<Parsed>
    decreases s.len() - pos, 3nat,
{
    match read_term(s, pos, known) {
        Some(first) => if pos < first.end <= s.len() {
            read_terms(s, first.end, first.known, seq![first.term])
        } else {
            None
        },
        None => None,
    }
}

/// The arguments `args` and those that follow at `pos`, each but the last
/// followed by a comma, and the last by a closing parenthesis.
pub open spec fn read_more_args(s: Seq<char>, pos: nat, known: Known, args: Seq<Term>) -> Option<
    ParsedList,
>
    decreases s.len() - pos, 4nat,
{
    match read_sum(s, pos, known) {
        Some(next) => {
            let q = after_spaces(s, next.end);
            if next.end <= pos || q >= s.len() {
                None
            } else if s[q as int] == ')' {
                Some(
                    ParsedList { terms: args.push(next.term), end: q + 1, known: next.known },
                )
            } else if s[q as int] == ',' {
                read_more_args(s, q + 1, next.known, args.push(next.term))
            } else {
                None
            }
        },
        None => None,
    }
}

/// The arguments at `pos`, after the opening parenthesis: none before a
/// closing parenthesis, or sums with commas between them.
pub open spec fn read_args(s: Seq<char>, pos: nat, known: Known) -> Option<ParsedList>
    decreases s.len() - pos, 5nat,
{
    let p = after_spaces(s, pos);
    if p < s.len() && s[p as int] == ')' {
        Some(ParsedList { terms: Seq::empty(), end: p + 1, known })
    } else if p <= s.len() {
        read_more_args(s, p, known, Seq::empty())
    } else {
        None
    }
}

/// What the text `s` reads as, if it is one expression and nothing else:
/// its model, and the symbols that are known once it is read.
pub open spec fn read(s: Seq<char>, known: Known) -> Option<(Term, Known)> {
    match read_sum(s, 0, known) {
        Some(sum) => if after_spaces(s, sum.end) == s.len() {
            Some((sum.term, sum.known))
        } else {
            None
        },
        None => None,
    }
}

/// Whether `r` is the expression `expected` with the position after it,
/// and `known` what is known once it is read; or a failure where there is
/// none.
pub open spec fn gives(r: Result<(Atom, usize), String>, known: Known, expected: Option<Parsed>)
    -> bool {
    match expected {
        Some(e) => r is Ok && r->Ok_0.0@ == e.term && r->Ok_0.1 == e.end && known == e.known,
        None => r is Err,
    }
}

/// Whether `r` is the list `expected` with the position after it, and
/// `known` what is known once it is read; or a failure where there is none.
pub open spec fn gives_list(
    r: Result<(Vec<Atom>, usize), String>,
    known: Known,
    expected: Option<ParsedList>,
) -> bool {
    match expected {
        Some(e) => r is Ok && terms(r->Ok_0.0) == e.terms && r->Ok_0.1 == e.end && known
            == e.known,
        None => r is Err,
    }
}

fn digit(c: char) -> (r: bool)
    ensures
        r == is_digit(c),
{
    '0' <= c && c <= '9'
}

fn letter(c: char) -> (r: bool)
    ensures
        r == is_letter(c),
{
    ('a' <= c && c <= 'z') || ('A' <= c && c <= 'Z') || c == '_'
}

/// The failure that says `message`.
fn failure<T>(message: &str) -> (r: Result<T, String>)
    ensures
        r is Err,
        r->Err_0@ == message@,
{
    Err(message.to_owned())
}

/// The first position from `pos` on that holds no space.
fn skip_spaces(s: &Vec<char>, pos: usize) -> (r: usize)
    requires
        pos <= s.len(),
    ensures
        pos <= r <= s.len(),
        r == after_spaces(s@, pos as nat),
{
    let mut p: usize = pos;
    while p < s.len() && s[p] == ' '
        invariant
            pos <= p <= s.len(),
            after_spaces(s@, pos as nat) == after_spaces(s@, p as nat),
        decreases s.len() - p,
    {
        p = p + 1;
    }
    p
}

/// The value of digits grows with their number.
proof fn lemma_digits_value_grows(s: Seq<char>, pos: nat, n: nat, m: nat)
    requires
        n <= m,
        pos + m <= s.len(),
        forall|k: int| pos <= k < pos + m ==> is_digit(#[trigger] s[k]),
    ensures
        0 <= digits_value(s, pos, n) <= digits_value(s, pos, m),
    decreases m,
{
    if n < m {
        lemma_digits_value_grows(s, pos, n, (m - 1) as nat);
        lemma_digits_value_grows(s, pos, 0, (m - 1) as nat);
        assert(is_digit(s[pos + m - 1]));
    } else if m > 0 {
        lemma_digits_value_grows(s, pos, 0, (m - 1) as nat);
        assert(is_digit(s[pos + m - 1]));
    }
}

/// The digits at `pos` are digits, as many as were counted.
proof fn lemma_digits(s: Seq<char>, pos: nat)
    ensures
        pos + digits(s, pos) <= s.len() || digits(s, pos) == 0,
        forall|k: int| pos <= k < pos + digits(s, pos) ==> is_digit(#[trigger] s[k]),
    decreases s.len() - pos,
{
    if pos < s.len() && is_digit(s[pos as int]) {
        lemma_digits(s, pos + 1);
    }
}

/// Counting digits from `pos` on is counting those before `p` and those
/// from `p` on, where digits fill the positions between.
proof fn lemma_digits_split(s: Seq<char>, pos: nat, p: nat)
    requires
        pos <= p <= s.len(),
        forall|k: int| pos <= k < p ==> is_digit(#[trigger] s[k]),
    ensures
        digits(s, pos) == (p - pos) + digits(s, p),
    decreases p - pos,
{
    if pos < p {
        assert(is_digit(s[pos as int]));
        lemma_digits_split(s, pos + 1, p);
    }
}

/// The number at `pos`, where it can be held.
fn parse_number(s: &Vec<char>, pos: usize) -> (r: Result<(i64, usize), String>)
    requires
        pos < s.len(),
        is_digit(s[pos as int]),
    ensures
        match r {
            Ok((value, end)) => {
                &&& end == pos + digits(s@, pos as nat)
                &&& pos < end <= s.len()
                &&& value == digits_value(s@, pos as nat, digits(s@, pos as nat))
            },
            Err(_) => digits_value(s@, pos as nat, digits(s@, pos as nat)) > i64::MAX,
        },
{
    let mut value: i64 = 0;
    let mut p: usize = pos;
    while p < s.len() && digit(s[p])
        invariant
            pos <= p <= s.len(),
            p == pos ==> is_digit(s[pos as int]),
            forall|k: int| pos <= k < p ==> is_digit(#[trigger] s[k]),
            value == digits_value(s@, pos as nat, (p - pos) as nat),
            value >= 0,
        decreases s.len() - p,
    {
        let d: i64 = ((s[p] as u8) - 48) as i64;
        let next = match value.checked_mul(10) {
            Some(v) => v.checked_add(d),
            None => None,
        };
        proof {
            lemma_digits_split(s@, pos as nat, (p + 1) as nat);
        }
        match next {
            Some(v) => {
                value = v;
            },
            None => {
                proof {
                    let n = digits(s@, pos as nat);
                    lemma_digits(s@, pos as nat);
                    lemma_digits_value_grows(s@, pos as nat, (p + 1 - pos) as nat, n);
                }
                return failure("number out of range");
            },
        }
        p = p + 1;
    }
    proof {
        lemma_digits_split(s@, pos as nat, p as nat);
    }
    Ok((value, p))
}

/// Counting the characters of a name from `pos` on is counting those
/// before `p` and those from `p` on, where letters and digits fill the
/// positions between.
proof fn lemma_name_split(s: Seq<char>, pos: nat, p: nat)
    requires
        pos <= p <= s.len(),
        forall|k: int| pos <= k < p ==> is_letter(#[trigger] s[k]) || is_digit(s[k]),
    ensures
        name_length(s, pos) == (p - pos) + name_length(s, p),
    decreases p - pos,
{
    if pos < p {
        assert(is_letter(s[pos as int]) || is_digit(s[pos as int]));
        lemma_name_split(s, pos + 1, p);
    }
}

/// The name at `pos`.
fn parse_name(s: &Vec<char>, pos: usize) -> (r: (String, usize))
    requires
        pos < s.len(),
        is_letter(s[pos as int]),
    ensures
        pos < r.1 <= s.len(),
        r.1 == pos + name_length(s@, pos as nat),
        r.0@ == s@.subrange(pos as int, r.1 as int),
{
    let mut name = String::new();
    let mut p: usize = pos;
    while p < s.len() && (letter(s[p]) || digit(s[p]))
        invariant
            pos <= p <= s.len(),
            p == pos ==> is_letter(s[pos as int]),
            forall|k: int| pos <= k < p ==> is_letter(#[trigger] s[k]) || is_digit(s[k]),
            name@ == s@.subrange(pos as int, p as int),
        decreases s.len() - p,
    {
        name.push(s[p]);
        assert(s@.subrange(pos as int, p + 1) =~= s@.subrange(pos as int, p as int).push(
            s[p as int],
        ));
        p = p + 1;
    }
    proof {
        lemma_name_split(s@, pos as nat, p as nat);
    }
    (name, p)
}

fn parse_args(s: &Vec<char>, pos: usize, state: &mut State) -> (r: Result<
    (Vec<Atom>, usize),
    String,
>)
    requires
        pos <= s.len(),
        old(state).wf(),
    ensures
        final(state).wf(),
        final(state).extends(old(state)),
        r is Ok ==> pos < r->Ok_0.1 <= s.len(),
        gives_list(r, final(state)@, read_args(s@, pos as nat, old(state)@)),
    decreases s.len() - pos, 5nat,
{
    let mut args: Vec<Atom> = Vec::new();
    let mut p: usize = skip_spaces(s, pos);
    proof {
        lemma_terms(args, 0);
        assert(terms(args) =~= Seq::<Term>::empty());
    }
    if p < s.len() && s[p] == ')' {
        return Ok((args, p + 1));
    }
    loop
        invariant
            pos <= p <= s.len(),
            state.wf(),
            state.extends(old(state)),
            read_args(s@, pos as nat, old(state)@) == read_more_args(
                s@,
                p as nat,
                state@,
                terms(args),
            ),
        decreases s.len() - p,
    {
        let (a, after) = match parse_sum(s, p, state) {
            Ok(x) => x,
            Err(e) => {
                return Err(e);
            },
        };
        let ghost before = args;
        args.push(a);
        proof {
            lemma_terms_pushed(before, args, a);
        }
        let q = skip_spaces(s, after);
        if q >= s.len() {
            return failure("missing closing parenthesis");
        }
        if s[q] == ')' {
            return Ok((args, q + 1));
        }
        if s[q] != ',' {
            return failure("expected a comma or a closing parenthesis");
        }
        p = q + 1;
    }
}

fn parse_base(s: &Vec<char>, pos: usize, state: &mut State) -> (r: Result<(Atom, usize), String>)
    requires
        pos <= s.len(),
        old(state).wf(),
    ensures
        final(state).wf(),
        final(state).extends(old(state)),
        r is Ok ==> pos < r->Ok_0.1 <= s.len(),
        gives(r, final(state)@, read_base(s@, pos as nat, old(state)@)),
    decreases s.len() - pos, 0nat,
{
    let p = skip_spaces(s, pos);
    if p >= s.len() {
        return failure("unexpected end of input");
    }
    let c = s[p];
    if digit(c) {
        match parse_number(s, p) {
            Ok((n, after)) => Ok((Atom::Num(n), after)),
            Err(e) => Err(e),
        }
    } else if letter(c) {
        let (name, after) = parse_name(s, p);
        let symbol = state.get_symbol(name.as_str());
        let q = skip_spaces(s, after);
        if q < s.len() && s[q] == '(' {
            match parse_args(s, q + 1, state) {
                Ok((args, end)) => Ok((make_fun(symbol, args), end)),
                Err(e) => Err(e),
            }
        } else {
            Ok((Atom::Var(symbol), after))
        }
    } else if c == '(' {
        let (inner, after) = match parse_sum(s, p + 1, state) {
            Ok(x) => x,
            Err(e) => {
                return Err(e);
            },
        };
        let q = skip_spaces(s, after);
        if q < s.len() && s[q] == ')' {
            Ok((inner, q + 1))
        } else {
            failure("missing closing parenthesis")
        }
    } else {
        failure("unexpected character")
    }
}

fn parse_factor(s: &Vec<char>, pos: usize, state: &mut State) -> (r: Result<(Atom, usize), String>)
    requires
        pos <= s.len(),
        old(state).wf(),
    ensures
        final(state).wf(),
        final(state).extends(old(state)),
        r is Ok ==> pos < r->Ok_0.1 <= s.len(),
        gives(r, final(state)@, read_factor(s@, pos as nat, old(state)@)),
    decreases s.len() - pos, 1nat,
{
    let (base, after) = match parse_base(s, pos, state) {
        Ok(x) => x,
        Err(e) => {
            return Err(e);
        },
    };
    let q = skip_spaces(s, after);
    if q < s.len() && s[q] == '^' {
        match parse_factor(s, q + 1, state) {
            Ok((exponent, end)) => Ok((make_pow(base, exponent), end)),
            Err(e) => Err(e),
        }
    } else {
        Ok((base, after))
    }
}

fn parse_term(s: &Vec<char>, pos: usize, state: &mut State) -> (r: Result<(Atom, usize), String>)
    requires
        pos <= s.len(),
        old(state).wf(),
    ensures
        final(state).wf(),
        final(state).extends(old(state)),
        r is Ok ==> pos < r->Ok_0.1 <= s.len(),
        gives(r, final(state)@, read_term(s@, pos as nat, old(state)@)),
    decreases s.len() - pos, 2nat,
{
    let (first, after) = match parse_factor(s, pos, state) {
        Ok(x) => x,
        Err(e) => {
            return Err(e);
        },
    };
    let mut factors: Vec<Atom> = Vec::new();
    factors.push(first);
    let mut end: usize = after;
    proof {
        lemma_terms(factors, 1);
        lemma_terms(factors, 0);
        assert(terms(factors) =~= seq![first@]);
    }
    loop
        invariant
            pos < end <= s.len(),
            state.wf(),
            state.extends(old(state)),
            read_term(s@, pos as nat, old(state)@) == read_factors(
                s@,
                end as nat,
                state@,
                terms(factors),
            ),
        decreases s.len() - end,
    {
        let q = skip_spaces(s, end);
        if q < s.len() && s[q] == '*' {
            match parse_factor(s, q + 1, state) {
                Ok((next, after_next)) => {
                    let ghost before = factors;
                    factors.push(next);
                    proof {
                        lemma_terms_pushed(before, factors, next);
                    }
                    end = after_next;
                },
                Err(e) => {
                    return Err(e);
                },
            }
        } else {
            return Ok((make_mul(factors), end));
        }
    }
}

fn parse_sum(s: &Vec<char>, pos: usize, state: &mut State) -> (r: Result<(Atom, usize), String>)
    requires
        pos <= s.len(),
        old(state).wf(),
    ensures
        final(state).wf(),
        final(state).extends(old(state)),
        r is Ok ==> pos < r->Ok_0.1 <= s.len(),
        gives(r, final(state)@, read_sum(s@, pos as nat, old(state)@)),
    decreases s.len() - pos, 3nat,
{
    let (first, after) = match parse_term(s, pos, state) {
        Ok(x) => x,
        Err(e) => {
            return Err(e);
        },
    };
    let mut summands: Vec<Atom> = Vec::new();
    summands.push(first);
    let mut end: usize = after;
    proof {
        lemma_terms(summands, 1);
        lemma_terms(summands, 0);
        assert(terms(summands) =~= seq![first@]);
    }
    loop
        invariant
            pos < end <= s.len(),
            state.wf(),
            state.extends(old(state)),
            read_sum(s@, pos as nat, old(state)@) == read_terms(
                s@,
                end as nat,
                state@,
                terms(summands),
            ),
        decreases s.len() - end,
    {
        let q = skip_spaces(s, end);
        if q < s.len() && s[q] == '+' {
            match parse_term(s, q + 1, state) {
                Ok((next, after_next)) => {
                    let ghost before = summands;
                    summands.push(next);
                    proof {
                        lemma_terms_pushed(before, summands, next);
                    }
                    end = after_next;
                },
                Err(e) => {
                    return Err(e);
                },
            }
        } else {
            return Ok((make_add(summands), end));
        }
    }
}

impl Atom {
    /// Reads an expression from `input`. The names in it become symbols of
    /// `state`, which keeps the symbols that it knew. The whole input must
    /// be one expression.
    pub fn parse(input: &str, state: &mut State) -> (r: Result<Atom, String>)
        requires
            old(state).wf(),
        ensures
            final(state).wf(),
            final(state).extends(old(state)),
            match read(input@, old(state)@) {
                Some((term, known)) => r is Ok && r->Ok_0@ == term && final(state)@ == known,
                None => r is Err,
            },
    {
        let s = chars_of(input);
        match parse_sum(&s, 0, state) {
            Ok((a, after)) => {
                let q = skip_spaces(&s, after);
                if q == s.len() {
                    Ok(a)
                } else {
                    failure("unexpected text after the expression")
                }
            },
            Err(e) => Err(e),
        }
    }

    /// The whole number `n`.
    pub fn new_num(n: i64) -> (r: Atom)
        ensures
            r == Atom::Num(n),
    {
        Atom::Num(n)
    }
}

} // verus!

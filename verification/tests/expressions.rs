use sql_lineage::atom::{
    compare, compare_lists, compare_symbols, contains_atom, least_rotation, make_add, make_fun,
    make_mul, make_pow, position, rotate, same_atom, sort_atoms, Atom, Order, Symbol,
};
use sql_lineage::state::State;

fn symbol(id: usize) -> Symbol {
    Symbol { id, symmetric: false, antisymmetric: false, cyclesymmetric: false, linear: false }
}

fn var(id: usize) -> Atom {
    Atom::Var(symbol(id))
}

fn call(id: usize, args: Vec<Atom>) -> Atom {
    Atom::Fun { symbol: symbol(id), args }
}

#[test]
fn kinds_come_in_their_order() {
    let in_order = vec![
        Atom::Num(7),
        var(0),
        call(0, vec![]),
        Atom::Pow(Box::new(var(0)), Box::new(Atom::Num(2))),
        Atom::Mul(vec![var(0), var(1)]),
        Atom::Add(vec![var(0), var(1)]),
    ];
    for i in 0..in_order.len() {
        for j in 0..in_order.len() {
            let expected = if i < j {
                Order::Less
            } else if i == j {
                Order::Equal
            } else {
                Order::Greater
            };
            assert_eq!(compare(&in_order[i], &in_order[j]), expected);
        }
    }
}

#[test]
fn expressions_of_one_kind_are_ordered_by_what_they_hold() {
    assert_eq!(compare(&Atom::Num(-3), &Atom::Num(2)), Order::Less);
    assert_eq!(compare(&var(4), &var(1)), Order::Greater);
    assert_eq!(compare(&call(1, vec![var(9)]), &call(2, vec![])), Order::Less);
    assert_eq!(compare(&call(1, vec![var(1)]), &call(1, vec![var(1), var(0)])), Order::Less);
    assert_eq!(compare(&call(1, vec![var(2)]), &call(1, vec![var(1), var(0)])), Order::Greater);
    let low = Atom::Pow(Box::new(var(1)), Box::new(Atom::Num(5)));
    let high = Atom::Pow(Box::new(var(1)), Box::new(Atom::Num(6)));
    assert_eq!(compare(&low, &high), Order::Less);
    assert_eq!(compare(&high, &low), Order::Greater);
    assert_eq!(compare_lists(&vec![var(1)], &vec![var(1)]), Order::Equal);
    assert_eq!(compare_lists(&vec![], &vec![var(1)]), Order::Less);
}

#[test]
fn symbols_of_one_number_are_told_apart_by_their_attributes() {
    let plain = symbol(3);
    let symmetric = Symbol { symmetric: true, ..plain };
    let linear = Symbol { linear: true, ..plain };
    assert_eq!(compare_symbols(&plain, &plain), Order::Equal);
    assert_eq!(compare_symbols(&plain, &symmetric), Order::Less);
    assert_eq!(compare_symbols(&symmetric, &linear), Order::Greater);
    assert_eq!(compare_symbols(&symbol(2), &symmetric), Order::Less);
    assert!(!same_atom(&Atom::Var(plain), &Atom::Var(linear)));
    assert!(same_atom(&Atom::Var(linear), &Atom::Var(linear)));
}

#[test]
fn sorting_keeps_what_the_list_held() {
    let sorted = sort_atoms(vec![var(2), Atom::Num(5), var(0), Atom::Num(5), call(1, vec![])]);
    assert_eq!(sorted, vec![Atom::Num(5), Atom::Num(5), var(0), var(2), call(1, vec![])]);
    assert_eq!(sort_atoms(vec![]), vec![]);
}

#[test]
fn lists_are_turned_to_their_least_turn() {
    let list = vec![var(3), var(1), var(2), var(1), var(0)];
    assert_eq!(rotate(&list, 0), list);
    assert_eq!(rotate(&list, 2), vec![var(2), var(1), var(0), var(3), var(1)]);
    assert_eq!(least_rotation(list), vec![var(0), var(3), var(1), var(2), var(1)]);
    assert_eq!(least_rotation(vec![var(1), var(0), var(1), var(0)]), vec![
        var(0),
        var(1),
        var(0),
        var(1)
    ]);
    assert_eq!(least_rotation(vec![]), vec![]);
}

#[test]
fn functions_keep_their_arguments_as_their_symmetry_says() {
    let args = || vec![var(2), var(0), var(1)];
    let plain = symbol(7);
    let symmetric = Symbol { symmetric: true, ..plain };
    let cyclic = Symbol { cyclesymmetric: true, ..plain };
    assert_eq!(make_fun(plain, args()), Atom::Fun { symbol: plain, args: args() });
    assert_eq!(
        make_fun(symmetric, args()),
        Atom::Fun { symbol: symmetric, args: vec![var(0), var(1), var(2)] }
    );
    assert_eq!(
        make_fun(cyclic, args()),
        Atom::Fun { symbol: cyclic, args: vec![var(0), var(1), var(2)] }
    );
    assert_eq!(
        make_fun(cyclic, vec![var(1), var(0), var(2)]),
        Atom::Fun { symbol: cyclic, args: vec![var(0), var(2), var(1)] }
    );
}

#[test]
fn powers_of_one_and_zero() {
    assert_eq!(make_pow(var(1), Atom::Num(1)), var(1));
    assert_eq!(make_pow(var(1), Atom::Num(0)), Atom::Num(1));
    assert_eq!(make_pow(var(1), Atom::Num(2)), Atom::Pow(Box::new(var(1)), Box::new(Atom::Num(2))));
    assert_eq!(make_pow(var(1), var(0)), Atom::Pow(Box::new(var(1)), Box::new(var(0))));
}

#[test]
fn products_gather_their_numbers() {
    assert_eq!(make_mul(vec![]), Atom::Num(1));
    assert_eq!(make_mul(vec![Atom::Num(2), Atom::Num(3)]), Atom::Num(6));
    assert_eq!(make_mul(vec![var(1)]), var(1));
    assert_eq!(make_mul(vec![var(1), Atom::Num(0), var(2)]), Atom::Num(0));
    assert_eq!(
        make_mul(vec![var(2), Atom::Num(2), Atom::Mul(vec![Atom::Num(5), var(1)])]),
        Atom::Mul(vec![Atom::Num(10), var(1), var(2)])
    );
    // A sum among the factors stays a factor.
    let sum = Atom::Add(vec![Atom::Num(1), var(0)]);
    assert_eq!(
        make_mul(vec![var(1), Atom::Add(vec![Atom::Num(1), var(0)])]),
        Atom::Mul(vec![var(1), sum])
    );
}

#[test]
fn a_number_too_large_stays_among_the_factors() {
    assert_eq!(
        make_mul(vec![Atom::Num(i64::MAX), Atom::Num(2), var(0)]),
        Atom::Mul(vec![Atom::Num(2), Atom::Num(i64::MAX), var(0)])
    );
    assert_eq!(
        make_add(vec![Atom::Num(i64::MAX), Atom::Num(1), Atom::Num(-1)]),
        Atom::Add(vec![Atom::Num(1), Atom::Num(i64::MAX - 1)])
    );
}

#[test]
fn sums_gather_their_numbers() {
    assert_eq!(make_add(vec![]), Atom::Num(0));
    assert_eq!(make_add(vec![Atom::Num(2), Atom::Num(-2)]), Atom::Num(0));
    assert_eq!(make_add(vec![Atom::Num(2), var(0), Atom::Num(-2)]), var(0));
    assert_eq!(
        make_add(vec![var(2), Atom::Add(vec![Atom::Num(4), var(1)]), Atom::Num(3)]),
        Atom::Add(vec![Atom::Num(7), var(1), var(2)])
    );
    // A product among the terms stays a term.
    assert_eq!(
        make_add(vec![Atom::Mul(vec![Atom::Num(2), var(0)]), var(1)]),
        Atom::Add(vec![var(1), Atom::Mul(vec![Atom::Num(2), var(0)])])
    );
}

#[test]
fn expressions_are_found_inside_others() {
    let inner = call(1, vec![var(0), Atom::Num(2)]);
    let outer = Atom::Mul(vec![
        var(5),
        Atom::Pow(Box::new(Atom::Add(vec![var(3), inner])), Box::new(Atom::Num(2))),
    ]);
    assert!(contains_atom(&outer, &var(0)));
    assert!(contains_atom(&outer, &Atom::Num(2)));
    assert!(contains_atom(&outer, &call(1, vec![var(0), Atom::Num(2)])));
    assert!(contains_atom(&outer, &var(5)));
    assert!(!contains_atom(&outer, &var(4)));
    assert!(!contains_atom(&outer, &call(1, vec![var(0)])));
    let list = vec![var(3), var(1), var(3)];
    assert_eq!(position(&list, &var(3)), Some(0));
    assert_eq!(position(&list, &var(1)), Some(1));
    assert_eq!(position(&list, &var(2)), None);
}

#[test]
fn texts_are_read_as_the_grammar_says() {
    let mut state = State::new();
    // Names take their numbers in the order in which they are met.
    assert_eq!(Atom::parse(" b ", &mut state), Ok(var(0)));
    assert_eq!(Atom::parse("a", &mut state), Ok(var(1)));
    assert_eq!(Atom::parse("b", &mut state), Ok(var(0)));
    assert_eq!(Atom::parse("x_1", &mut state), Ok(var(2)));
    assert_eq!(Atom::parse("042", &mut state), Ok(Atom::Num(42)));
    assert_eq!(Atom::parse("9223372036854775807", &mut state), Ok(Atom::Num(i64::MAX)));
    assert_eq!(Atom::parse("2*3+4", &mut state), Ok(Atom::Num(10)));
    assert_eq!(Atom::parse("2*(3+4)", &mut state), Ok(Atom::Num(14)));
    assert_eq!(Atom::parse("a*b", &mut state), Ok(Atom::Mul(vec![var(0), var(1)])));
    assert_eq!(
        Atom::parse("a + 2*b", &mut state),
        Ok(Atom::Add(vec![var(1), Atom::Mul(vec![Atom::Num(2), var(0)])]))
    );
    // A power binds more tightly than a product, and to the right.
    assert_eq!(
        Atom::parse("a^b^2", &mut state),
        Ok(Atom::Pow(
            Box::new(var(1)),
            Box::new(Atom::Pow(Box::new(var(0)), Box::new(Atom::Num(2))))
        ))
    );
    assert_eq!(Atom::parse("a^1", &mut state), Ok(var(1)));
    assert_eq!(Atom::parse("a^0*b", &mut state), Ok(var(0)));
    assert_eq!(Atom::parse("g()", &mut state), Ok(call(3, vec![])));
    assert_eq!(
        Atom::parse("g ( b , a+1 )", &mut state),
        Ok(call(3, vec![var(0), Atom::Add(vec![Atom::Num(1), var(1)])]))
    );
}

#[test]
fn texts_that_are_no_expression() {
    let mut state = State::new();
    for text in [
        "",
        "  ",
        "+",
        "a+",
        "a*",
        "a^",
        "a b",
        "(a",
        "a)",
        "f(a",
        "f(a,",
        "f(a,)",
        "f(a b)",
        "f(,a)",
        "2 3",
        "a-b",
        "9223372036854775808",
    ] {
        assert!(Atom::parse(text, &mut state).is_err(), "{text:?}");
    }
    // What was read before a failure stays known: `a` and then `f` were
    // read, `b` never was.
    assert_eq!(Atom::parse("b", &mut state), Ok(var(2)));
    assert_eq!(Atom::parse("a", &mut state), Ok(var(0)));
    assert_eq!(Atom::parse("f", &mut state), Ok(var(1)));
}

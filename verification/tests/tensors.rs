use sql_lineage::atom::{Atom, FunctionAttribute};
use sql_lineage::state::State;
use sql_lineage::tensors::InlineVar;

fn test_state() -> State {
    // fs1 is symmetric and fc1 is cyclesymmetric
    let mut state = State::new();
    let _ = state.get_symbol_with_attributes("fs1", &[FunctionAttribute::Symmetric]).unwrap();
    let _ = state.get_symbol_with_attributes("fc1", &[FunctionAttribute::Cyclesymmetric]).unwrap();
    state
}

#[test]
fn index_group() {
    let mut state = test_state();
    let a1 = Atom::parse("fc1(mu1,mu2,mu1,mu3,mu4)*fs1(mu2,mu3,mu4)", &mut state).unwrap();

    let mus: Vec<_> = (0..4)
        .map(|i| InlineVar::new(state.get_symbol(&format!("mu{}", i + 1))))
        .collect();
    let mu_ref = mus.iter().map(|x| x.as_view()).collect::<Vec<_>>();

    let colors = vec![
        Atom::new_num(1),
        Atom::new_num(2),
        Atom::new_num(1),
        Atom::new_num(2),
    ];
    let col_ref = colors.iter().map(|x| x.as_view()).collect::<Vec<_>>();

    let r1 = a1.canonize_tensors(&mu_ref, Some(&col_ref), &state).unwrap();

    let a2 = Atom::parse("fc1(mu4,mu3,mu1,mu2,mu3)*fs1(mu2,mu1,mu4)", &mut state).unwrap();

    let r2 = a2.canonize_tensors(&mu_ref, Some(&col_ref), &state).unwrap();

    assert_eq!(r1, r2);

    let r3 = a1.canonize_tensors(&mu_ref, None, &state).unwrap();

    assert_ne!(r1, r3);
}

#[test]
fn canonize_tensors() {
    let mut state = test_state();
    let a1 = Atom::parse(
            "fs1(k2,mu1,mu2)*fs1(mu1,mu3)*fc1(mu4,mu2,k1,mu4,k1,mu3)*(1+x)*f(k)*fs1(mu5,mu6)^2*f(mu7,mu9,k3,mu9,mu7)*h(mu8)*i(mu8)+fc1(mu4,mu5,mu6)*fc1(mu5,mu4,mu6)",
            &mut state,
        )
        .unwrap();

    let mus: Vec<_> = (0..10)
        .map(|i| InlineVar::new(state.get_symbol(&format!("mu{}", i + 1))))
        .collect();
    let mu_ref = mus.iter().map(|x| x.as_view()).collect::<Vec<_>>();

    let r1 = a1.canonize_tensors(&mu_ref, None, &state).unwrap();

    let a2 = Atom::parse(
            "fs1(k2,mu2,mu9)*fs1(mu2,mu5)*fc1(k1,mu8,k1,mu5,mu8,mu9)*(1+x)*f(k)*fs1(mu3,mu6)^2*f(mu7,mu1,k3,mu1,mu7)*h(mu4)*i(mu4)+fc1(mu1,mu4,mu6)*fc1(mu4,mu1,mu6)",
            &mut state,
        )
        .unwrap();

    let r2 = a2.canonize_tensors(&mu_ref, None, &state).unwrap();

    assert_eq!(r1, r2);
}

#[test]
fn doc_example_of_canonize_tensors() {
    let mut state = State::new();
    let _ = state.get_symbol_with_attributes("fs", &[FunctionAttribute::Symmetric]).unwrap();
    let _ = state.get_symbol_with_attributes("fc", &[FunctionAttribute::Cyclesymmetric]).unwrap();
    let a = Atom::parse("fs(mu2,mu3)*fc(mu4,mu2,k1,mu4,k1,mu3)", &mut state).unwrap();
    let b = Atom::parse("fs(mu1,mu2)*fc(mu1,k1,mu3,k1,mu2,mu3)", &mut state).unwrap();
    let mus: Vec<_> = (0..4)
        .map(|i| InlineVar::new(state.get_symbol(&format!("mu{}", i + 1))))
        .collect();
    let mu_ref = mus.iter().map(|x| x.as_view()).collect::<Vec<_>>();
    let r = a.canonize_tensors(&mu_ref, None, &state).unwrap();
    let s = b.canonize_tensors(&mu_ref, None, &state).unwrap();
    assert_eq!(r, s);
    // Canonizing is idempotent.
    let again = r.canonize_tensors(&mu_ref, None, &state).unwrap();
    assert_eq!(r, again);
}

#[test]
fn index_group_must_match_the_indices() {
    let mut state = test_state();
    let a = Atom::parse("fs1(mu1,mu1)", &mut state).unwrap();
    let mu1 = InlineVar::new(state.get_symbol("mu1"));
    let one = Atom::new_num(1);
    let e = a
        .canonize_tensors(&[mu1.as_view()], Some(&[one.as_view(), one.as_view()]), &state)
        .unwrap_err();
    assert_eq!(e, "Index group must have the same length as contracted indices");
}

#[test]
fn open_index_is_an_error() {
    let mut state = test_state();
    let a = Atom::parse("fs1(mu1,k)", &mut state).unwrap();
    let mu1 = InlineVar::new(state.get_symbol("mu1"));
    assert!(a.canonize_tensors(&[mu1.as_view()], None, &state).is_err());
}

#[test]
fn parse_normalizes_products_and_sums() {
    let mut state = State::new();
    let a = Atom::parse("x*y + 2 + 3", &mut state).unwrap();
    let b = Atom::parse("5 + y*x", &mut state).unwrap();
    assert_eq!(a, b);
    assert!(Atom::parse("x*", &mut state).is_err());
    assert!(Atom::parse("f(x", &mut state).is_err());
}

#[test]
fn tensors_that_are_not_handled() {
    let mut state = test_state();
    let _ = state.get_symbol_with_attributes("fa1", &[FunctionAttribute::Antisymmetric]).unwrap();
    let mus: Vec<_> = (0..2)
        .map(|i| InlineVar::new(state.get_symbol(&format!("mu{}", i + 1))))
        .collect();
    let mu_ref = mus.iter().map(|x| x.as_view()).collect::<Vec<_>>();
    let antisymmetric = Atom::parse("fa1(mu1,mu2)*fs1(mu1,mu2)", &mut state).unwrap();
    assert_eq!(
        antisymmetric.canonize_tensors(&mu_ref, None, &state),
        Err("Antisymmetric functions are not supported yet".to_string())
    );
    let power = Atom::parse("fs1(mu1,mu1)^x", &mut state).unwrap();
    assert_eq!(
        power.canonize_tensors(&mu_ref, None, &state),
        Err("Only tensors raised to positive powers are supported".to_string())
    );
    let nested = Atom::parse("(fs1(mu1,k)+x)*fs1(mu1,k)", &mut state).unwrap();
    assert_eq!(
        nested.canonize_tensors(&mu_ref, None, &state),
        Err("Nested additions containing contracted indices is not supported".to_string())
    );
    let open = Atom::parse("fs1(mu1,k)", &mut state).unwrap();
    assert_eq!(
        open.canonize_tensors(&mu_ref, None, &state),
        Err("Index mu1 is not contracted".to_string())
    );
}

#[test]
fn what_holds_no_index_is_left_alone() {
    let mut state = test_state();
    let mu1 = InlineVar::new(state.get_symbol("mu1"));
    let a = Atom::parse("3*x*f(y)+2", &mut state).unwrap();
    let r = a.canonize_tensors(&[mu1.as_view()], None, &state).unwrap();
    assert_eq!(r, a);
    let squared = Atom::parse("fs1(mu1,k)^2", &mut state).unwrap();
    let twice = Atom::parse("fs1(mu1,k)*fs1(k,mu1)", &mut state).unwrap();
    assert_eq!(
        squared.canonize_tensors(&[mu1.as_view()], None, &state).unwrap(),
        twice.canonize_tensors(&[mu1.as_view()], None, &state).unwrap()
    );
}

#[test]
fn an_index_without_its_partner_is_named() {
    let mut state = test_state();
    let mus: Vec<_> = (0..3)
        .map(|i| InlineVar::new(state.get_symbol(&format!("mu{}", i + 1))))
        .collect();
    let mu_ref = mus.iter().map(|x| x.as_view()).collect::<Vec<_>>();
    let once = Atom::parse("f(mu1)", &mut state).unwrap();
    assert_eq!(
        once.canonize_tensors(&mu_ref[..1], None, &state),
        Err("Index mu1 is not contracted".to_string())
    );
    // The first of the indices that is met an odd number of times is named,
    // in the order of the indices, not of the meetings.
    let two = Atom::parse("f(mu3,mu2)*fs1(mu1,mu1)", &mut state).unwrap();
    assert_eq!(
        two.canonize_tensors(&mu_ref, None, &state),
        Err("Index mu2 is not contracted".to_string())
    );
    let thrice = Atom::parse("f(mu1,mu2,k)*fs1(mu1,mu2)*h(mu2)", &mut state).unwrap();
    assert_eq!(
        thrice.canonize_tensors(&mu_ref, None, &state),
        Err("Index mu2 is not contracted".to_string())
    );
    let under_a_power = Atom::parse("fs1(mu1,mu2)^3*f(mu2)", &mut state).unwrap();
    assert_eq!(
        under_a_power.canonize_tensors(&mu_ref, None, &state),
        Err("Index mu1 is not contracted".to_string())
    );
    // In a sum the first term that fails decides; the terms stand in their
    // order, `f(mu2)` before `f(mu3)`.
    let sum = Atom::parse("fs1(mu1,mu1)+f(mu3)+f(mu2)", &mut state).unwrap();
    assert_eq!(sum.to_text(&state), "fs1(mu1,mu1)+f(mu2)+f(mu3)");
    assert_eq!(
        sum.canonize_tensors(&mu_ref, None, &state),
        Err("Index mu2 is not contracted".to_string())
    );
}

#[test]
fn expressions_are_written_as_they_are_read() {
    let mut state = test_state();
    for text in ["x", "42", "f(x,y+1,g())", "x^2", "(x+1)^(y*z)", "2*x*(y+1)", "x+y*z", "fs1(a,b)^2*h"] {
        let a = Atom::parse(text, &mut state).unwrap();
        let written = a.to_text(&state);
        assert_eq!(Atom::parse(&written, &mut state), Ok(a), "{text} {written}");
    }
    let a = Atom::parse("f(x, 2 + y) * 3", &mut state).unwrap();
    assert_eq!(a.to_text(&state), "3*f(x,2+y)");
    assert_eq!(Atom::new_num(-7).to_text(&state), "-7");
    assert_eq!(Atom::new_num(i64::MIN).to_text(&state), "-9223372036854775808");
    assert_eq!(Atom::parse("(x^y)^z", &mut state).unwrap().to_text(&state), "(x^y)^z");
}

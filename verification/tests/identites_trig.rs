use calc_qpur::expr::Expr;
use calc_qpur::identites_trig::trig_identites;
use num_rational::BigRational;
use num_traits::{One, Zero};

fn rat_i(i: i64) -> Expr {
    Expr::Rat(BigRational::from_integer(i.into()))
}
fn zero() -> Expr {
    rat_i(0)
}
fn canon_strict(e: Expr) -> Expr {
    // identités -> simplify -> canon (comparaison propre)
    e.simplify().canon()
}

#[test]
fn b1_parite_sin() {
    // sin(0 - pi/6) -> 0 - sin(pi/6)
    let e = Expr::Sin(Box::new(Expr::Sub(
        Box::new(zero()),
        Box::new(Expr::Div(Box::new(Expr::Pi), Box::new(rat_i(6)))),
    )));

    let out = trig_identites(e).simplify().canon();

    match out {
        Expr::Sub(a, b) => {
            assert!(matches!(*a, Expr::Rat(r) if r.is_zero()));
            assert!(matches!(*b, Expr::Sin(_)));
        }
        _ => panic!("attendu Sub(0, Sin(...)), obtenu: {out:?}"),
    }
}

#[test]
fn b1_parite_cos() {
    // cos(0 - pi/3) -> cos(pi/3)
    let e = Expr::Cos(Box::new(Expr::Sub(
        Box::new(zero()),
        Box::new(Expr::Div(Box::new(Expr::Pi), Box::new(rat_i(3)))),
    )));

    let out = trig_identites(e).simplify().canon();

    match out {
        Expr::Cos(_) => {}
        _ => panic!("attendu Cos(...), obtenu: {out:?}"),
    }
}

#[test]
fn b2_decalage_pi_sin() {
    // sin(pi/7 + pi) -> 0 - sin(pi/7)
    let pi_sur_7 = Expr::Div(Box::new(Expr::Pi), Box::new(rat_i(7)));
    let e = Expr::Sin(Box::new(Expr::Add(Box::new(pi_sur_7), Box::new(Expr::Pi))));

    let out = trig_identites(e).simplify().canon();

    match out {
        Expr::Sub(a, b) => {
            assert!(matches!(*a, Expr::Rat(r) if r.is_zero()));
            assert!(matches!(*b, Expr::Sin(_)));
        }
        _ => panic!("attendu Sub(0, Sin(pi/7)), obtenu: {out:?}"),
    }
}

#[test]
fn b3_pythagore_strict() {
    // sin(x)^2 + cos(x)^2 -> 1, avec x = pi/5
    let x = Expr::Div(Box::new(Expr::Pi), Box::new(rat_i(5)));

    let sin2 = Expr::PowInt(Box::new(Expr::Sin(Box::new(x.clone()))), 2);
    let cos2 = Expr::PowInt(Box::new(Expr::Cos(Box::new(x.clone()))), 2);

    let e = Expr::Add(Box::new(sin2), Box::new(cos2));

    let out = canon_strict(trig_identites(e));

    assert!(
        matches!(out, Expr::Rat(ref r) if r.is_one()),
        "attendu 1, obtenu: {out:?}"
    );
}

#[test]
fn bonus_sin_sur_cos_vers_tan() {
    // sin(pi/4)/cos(pi/4) -> tan(pi/4)
    let x = Expr::Div(Box::new(Expr::Pi), Box::new(rat_i(4)));

    let e = Expr::Div(
        Box::new(Expr::Sin(Box::new(x.clone()))),
        Box::new(Expr::Cos(Box::new(x))),
    );

    let out = trig_identites(e).simplify().canon();

    match out {
        Expr::Tan(_) => {}
        _ => panic!("attendu Tan(...), obtenu: {out:?}"),
    }
}

// -------------------------
// B4 — périodicité (strict)
// -------------------------

#[test]
fn b4_periodicite_sin_2pi() {
    // sin(x + 2π) -> sin(x)
    let x = Expr::Div(Box::new(Expr::Pi), Box::new(rat_i(7)));
    let two_pi = Expr::Mul(Box::new(rat_i(2)), Box::new(Expr::Pi));
    let e = Expr::Sin(Box::new(Expr::Add(Box::new(x.clone()), Box::new(two_pi))));
    let out = canon_strict(trig_identites(e));
    assert!(
        matches!(out, Expr::Sin(_)),
        "attendu Sin(...), obtenu: {out:?}"
    );
}

#[test]
fn b4_periodicite_cos_2pi() {
    // cos(x - 2π) -> cos(x)
    let x = Expr::Div(Box::new(Expr::Pi), Box::new(rat_i(5)));
    let two_pi = Expr::Mul(Box::new(rat_i(2)), Box::new(Expr::Pi));
    let e = Expr::Cos(Box::new(Expr::Sub(Box::new(x.clone()), Box::new(two_pi))));
    let out = canon_strict(trig_identites(e));
    assert!(
        matches!(out, Expr::Cos(_)),
        "attendu Cos(...), obtenu: {out:?}"
    );
}

#[test]
fn b4_periodicite_tan_pi() {
    // tan(x + π) -> tan(x)
    let x = Expr::Div(Box::new(Expr::Pi), Box::new(rat_i(9)));
    let e = Expr::Tan(Box::new(Expr::Add(Box::new(x.clone()), Box::new(Expr::Pi))));
    let out = canon_strict(trig_identites(e));
    assert!(
        matches!(out, Expr::Tan(_)),
        "attendu Tan(...), obtenu: {out:?}"
    );
}

// -------------------------
// B5 — ±π/2 (strict)
// -------------------------

#[test]
fn b5_decalage_sin_pi_sur_2() {
    // sin(x + π/2) -> cos(x)
    let x = Expr::Div(Box::new(Expr::Pi), Box::new(rat_i(7)));
    let pi2 = Expr::Div(Box::new(Expr::Pi), Box::new(rat_i(2)));
    let e = Expr::Sin(Box::new(Expr::Add(Box::new(x.clone()), Box::new(pi2))));
    let out = canon_strict(trig_identites(e));
    assert!(
        matches!(out, Expr::Cos(_)),
        "attendu Cos(...), obtenu: {out:?}"
    );
}

#[test]
fn b5_decalage_cos_pi_sur_2() {
    // cos(x + π/2) -> 0 - sin(x)
    let x = Expr::Div(Box::new(Expr::Pi), Box::new(rat_i(5)));
    let pi2 = Expr::Div(Box::new(Expr::Pi), Box::new(rat_i(2)));
    let e = Expr::Cos(Box::new(Expr::Add(Box::new(x.clone()), Box::new(pi2))));
    let out = canon_strict(trig_identites(e));
    match out {
        Expr::Sub(a, b) => {
            assert!(matches!(*a, Expr::Rat(r) if r.is_zero()));
            assert!(matches!(*b, Expr::Sin(_)));
        }
        _ => panic!("attendu Sub(0, Sin(...)), obtenu: {out:?}"),
    }
}

#[test]
fn b5_tan_pi_sur_2_indefini() {
    // tan(x + π/2) -> indéfini
    let x = Expr::Div(Box::new(Expr::Pi), Box::new(rat_i(9)));
    let pi2 = Expr::Div(Box::new(Expr::Pi), Box::new(rat_i(2)));
    let e = Expr::Tan(Box::new(Expr::Add(Box::new(x.clone()), Box::new(pi2))));
    let out = canon_strict(trig_identites(e));
    assert!(
        matches!(out, Expr::Indefini),
        "attendu Indefini, obtenu: {out:?}"
    );
}

// -------------------------
// B6 — π - x (strict)
// -------------------------

#[test]
fn b6_sin_pi_moins_x() {
    // sin(π - x) -> sin(x)
    let x = Expr::Div(Box::new(Expr::Pi), Box::new(rat_i(7)));
    let e = Expr::Sin(Box::new(Expr::Sub(Box::new(Expr::Pi), Box::new(x))));
    let out = canon_strict(trig_identites(e));
    assert!(
        matches!(out, Expr::Sin(_)),
        "attendu Sin(...), obtenu: {out:?}"
    );
}

#[test]
fn b6_cos_pi_moins_x() {
    // cos(π - x) -> 0 - cos(x)
    let x = Expr::Div(Box::new(Expr::Pi), Box::new(rat_i(7)));
    let e = Expr::Cos(Box::new(Expr::Sub(Box::new(Expr::Pi), Box::new(x))));
    let out = canon_strict(trig_identites(e));
    match out {
        Expr::Sub(a, b) => {
            assert!(matches!(*a, Expr::Rat(r) if r.is_zero()));
            assert!(matches!(*b, Expr::Cos(_)));
        }
        _ => panic!("attendu Sub(0, Cos(...)), obtenu: {out:?}"),
    }
}

use calc_qpur::canon::{canon_expr, extrait_carre_parfait};
use calc_qpur::entier::{big_puissance_rapide, int_sqrt_exact, int_sqrt_floor, pow10};
use calc_qpur::eval::{applique_trig_speciale, contient_var};
use calc_qpur::eval_expression;
use calc_qpur::expr::Expr;
use calc_qpur::format::{format_coeff_pi, format_exact_final, format_expr_pretty};
use calc_qpur::identites_trig::trig_identites;
use calc_qpur::jetons::{format_tokens, tokenize, Tok};
use calc_qpur::lecture::{eval_scaled, pi_scaled_compute, scaled_to_decimal};
use calc_qpur::rationnel::{
    format_rat, mod_euclid_bigint, mod_rationnel, rational_pow_int, rational_sqrt_exact,
};
use calc_qpur::rpn::{from_rpn, is_fonction_ident, to_rpn};
use calc_qpur::trig::{format_angle_kn_pi, gcd_i64, trig_special, TrigFn, TrigOutcome};
use num_bigint::BigInt;
use num_rational::BigRational;

fn rat(n: i64, d: i64) -> BigRational {
    BigRational::new(BigInt::from(n), BigInt::from(d))
}

fn r(n: i64, d: i64) -> Expr {
    Expr::Rat(rat(n, d))
}

fn b(e: Expr) -> Box<Expr> {
    Box::new(e)
}

fn var(s: &str) -> Expr {
    Expr::Var(s.to_string())
}

fn exact(s: &str) -> String {
    eval_expression(s, 20).unwrap().0
}

fn decimal(s: &str, digits: usize) -> String {
    eval_expression(s, digits).unwrap().1.unwrap()
}

fn erreur(s: &str) -> String {
    eval_expression(s, 20).unwrap_err()
}

fn jetons(s: &str) -> String {
    format_tokens(&tokenize(s).unwrap())
}

fn postfixe(s: &str) -> String {
    format_tokens(&to_rpn(&tokenize(s).unwrap()).unwrap())
}

fn arbre(s: &str) -> Expr {
    from_rpn(&to_rpn(&tokenize(s).unwrap()).unwrap()).unwrap()
}

fn erreur_arbre(s: &str) -> String {
    from_rpn(&to_rpn(&tokenize(s).unwrap()).unwrap()).unwrap_err()
}

// ---------------------------------------------------------------- lexer

#[test]
fn lexer_fraction_litterale_reduite() {
    assert_eq!(jetons("12/34 + x"), "6/17 + x");
}

#[test]
fn lexer_espaces_casse_et_symboles() {
    assert_eq!(jetons("  SIN ( PI / 4 ) "), "sin ( π / 4 )");
    assert_eq!(jetons("\t1\n+\r2"), "1 + 2");
    assert_eq!(jetons("√2"), "sqrt 2");
    assert_eq!(jetons("2π"), "2 π");
    assert_eq!(jetons("a_b2*X"), "a_b2 * x");
}

#[test]
fn lexer_division_ou_fraction() {
    assert_eq!(jetons("1 /2"), "1 / 2");
    assert_eq!(jetons("1/ 2"), "1 / 2");
    assert_eq!(jetons("1/x"), "1 / x");
    assert_eq!(jetons("6/3"), "2");
    assert_eq!(jetons("1/2/3"), "1/2 / 3");
}

#[test]
fn lexer_mot_pi_entier() {
    assert_eq!(jetons("pI"), "π");
    assert_eq!(jetons("2pi"), "2 π");
    assert_eq!(jetons("pi*pi"), "π * π");
    // A longer identifier that begins with these two letters stays whole.
    assert_eq!(jetons("pix"), "pix");
    assert_eq!(jetons("Pix"), "pix");
    assert_eq!(jetons("pi2"), "pi2");
    assert_eq!(jetons("pi_"), "pi_");
    let t = tokenize("pix").unwrap();
    assert_eq!(t.len(), 1);
    assert!(matches!(&t[0], Tok::Ident(s) if s == "pix"));
}

#[test]
fn lexer_blancs_unicode() {
    let liste = |c: char| {
        matches!(
            c,
            '\u{9}'..='\u{d}'
                | ' '
                | '\u{85}'
                | '\u{a0}'
                | '\u{1680}'
                | '\u{2000}'..='\u{200a}'
                | '\u{2028}'
                | '\u{2029}'
                | '\u{202f}'
                | '\u{205f}'
                | '\u{3000}'
        )
    };
    let mut blancs: u32 = 0;
    for n in 0..=0x10FFFFu32 {
        if let Some(c) = char::from_u32(n) {
            let saute = matches!(tokenize(&c.to_string()), Ok(v) if v.is_empty());
            assert_eq!(saute, liste(c), "U+{n:04X}");
            if saute {
                blancs += 1;
            }
        }
    }
    assert_eq!(blancs, 25);
    assert_eq!(jetons("1\u{a0}+\u{3000}2"), "1 + 2");
}

#[test]
fn lexer_nombre_de_tokens() {
    let t = tokenize("(1+2)*x^3").unwrap();
    assert_eq!(t.len(), 9);
    assert!(matches!(t[0], Tok::LPar));
    assert!(matches!(t[4], Tok::RPar));
    assert!(matches!(t[7], Tok::Caret));
    assert!(tokenize("   ").unwrap().is_empty());
}

#[test]
fn lexer_erreurs() {
    assert_eq!(tokenize("1/0").unwrap_err(), "division par zéro dans une fraction");
    assert_eq!(tokenize("2 $ 3").unwrap_err(), "caractère inattendu: '$'");
    assert_eq!(tokenize("1.5").unwrap_err(), "caractère inattendu: '.'");
    assert_eq!(tokenize("é").unwrap_err(), "caractère inattendu: 'é'");
}

// --------------------------------------------------------------- parser

#[test]
fn rpn_precedence_et_associativite() {
    assert_eq!(postfixe("1+2*3"), "1 2 3 * +");
    assert_eq!(postfixe("1-2-3"), "1 2 - 3 -");
    assert_eq!(postfixe("2^3^2"), "2 3 2 ^ ^");
    assert_eq!(postfixe("(1+2)*3"), "1 2 + 3 *");
    assert_eq!(postfixe("2*3^2"), "2 3 2 ^ *");
}

#[test]
fn rpn_fonctions_et_moins_unaire() {
    assert_eq!(postfixe("sin(pi/2)"), "π 2 / sin");
    assert_eq!(postfixe("-x"), "0 x -");
    assert_eq!(postfixe("2*-x"), "2 0 * x -");
    assert_eq!(postfixe("(-x)"), "0 x -");
    assert_eq!(postfixe("sqrt(2)+1"), "2 sqrt 1 +");
}

#[test]
fn rpn_parentheses_sans_partenaire() {
    assert_eq!(to_rpn(&tokenize("(1+2").unwrap()).unwrap_err(), "parenthèses non fermées");
    assert_eq!(to_rpn(&tokenize("1+2)").unwrap()).unwrap_err(), "parenthèse fermante inattendue");
}

#[test]
fn fonction_reconnue() {
    assert!(is_fonction_ident("sin"));
    assert!(is_fonction_ident("cos"));
    assert!(is_fonction_ident("tan"));
    assert!(is_fonction_ident("sqrt"));
    assert!(!is_fonction_ident("si"));
    assert!(!is_fonction_ident("sinh"));
    assert!(!is_fonction_ident(""));
}

#[test]
fn arbre_formes() {
    assert_eq!(arbre("1-2").texte(), "(1-2)");
    assert_eq!(arbre("2/x").texte(), "(2/x)");
    assert_eq!(arbre("x^3").texte(), "(x)^3");
    assert_eq!(arbre("sqrt(x)").texte(), "√(x)");
    assert_eq!(arbre("sin(x)+cos(y)*tan(z)").texte(), "(sin(x)+(cos(y)*tan(z)))");
    assert!(matches!(arbre("x^3"), Expr::PowInt(_, 3)));
}

#[test]
fn arbre_erreurs() {
    assert_eq!(erreur_arbre("1 2"), "expression invalide");
    assert_eq!(erreur_arbre("+"), "expression invalide");
    assert_eq!(erreur_arbre("1+"), "expression invalide");
    assert_eq!(erreur_arbre("sin"), "fonction sans argument");
    assert_eq!(erreur_arbre("2^(1/2)"), "exposant doit être entier");
    assert_eq!(erreur_arbre("2^x"), "exposant doit être entier");
    assert_eq!(erreur_arbre("2^99999999999999999999"), "exposant trop grand");
    assert_eq!(from_rpn(&[Tok::LPar]).unwrap_err(), "parenthèse inattendue en RPN");
    assert_eq!(from_rpn(&[]).unwrap_err(), "expression invalide");
}

#[test]
fn exposant_aux_limites_de_i64() {
    assert!(matches!(arbre("x^9223372036854775807"), Expr::PowInt(_, i64::MAX)));
    assert_eq!(erreur_arbre("x^9223372036854775808"), "exposant trop grand");
}

// ------------------------------------------------------------ simplifier

#[test]
fn simplifie_rationnels() {
    assert_eq!(exact("1/2 + 1/3"), "5/6");
    assert_eq!(exact("1/2 - 1/3"), "1/6");
    assert_eq!(exact("2/3 * 3/4"), "1/2");
    assert_eq!(exact("(1/2) / (1/3)"), "3/2");
    assert_eq!(exact("1/2 - 1/2"), "0");
    assert_eq!(exact("0 - 1/2"), "-1/2");
}

#[test]
fn simplifie_neutres() {
    assert_eq!(exact("x + 0"), "x");
    assert_eq!(exact("0 + x"), "x");
    assert_eq!(exact("x - 0"), "x");
    assert_eq!(exact("x * 1"), "x");
    assert_eq!(exact("1 * x"), "x");
    assert_eq!(exact("x * 0"), "0");
    assert_eq!(exact("x / 1"), "x");
    assert_eq!(exact("x - x"), "0");
    assert_eq!(exact("0 - x"), "-x");
}

#[test]
fn simplifie_puissances() {
    assert_eq!(exact("2^10"), "1024");
    assert_eq!(exact("(1/2)^3"), "1/8");
    assert_eq!(exact("x^0"), "1");
    assert_eq!(exact("(0-2)^3"), "-8");
    assert_eq!(exact("(0-2)^2"), "4");
    assert_eq!(exact("0^0"), "1");
    assert_eq!(exact("x^2"), "(x)^2");
}

#[test]
fn simplifie_puissance_negative() {
    let e = Expr::PowInt(b(r(2, 3)), -2).simplify();
    assert_eq!(e.texte(), "9/4");
    let e = Expr::PowInt(b(r(-2, 1)), -3).simplify();
    assert_eq!(e.texte(), "-1/8");
    let e = Expr::PowInt(b(r(5, 1)), i64::MIN + 1);
    assert!(matches!(e, Expr::PowInt(_, _)));
}

#[test]
fn puissance_de_zero_negative_reste_symbolique() {
    let e = Expr::PowInt(b(r(0, 1)), -1).simplify();
    assert_eq!(e.texte(), "(0)^-1");
    assert_eq!(eval_scaled(&e, 5).unwrap_err(), "division par zéro");
    assert!(rational_pow_int(&rat(0, 1), -1).is_none());
    assert!(rational_pow_int(&rat(0, 1), i64::MIN).is_none());
    assert_eq!(format_rat(&rational_pow_int(&rat(0, 1), 3).unwrap()), "0");
    assert_eq!(format_rat(&rational_pow_int(&rat(1, 1), i64::MIN).unwrap()), "1");
    assert_eq!(format_rat(&rational_pow_int(&rat(-1, 1), i64::MAX).unwrap()), "-1");
}

#[test]
fn simplifie_racines() {
    assert_eq!(exact("sqrt(16)"), "4");
    assert_eq!(exact("sqrt(1/4)"), "1/2");
    assert_eq!(exact("sqrt(0)"), "0");
    assert_eq!(exact("sqrt(2)*sqrt(2)"), "2");
    assert_eq!(exact("sqrt(2)*sqrt(8)"), "4");
    assert_eq!(exact("sqrt(2)*sqrt(3)"), "√6");
    assert_eq!(exact("sqrt(x)*sqrt(x)"), "x");
    assert_eq!(exact("sqrt(2)/sqrt(2)"), "1");
    assert_eq!(exact("sqrt(8)/sqrt(2)"), "2");
    assert_eq!(exact("1/sqrt(2)"), "√2/2");
    assert_eq!(exact("3/sqrt(3)"), "√3");
    assert_eq!(exact("(sqrt(2)/2)*sqrt(2)"), "1");
    assert_eq!(exact("sqrt(2)*(sqrt(2)/2)"), "1");
    assert_eq!(exact("(sqrt(3)/2)*(sqrt(3)/2)"), "3/4");
}

#[test]
fn simplifie_ne_grossit_pas() {
    fn taille(e: &Expr) -> usize {
        match e {
            Expr::Rat(_) | Expr::Pi | Expr::Indefini | Expr::Var(_) => 1,
            Expr::Sqrt(x) | Expr::Sin(x) | Expr::Cos(x) | Expr::Tan(x) => 1 + taille(x),
            Expr::PowInt(x, _) => 1 + taille(x),
            Expr::Add(a, c) | Expr::Sub(a, c) | Expr::Mul(a, c) | Expr::Div(a, c) => {
                1 + taille(a) + taille(c)
            }
        }
    }
    for s in ["1/sqrt(2)", "x+0*y", "(a+b)*(c-c)", "sqrt(2)*sqrt(3)/sqrt(6)", "0-(0-x)"] {
        let e = arbre(s);
        let n = taille(&e);
        assert!(taille(&e.simplify()) <= n, "{s}");
    }
}

#[test]
fn absorption_de_indefini() {
    let i = || Expr::Indefini;
    assert!(matches!(Expr::Add(b(i()), b(var("x"))).simplify(), Expr::Indefini));
    assert!(matches!(Expr::Add(b(var("x")), b(i())).simplify(), Expr::Indefini));
    assert!(matches!(Expr::Sub(b(i()), b(i())).simplify(), Expr::Indefini));
    assert!(matches!(Expr::Mul(b(r(0, 1)), b(i())).simplify(), Expr::Indefini));
    assert!(matches!(Expr::Div(b(i()), b(r(0, 1))).simplify(), Expr::Indefini));
    assert!(matches!(Expr::PowInt(b(i()), 0).simplify(), Expr::Indefini));
    assert!(matches!(Expr::Sqrt(b(i())).simplify(), Expr::Indefini));
    assert!(matches!(Expr::Sin(b(i())).simplify(), Expr::Indefini));
    assert!(matches!(Expr::Cos(b(i())).simplify(), Expr::Indefini));
    assert!(matches!(Expr::Tan(b(i())).simplify(), Expr::Indefini));
    let profond = Expr::Add(
        b(var("x")),
        b(Expr::Mul(b(r(2, 1)), b(Expr::Sqrt(b(Expr::Sin(b(Expr::Sub(b(i()), b(r(1, 1)))))))))),
    );
    assert!(matches!(profond.simplify(), Expr::Indefini));
    assert_eq!(exact("sqrt(tan(pi/2))^2 - x"), "indéfini");
}

#[test]
fn division_par_zero_reste_symbolique() {
    let e = Expr::Div(b(r(1, 1)), b(r(0, 1))).simplify();
    assert_eq!(e.texte(), "(1/0)");
    assert_eq!(erreur("1/(1-1)"), "division par zéro");
    assert_eq!(erreur("x/(1-1) - x/(1-1) + 1/(2-2)"), "division par zéro");
}

#[test]
fn egalite_structurelle() {
    assert!(arbre("sin(x)+1/2").egal(&arbre("sin(x) + 2/4")));
    assert!(!arbre("x+y").egal(&arbre("y+x")));
    assert!(!arbre("x^2").egal(&arbre("x^3")));
    assert!(!arbre("sin(x)").egal(&arbre("cos(x)")));
    assert!(!Expr::Indefini.egal(&Expr::Pi));
    assert!(Expr::Indefini.egal(&Expr::Indefini));
    let e = arbre("sqrt(2)*x^3 - tan(pi/7)/y");
    assert!(e.clone().egal(&e));
    assert_eq!(e.clone(), e);
}

// -------------------------------------------------- coefficient of pi

#[test]
fn coefficient_de_pi() {
    let c = |s: &str| arbre(s).as_coeff_pi_ext().map(|q| format_rat(&q));
    assert_eq!(c("pi"), Some("1".to_string()));
    assert_eq!(c("3*pi/2"), Some("3/2".to_string()));
    assert_eq!(c("pi/4 + 2*pi"), Some("9/4".to_string()));
    assert_eq!(c("pi - pi/3"), Some("2/3".to_string()));
    assert_eq!(c("-pi/2"), Some("-1/2".to_string()));
    assert_eq!(c("(pi + pi)*(1/4)"), Some("1/2".to_string()));
    assert_eq!(c("pi*pi"), None);
    assert_eq!(c("pi/0"), None);
    assert_eq!(c("pi/x"), None);
    assert_eq!(c("pi + 1"), None);
    assert_eq!(c("2/pi"), None);
    assert_eq!(c("sqrt(pi)"), None);
    assert_eq!(c("1/2"), None);
    let s = |s: &str| arbre(s).as_coeff_pi().map(|q| format_rat(&q));
    assert_eq!(s("2*pi/3"), Some("2/3".to_string()));
    assert_eq!(s("pi*2"), Some("2".to_string()));
    assert_eq!(s("-pi"), Some("-1".to_string()));
    assert_eq!(s("pi + pi"), None);
    assert_eq!(s("pi/0"), None);
    assert_eq!(s("1 - pi"), None);
}

#[test]
fn coefficient_de_pi_borne_par_la_pile() {
    // Nested to the left, the stack grows by two entries for each level.
    let a_gauche = |n: usize| {
        let mut e = Expr::Pi;
        for _ in 0..n {
            e = Expr::Add(b(e), b(Expr::Pi));
        }
        e
    };
    assert_eq!(format_rat(&a_gauche(2000).as_coeff_pi_ext().unwrap()), "2001");
    assert_eq!(format_rat(&a_gauche(4000).as_coeff_pi_ext().unwrap()), "4001");
    assert!(a_gauche(5000).as_coeff_pi_ext().is_none());
    // Nested to the right, by one entry for each level.
    let a_droite = |n: usize| {
        let mut e = Expr::Pi;
        for _ in 0..n {
            e = Expr::Add(b(Expr::Pi), b(e));
        }
        e
    };
    assert_eq!(format_rat(&a_droite(8000).as_coeff_pi_ext().unwrap()), "8001");
    assert!(a_droite(9000).as_coeff_pi_ext().is_none());
    // A balanced tree of more than 100000 nodes: too many entries.
    let mut e = Expr::Pi;
    for _ in 0..17 {
        e = Expr::Add(b(e.clone()), b(e));
    }
    assert!(e.as_coeff_pi_ext().is_none());
    let mut e = Expr::Pi;
    for _ in 0..15 {
        e = Expr::Add(b(e.clone()), b(e));
    }
    assert_eq!(format_rat(&e.as_coeff_pi_ext().unwrap()), "32768");
}

#[test]
fn modulo_rationnel() {
    let m = |n: i64, d: i64, p: i64| format_rat(&mod_rationnel(&rat(n, d), p));
    assert_eq!(m(9, 4, 2), "1/4");
    assert_eq!(m(-1, 2, 2), "3/2");
    assert_eq!(m(-1, 2, 1), "1/2");
    assert_eq!(m(7, 6, 1), "1/6");
    assert_eq!(m(4, 1, 2), "0");
    assert_eq!(m(0, 1, 2), "0");
    assert_eq!(m(5, 3, 0), "5/3");
    assert_eq!(m(5, 3, -2), "5/3");
    let e = |a: i64, n: i64| mod_euclid_bigint(&BigInt::from(a), &BigInt::from(n)).to_string();
    assert_eq!(e(7, 3), "1");
    assert_eq!(e(-7, 3), "2");
    assert_eq!(e(-6, 3), "0");
    assert_eq!(e(5, 0), "5");
}

// ----------------------------------------------------- special angles

#[test]
fn table_des_angles() {
    let v = |s: &str, f: TrigFn| match trig_special(&arbre(s), f) {
        Some(TrigOutcome::Valeur(e, p)) => (format_expr_pretty(&e.canon()), p),
        Some(TrigOutcome::Indefini(p)) => ("indéfini".to_string(), p),
        None => ("?".to_string(), String::new()),
    };
    assert_eq!(v("pi/6", TrigFn::Sin), ("1/2".to_string(), "sin(π/6) = 1/2".to_string()));
    assert_eq!(v("pi/6", TrigFn::Cos), ("√3/2".to_string(), "cos(π/6) = √3/2".to_string()));
    assert_eq!(v("pi/6", TrigFn::Tan), ("√3/3".to_string(), "tan(π/6) = √3/3".to_string()));
    assert_eq!(v("5*pi/4", TrigFn::Sin), ("-√2/2".to_string(), "sin(5π/4) = -√2/2".to_string()));
    assert_eq!(v("13*pi/6", TrigFn::Sin), ("1/2".to_string(), "sin(π/6) = 1/2".to_string()));
    assert_eq!(v("-pi/3", TrigFn::Cos), ("1/2".to_string(), "cos(5π/3) = 1/2".to_string()));
    assert_eq!(v("2*pi/3", TrigFn::Tan), ("-√3".to_string(), "tan(2π/3) = -√3".to_string()));
    assert_eq!(v("pi/2", TrigFn::Tan), ("indéfini".to_string(), "tan(π/2) = indéfini".to_string()));
    assert_eq!(v("3*pi/2", TrigFn::Tan), ("indéfini".to_string(), "tan(π/2) = indéfini".to_string()));
    assert_eq!(v("pi", TrigFn::Cos), ("-1".to_string(), "cos(π) = -1".to_string()));
    assert_eq!(v("4*pi", TrigFn::Sin), ("0".to_string(), "sin(0) = 0".to_string()));
    assert_eq!(v("0*pi", TrigFn::Cos), ("1".to_string(), "cos(0) = 1".to_string()));
    assert_eq!(v("pi/5", TrigFn::Sin).0, "?");
    assert_eq!(v("pi/12", TrigFn::Cos).0, "?");
    assert_eq!(v("x", TrigFn::Sin).0, "?");
    assert_eq!(v("1", TrigFn::Tan).0, "?");
}

#[test]
fn angles_textes() {
    assert_eq!(format_angle_kn_pi(0, 4), "0");
    assert_eq!(format_angle_kn_pi(1, 1), "π");
    assert_eq!(format_angle_kn_pi(2, 1), "2π");
    assert_eq!(format_angle_kn_pi(1, 6), "π/6");
    assert_eq!(format_angle_kn_pi(11, 6), "11π/6");
    assert_eq!(gcd_i64(12, 18), 6);
    assert_eq!(gcd_i64(0, 5), 5);
    assert_eq!(gcd_i64(5, 0), 5);
    assert_eq!(gcd_i64(7, 13), 1);
}

#[test]
fn les_douze_angles_sin2_plus_cos2() {
    for k in 1..=12 {
        let a = format!("{k}*pi/6");
        let s = format!("sin({a})*sin({a}) + cos({a})*cos({a})");
        let d = decimal(&s, 20);
        assert!(
            d.starts_with("1.00000000000000000") || d.starts_with("0.99999999999999999"),
            "k={k} d={d}"
        );
    }
    for a in ["pi/6", "pi/4", "pi/3", "pi/2", "pi"] {
        let s = format!("sin({a})*sin({a}) + cos({a})*cos({a})");
        assert_eq!(exact(&s), "1", "a={a}");
    }
}

#[test]
fn table_et_identites_concordent() {
    // f(a + π) read in the table, against the identity for a shift by π
    // followed by the table at a.
    let lire = |e: Expr| -> Option<String> {
        let mut preuve = String::new();
        let c = applique_trig_speciale(&e.simplify(), &mut preuve).simplify().canon();
        if matches!(c, Expr::Indefini) {
            return None;
        }
        Some(scaled_to_decimal(eval_scaled(&c, 20).unwrap(), 20))
    };
    for k in 1..=12i64 {
        let angle = || Expr::Div(b(Expr::Mul(b(r(k, 1)), b(Expr::Pi))), b(r(6, 1)));
        let decale = || Expr::Add(b(angle()), b(Expr::Pi));
        for f in 0..3 {
            let noeud = |x: Expr| match f {
                0 => Expr::Sin(b(x)),
                1 => Expr::Cos(b(x)),
                _ => Expr::Tan(b(x)),
            };
            let par_la_table = lire(noeud(decale()));
            let par_identite = lire(trig_identites(noeud(decale())));
            assert_eq!(par_la_table, par_identite, "k={k} f={f}");
        }
    }
}

#[test]
fn resolveur_a_tout_multiple_connu() {
    // q·π for q with a denominator among 1, 2, 3, 4, 6, in and out of the
    // first turn: the value is that of the angle reduced modulo 2π, the
    // tangent is the sine over the cosine and is not defined where the
    // cosine is zero.
    let valeur = |q: &BigRational, f: TrigFn| -> Option<String> {
        let x = Expr::Mul(b(Expr::Rat(q.clone())), b(Expr::Pi));
        match trig_special(&x, f) {
            Some(TrigOutcome::Valeur(e, _)) => {
                Some(scaled_to_decimal(eval_scaled(&e.simplify().canon(), 30).unwrap(), 30))
            }
            Some(TrigOutcome::Indefini(_)) => None,
            None => panic!("{q}"),
        }
    };
    let nombre = |s: &str| -> BigInt { s.replace('.', "").parse().unwrap() };
    let un = BigInt::from(10).pow(30);
    let proche = |a: &BigInt, b: &BigInt, ecart: &BigInt| (a - b).magnitude() < ecart.magnitude();
    let mille = BigInt::from(1000);
    for d in [1i64, 2, 3, 4, 6] {
        for n in -30i64..=30 {
            let q = rat(n, d);
            if *q.denom() != BigInt::from(d) {
                continue;
            }
            let reduit = rat(n.rem_euclid(2 * d), d);
            let s = valeur(&q, TrigFn::Sin).unwrap();
            let c = valeur(&q, TrigFn::Cos).unwrap();
            assert_eq!(Some(s.clone()), valeur(&reduit, TrigFn::Sin), "{q}");
            assert_eq!(Some(c.clone()), valeur(&reduit, TrigFn::Cos), "{q}");
            let (s, c) = (nombre(&s), nombre(&c));
            assert!(proche(&(&s * &s + &c * &c), &(&un * &un), &(&un * &mille)), "{q}");
            match valeur(&q, TrigFn::Tan) {
                None => assert_eq!(c, BigInt::from(0), "{q}"),
                Some(t) => {
                    assert_ne!(c, BigInt::from(0), "{q}");
                    assert!(proche(&(nombre(&t) * &c / &un), &s, &mille), "{q}");
                }
            }
        }
    }
    // another denominator is not resolved
    let x = Expr::Mul(b(Expr::Rat(rat(1, 5))), b(Expr::Pi));
    assert!(trig_special(&x, TrigFn::Sin).is_none());
}

// ------------------------------------------------------ canonical form

#[test]
fn canon_ordre_des_termes() {
    assert_eq!(exact("b + a"), "(a+b)");
    assert_eq!(exact("a + b"), "(a+b)");
    assert_eq!(exact("pi + x + sqrt(2) + 1"), "(((1+x)+√2)+π)");
    assert_eq!(exact("x - 1"), "(-1+x)");
    assert_eq!(exact("1 - x"), "(1-x)");
    assert_eq!(exact("x + 1/2 + y + 1/2"), "((1+x)+y)");
    assert_eq!(exact("x - y"), "(x-y)");
    assert_eq!(exact("x - (y + z)"), "(x-(y+z))");
}

#[test]
fn canon_ordre_des_facteurs() {
    assert_eq!(exact("x*2"), "(2*x)");
    assert_eq!(exact("y*x*3*2"), "((6*x)*y)");
    assert_eq!(exact("x*(0-y)"), "((-1*x)*y)");
    assert_eq!(exact("(0-x)*(0-y)"), "(x*y)");
    assert_eq!(exact("pi*x"), "(x*π)");
    assert_eq!(exact("2*sqrt(2)"), "2√2");
    assert_eq!(exact("sqrt(2)*(1/2)"), "√2/2");
}

#[test]
fn canon_quotients() {
    assert_eq!(exact("x/(0-y)"), "-x/y");
    assert_eq!(exact("0/x"), "0");
    assert_eq!(exact("x/(0-2)"), "-x/2");
    assert_eq!(exact("x/(0-1)"), "-x");
    assert_eq!(exact("(0-x)/y"), "-x/y");
}

#[test]
fn canon_racines_carrees() {
    assert_eq!(exact("sqrt(12)"), "2√3");
    assert_eq!(exact("sqrt(75)"), "5√3");
    assert_eq!(exact("sqrt(8)/2"), "√2");
    assert_eq!(exact("sqrt(2)"), "√2");
    assert_eq!(exact("sqrt(3/4)"), "√(3/4)");
    assert_eq!(exact("sqrt(x)"), "√(x)");
    let d = |n: i64| {
        let (s, t) = extrait_carre_parfait(&BigInt::from(n));
        (s.to_string(), t.to_string())
    };
    assert_eq!(d(0), ("0".to_string(), "0".to_string()));
    assert_eq!(d(1), ("1".to_string(), "1".to_string()));
    assert_eq!(d(12), ("2".to_string(), "3".to_string()));
    assert_eq!(d(72), ("6".to_string(), "2".to_string()));
    assert_eq!(d(97), ("1".to_string(), "97".to_string()));
    assert_eq!(d(3600), ("60".to_string(), "1".to_string()));
    assert_eq!(d(2 * 49 * 121), ("77".to_string(), "2".to_string()));
}

#[test]
fn canon_point_fixe() {
    for s in [
        "x + 1/2 + sqrt(8)",
        "b*a*3 - c/(0-2) + sin(x+y)",
        "sqrt(12)*x^2 - tan(z)",
        "1/2",
        "pi",
        "(a-b)*(c+d)/e",
        "x/(0-y)",
    ] {
        let c = canon_expr(arbre(s).simplify());
        let cc = canon_expr(c.clone());
        assert!(cc.egal(&c), "{s}: {} / {}", c.texte(), cc.texte());
    }
}

#[test]
fn canon_une_passe_sous_les_signes() {
    // A factor 0 - (a*b): its sign leaves and the product under it is taken
    // in, in one pass.
    let c = canon_expr(arbre("(-(a*b))*c").simplify());
    assert_eq!(c.texte(), "(((-1*a)*b)*c)");
    assert!(canon_expr(c.clone()).egal(&c));
    // A denominator -1: the sign moves, then a/1 is a.
    let c = canon_expr(arbre("x/(0-1)").simplify());
    assert_eq!(c.texte(), "(0-x)");
    assert!(canon_expr(c.clone()).egal(&c));
    // Signs under signs, built by hand: nothing simplifies them first.
    let x = || Expr::Var("x".to_string());
    let y = || Expr::Var("y".to_string());
    let moins = |e: Expr| Expr::Sub(Box::new(Expr::entier(0)), Box::new(e));
    let fois = |a: Expr, b: Expr| Expr::Mul(Box::new(a), Box::new(b));
    let sur = |a: Expr, b: Expr| Expr::Div(Box::new(a), Box::new(b));
    let c = canon_expr(sur(x(), moins(moins(y()))));
    assert_eq!(c.texte(), "((0-(0-x))/y)");
    assert!(canon_expr(c.clone()).egal(&c));
    let c = canon_expr(fois(moins(moins(x())), moins(y())));
    assert_eq!(c.texte(), "((-1*x)*y)");
    assert!(canon_expr(c.clone()).egal(&c));
    assert!(canon_expr(sur(x(), moins(Expr::Indefini))).est_indefini());
    assert!(canon_expr(fois(x(), moins(Expr::Indefini))).est_indefini());
    assert!(canon_expr(fois(x(), moins(Expr::entier(0)))).est_zero());
    for e in [
        sur(moins(x()), moins(fois(x(), y()))),
        fois(sur(x(), Expr::entier(-1)), moins(fois(y(), moins(x())))),
        sur(fois(moins(x()), y()), moins(Expr::entier(1))),
        moins(fois(moins(x()), sur(y(), moins(moins(Expr::entier(1)))))),
    ] {
        let c = canon_expr(e);
        let cc = canon_expr(c.clone());
        assert!(cc.egal(&c), "{} / {}", c.texte(), cc.texte());
    }
}

#[test]
fn somme_de_demis_toutes_formes() {
    let demi = || Expr::Rat(rat(1, 2));
    let plus = |a: Expr, b: Expr| Expr::Add(Box::new(a), Box::new(b));
    // five halves: to the left, to the right, and mixed
    let gauche = plus(plus(plus(plus(demi(), demi()), demi()), demi()), demi());
    let droite = plus(demi(), plus(demi(), plus(demi(), plus(demi(), demi()))));
    let mixte = plus(plus(demi(), demi()), plus(demi(), plus(demi(), demi())));
    for e in [gauche, droite, mixte] {
        let s = e.simplify();
        assert!(s.egal(&Expr::Rat(rat(5, 2))), "{}", s.texte());
        assert!(canon_expr(s.clone()).egal(&s));
    }
    assert_eq!(exact("1/2+1/2+1/2"), "3/2");
    assert_eq!(exact("(1/2+1/2)+(1/2+1/2)"), "2");
    assert_eq!(exact("1/2+(1/2+(1/2+(1/2+(1/2+1/2))))"), "3");
}

// ---------------------------------------------------------- formatter

#[test]
fn format_coefficients_de_pi() {
    let f = |n: i64, d: i64| format_coeff_pi(&rat(n, d));
    assert_eq!(f(0, 1), "0");
    assert_eq!(f(1, 1), "π");
    assert_eq!(f(-1, 1), "-π");
    assert_eq!(f(3, 1), "3π");
    assert_eq!(f(-2, 1), "-2π");
    assert_eq!(f(1, 2), "π/2");
    assert_eq!(f(-1, 2), "-π/2");
    assert_eq!(f(3, 2), "3π/2");
    assert_eq!(f(-5, 6), "-5π/6");
}

#[test]
fn format_formes_exactes() {
    assert_eq!(exact("3*pi/2"), "3π/2");
    assert_eq!(exact("pi/2"), "π/2");
    assert_eq!(exact("-pi"), "-π");
    assert_eq!(exact("pi - pi"), "0");
    assert_eq!(exact("pi + 1"), "(1+π)");
    assert_eq!(exact("sin(x)"), "sin(x)");
    assert_eq!(exact("cos(x + y)"), "cos((x+y))");
    assert_eq!(exact("tan(x)^2"), "(tan(x))^2");
    assert_eq!(exact("0 - (x + y)"), "-((x+y))");
    assert_eq!(exact("0 - sin(x)"), "-sin(x)");
    assert_eq!(exact("x/y"), "x/y");
    assert_eq!(exact("x/3"), "x/3");
    assert_eq!(exact("sqrt(2)/x"), "√2/x");
    assert_eq!(exact("3*sqrt(2)/4"), "3√2/4");
    assert_eq!(exact("0 - sqrt(3)/2"), "-√3/2");
}

#[test]
fn format_produit_de_racine_sur_zero() {
    let e = Expr::Div(b(Expr::Mul(b(r(2, 1)), b(Expr::Sqrt(b(r(2, 1)))))), b(r(0, 1)));
    assert_eq!(format_expr_pretty(&e), "2√2/0");
    assert_eq!(format_exact_final(&e), "2√2/0");
    assert_eq!(erreur("2*sqrt(2)/0"), "division par zéro");
}

#[test]
fn format_forme_brute() {
    let e = arbre("1/2 + pi*x - sqrt(2)/y^2");
    assert_eq!(e.texte(), "((1/2+(π*x))-(√(2)/(y)^2))");
    assert_eq!(Expr::Indefini.texte(), "indéfini");
    assert_eq!(Expr::Tan(b(Expr::Cos(b(Expr::Sin(b(var("t"))))))).texte(), "tan(cos(sin(t)))");
}

// ----------------------------------------------------- decimal reading

#[test]
fn decimal_texte_des_entiers_echelles() {
    let t = |v: i64, d: usize| scaled_to_decimal(BigInt::from(v), d);
    assert_eq!(t(12345, 2), "123.45");
    assert_eq!(t(-12345, 2), "-123.45");
    assert_eq!(t(5, 3), "0.005");
    assert_eq!(t(-5, 3), "-0.005");
    assert_eq!(t(7, 0), "7");
    assert_eq!(t(-7, 0), "-7");
    assert_eq!(t(0, 0), "0");
    assert_eq!(t(0, 4), "0.0000");
    assert_eq!(t(1000, 3), "1.000");
}

#[test]
fn decimal_troncature_sans_arrondi() {
    assert_eq!(decimal("1/3", 5), "0.33333");
    assert_eq!(decimal("2/3", 5), "0.66666");
    assert_eq!(decimal("0-2/3", 5), "-0.66666");
    assert_eq!(decimal("1/2", 0), "0");
    assert_eq!(decimal("7/2", 0), "3");
    assert_eq!(decimal("0-7/2", 0), "-3");
    assert_eq!(decimal("199/100", 1), "1.9");
}

#[test]
fn decimal_pi() {
    assert_eq!(decimal("pi", 0), "3");
    assert_eq!(decimal("pi", 5), "3.14159");
    assert_eq!(decimal("pi", 20), "3.14159265358979323846");
    assert_eq!(
        decimal("pi", 50),
        "3.14159265358979323846264338327950288419716939937510"
    );
    assert_eq!(pi_scaled_compute(3).to_string(), "3141");
    assert_eq!(decimal("2*pi", 10), "6.2831853070");
    assert_eq!(decimal("pi/2", 10), "1.5707963267");
}

#[test]
fn decimal_racines() {
    assert_eq!(decimal("sqrt(2)", 20), "1.41421356237309504880");
    assert_eq!(decimal("sqrt(3)", 10), "1.7320508075");
    assert_eq!(decimal("sqrt(2)", 0), "1");
    assert_eq!(decimal("sqrt(3/4)", 10), "0.8660254037");
    assert_eq!(decimal("sqrt(2)/2", 20), "0.70710678118654752440");
    assert_eq!(decimal("2*sqrt(2)", 5), "2.82842");
}

#[test]
fn decimal_operations_sur_entiers_echelles() {
    let l = |e: Expr, d: usize| eval_scaled(&e, d).map(|v| v.to_string());
    assert_eq!(l(Expr::Add(b(r(1, 3)), b(r(1, 3))), 3), Ok("666".to_string()));
    assert_eq!(l(Expr::Sub(b(r(1, 3)), b(r(2, 3))), 3), Ok("-333".to_string()));
    assert_eq!(l(Expr::Mul(b(r(1, 3)), b(r(1, 3))), 3), Ok("110".to_string()));
    assert_eq!(l(Expr::Mul(b(r(-1, 3)), b(r(1, 3))), 3), Ok("-110".to_string()));
    assert_eq!(l(Expr::Div(b(r(1, 1)), b(r(1, 3))), 3), Ok("3003".to_string()));
    assert_eq!(l(Expr::Div(b(r(-1, 1)), b(r(3, 1))), 3), Ok("-333".to_string()));
    assert_eq!(l(Expr::PowInt(b(r(2, 3)), 2), 3), Ok("444".to_string()));
    assert_eq!(l(Expr::PowInt(b(r(2, 1)), -1), 3), Ok("500".to_string()));
    assert_eq!(l(Expr::Sqrt(b(r(2, 1))), 3), Ok("1414".to_string()));
    assert_eq!(l(Expr::Sqrt(b(r(0, 1))), 3), Ok("0".to_string()));
    assert_eq!(l(Expr::Pi, 2), Ok("314".to_string()));
}

#[test]
fn decimal_refus() {
    let l = |e: Expr| eval_scaled(&e, 5).unwrap_err();
    assert_eq!(l(Expr::Indefini), "indéfini");
    assert_eq!(l(var("x")), "variable non évaluable (ΣLocal bloquée)");
    assert_eq!(l(Expr::Div(b(r(1, 1)), b(r(0, 1)))), "division par zéro");
    assert_eq!(l(Expr::Div(b(r(1, 1)), b(r(1, 1000000)))), "division par zéro");
    assert_eq!(l(Expr::PowInt(b(Expr::Pi), 2)), "puissance : base non rationnelle (à étendre)");
    assert_eq!(l(Expr::Sqrt(b(Expr::Pi))), "√ : argument non rationnel (à étendre)");
    assert_eq!(l(Expr::Sqrt(b(r(-2, 1)))), "√ : argument négatif");
    assert_eq!(l(Expr::Sin(b(r(1, 1)))), "trig : angle non reconnu (angles spéciaux seulement)");
    assert_eq!(l(Expr::Cos(b(Expr::Indefini))), "indéfini");
    assert_eq!(l(Expr::Add(b(var("x")), b(Expr::Indefini))), "variable non évaluable (ΣLocal bloquée)");
    assert_eq!(erreur("sin(1)"), "trig : angle non reconnu (angles spéciaux seulement)");
    assert_eq!(erreur("sqrt(pi)"), "√ : argument non rationnel (à étendre)");
    assert_eq!(erreur("sqrt(0-2)"), "√ : argument négatif");
    assert_eq!(erreur("pi^2"), "puissance : base non rationnelle (à étendre)");
}

// ------------------------------------------------------------ integers

#[test]
fn racines_entieres() {
    let f = |n: i64| int_sqrt_floor(&BigInt::from(n)).to_string();
    assert_eq!(f(0), "0");
    assert_eq!(f(1), "1");
    assert_eq!(f(2), "1");
    assert_eq!(f(3), "1");
    assert_eq!(f(4), "2");
    assert_eq!(f(15), "3");
    assert_eq!(f(16), "4");
    assert_eq!(f(17), "4");
    assert_eq!(f(99), "9");
    assert_eq!(f(1_000_000), "1000");
    assert_eq!(f(-9), "0");
    let grand = pow10(40) + BigInt::from(1);
    assert_eq!(int_sqrt_floor(&grand), pow10(20));
    assert_eq!(int_sqrt_floor(&(pow10(40) - BigInt::from(1))), pow10(20) - BigInt::from(1));
    assert_eq!(int_sqrt_exact(&BigInt::from(49)), Some(BigInt::from(7)));
    assert_eq!(int_sqrt_exact(&BigInt::from(50)), None);
    assert_eq!(int_sqrt_exact(&BigInt::from(-4)), None);
    assert_eq!(int_sqrt_exact(&BigInt::from(0)), Some(BigInt::from(0)));
    assert_eq!(format_rat(&rational_sqrt_exact(&rat(4, 9)).unwrap()), "2/3");
    assert!(rational_sqrt_exact(&rat(4, 3)).is_none());
    assert!(rational_sqrt_exact(&rat(-4, 9)).is_none());
}

#[test]
fn puissances_entieres() {
    let p = |b: i64, e: u64| big_puissance_rapide(&BigInt::from(b), e).to_string();
    assert_eq!(p(2, 0), "1");
    assert_eq!(p(2, 1), "2");
    assert_eq!(p(2, 10), "1024");
    assert_eq!(p(3, 5), "243");
    assert_eq!(p(-2, 3), "-8");
    assert_eq!(p(0, 0), "1");
    assert_eq!(p(0, 7), "0");
    assert_eq!(p(10, 30), "1000000000000000000000000000000");
    assert_eq!(pow10(0).to_string(), "1");
    assert_eq!(pow10(3).to_string(), "1000");
}

// ------------------------------------------------------------ pipeline

#[test]
fn evaluation_erreurs_de_chaque_etage() {
    assert_eq!(erreur(""), "Entrée vide");
    assert_eq!(erreur("  \t "), "Entrée vide");
    assert_eq!(erreur("1 # 2"), "caractère inattendu: '#'");
    assert_eq!(erreur("3/0"), "division par zéro dans une fraction");
    assert_eq!(erreur("(1+2"), "parenthèses non fermées");
    assert_eq!(erreur("1+2)"), "parenthèse fermante inattendue");
    assert_eq!(erreur("1 +"), "expression invalide");
    assert_eq!(erreur("()"), "expression invalide");
    assert_eq!(erreur("sin()"), "fonction sans argument");
    assert_eq!(erreur("2^x"), "exposant doit être entier");
}

#[test]
fn evaluation_derivation() {
    let (exact, decimal, d) = eval_expression("1/2 + sin(pi/6)*cos(PI/3)", 10).unwrap();
    assert_eq!(exact, "3/4");
    assert_eq!(decimal.as_deref(), Some("0.7500000000"));
    assert_eq!(d.jetons, "1/2 + sin ( π / 6 ) * cos ( π / 3 )");
    assert_eq!(d.rpn, "1/2 π 6 / sin π 3 / cos * +");
    assert_eq!(d.avant, "(1/2+(sin(π/6)*cos(π/3)))");
    assert_eq!(d.apres, "3/4");
    assert_eq!(d.preuve, "sin(π/6) = 1/2\ncos(π/3) = 1/2");
    assert!(d.note.starts_with("Pipeline: jetons → RPN → Expr"));
    assert!(d.note.ends_with("→ canon → EXACT → ΣLocal."));
    let (_, _, d) = eval_expression("1 + 2", 10).unwrap();
    assert_eq!(d.preuve, "");
}

#[test]
fn evaluation_deux_fois_la_meme() {
    for s in [
        "sin(pi/4) + x",
        "tan(pi/2)",
        "1/3 + sqrt(2)*pi",
        "sin(x + pi)/cos(x + pi)",
        "sqrt(12)/(0-2) + b*a",
    ] {
        for digits in [0usize, 7, 40] {
            let a = eval_expression(s, digits).unwrap();
            let c = eval_expression(s, digits).unwrap();
            assert_eq!(a.0, c.0);
            assert_eq!(a.1, c.1);
            assert_eq!(a.2.jetons, c.2.jetons);
            assert_eq!(a.2.rpn, c.2.rpn);
            assert_eq!(a.2.avant, c.2.avant);
            assert_eq!(a.2.apres, c.2.apres);
            assert_eq!(a.2.note, c.2.note);
            assert_eq!(a.2.preuve, c.2.preuve);
        }
    }
}

#[test]
fn indefini_et_variable_sans_lecture() {
    for s in ["tan(pi/2)", "1 + tan(3*pi/2)", "tan(x + pi/2)", "sqrt(tan(pi/2))"] {
        let (exact, decimal, _) = eval_expression(s, 10).unwrap();
        assert_eq!(exact, "indéfini", "{s}");
        assert!(decimal.is_none(), "{s}");
    }
    for s in ["x", "x + 1/2", "sin(y)", "indefini", "i"] {
        let (exact, decimal, _) = eval_expression(s, 10).unwrap();
        assert_ne!(exact, "indéfini", "{s}");
        assert!(decimal.is_none(), "{s}");
    }
    for s in ["1/2", "pi", "sqrt(2)", "sin(pi/4)"] {
        let (exact, decimal, _) = eval_expression(s, 10).unwrap();
        assert_ne!(exact, "indéfini", "{s}");
        assert!(decimal.is_some(), "{s}");
    }
}

#[test]
fn identites_dans_le_pipeline() {
    assert_eq!(exact("sin(x + pi)"), "-sin(x)");
    assert_eq!(exact("cos(x - pi)"), "-cos(x)");
    assert_eq!(exact("tan(x + pi)"), "tan(x)");
    assert_eq!(exact("sin(x + 2*pi)"), "sin(x)");
    assert_eq!(exact("cos(2*pi + x)"), "cos(x)");
    assert_eq!(exact("sin(x + pi/2)"), "cos(x)");
    assert_eq!(exact("sin(x - pi/2)"), "-cos(x)");
    assert_eq!(exact("cos(x + pi/2)"), "-sin(x)");
    assert_eq!(exact("cos(x - pi/2)"), "sin(x)");
    assert_eq!(exact("tan(x - pi/2)"), "indéfini");
    assert_eq!(exact("sin(pi - x)"), "sin(x)");
    assert_eq!(exact("cos(pi - x)"), "-cos(x)");
    assert_eq!(exact("sin(-x)"), "-sin(x)");
    assert_eq!(exact("cos(-x)"), "cos(x)");
    assert_eq!(exact("tan(-x)"), "-tan(x)");
    assert_eq!(exact("sin(x)^2 + cos(x)^2"), "1");
    assert_eq!(exact("cos(x)^2 + sin(x)^2"), "1");
    assert_eq!(exact("sin(x)/cos(x)"), "tan(x)");
    assert_eq!(exact("sin(x)^2 + cos(y)^2"), "((cos(y))^2+(sin(x))^2)");
    assert_eq!(exact("tan(x + 2*pi)"), "tan((x+(2*π)))");
    assert_eq!(exact("tan(pi - x)"), "tan((π-x))");
}

#[test]
fn recherche_de_variable() {
    assert!(contient_var(&arbre("1 + sin(2*x)")));
    assert!(contient_var(&var("x")));
    assert!(!contient_var(&arbre("1 + sin(2*pi)/sqrt(3)^2")));
    assert!(!contient_var(&Expr::Indefini));
    // Deep to the left, the stack stays short: the answer is exact.
    let mut e = r(1, 1);
    for _ in 0..9000 {
        e = Expr::Add(b(e), b(r(1, 1)));
    }
    assert!(!contient_var(&e));
    // Deep to the right, it grows by one entry for each level; beyond the
    // bound the answer is yes, variable or not.
    let a_droite = |n: usize| {
        let mut e = r(1, 1);
        for _ in 0..n {
            e = Expr::Add(b(r(1, 1)), b(Expr::Sqrt(b(e))));
        }
        e
    };
    assert!(!contient_var(&a_droite(8000)));
    assert!(contient_var(&a_droite(9000)));
    // So does a tree of more than 200000 nodes.
    let equilibre = |n: usize| {
        let mut e = r(1, 1);
        for _ in 0..n {
            e = Expr::Mul(b(e.clone()), b(e));
        }
        e
    };
    assert!(!contient_var(&equilibre(16)));
    assert!(contient_var(&equilibre(17)));
}

#[test]
fn cache_de_pi() {
    use_cache();
}

fn use_cache() {
    let mut cache = calc_qpur::lecture::CachePi::new();
    assert!(!cache.connait(12));
    let a = cache.pi_scaled_cached(12);
    assert!(cache.connait(12) && !cache.connait(3));
    let b = cache.pi_scaled_cached(12);
    let c = cache.pi_scaled_cached(3);
    assert!(cache.connait(12) && cache.connait(3));
    // An evaluation keeps what the cache held and adds at most its own
    // number of digits.
    let mut autre = calc_qpur::lecture::CachePi::new();
    let _ = autre.pi_scaled_cached(7);
    let r = calc_qpur::lecture::eval_scaled_avec_cache(&Expr::Pi, 20, &mut autre).unwrap();
    assert_eq!(r.to_string(), "314159265358979323846");
    assert!(autre.connait(7) && autre.connait(20));
    let _ = calc_qpur::eval::eval_expression_avec_cache("1/2 + x", 9, &mut autre);
    let _ = calc_qpur::eval::eval_expression_avec_cache("2*pi", 5, &mut autre);
    for d in 0..64usize {
        assert_eq!(autre.connait(d), d == 5 || d == 7 || d == 20, "{d}");
    }
    assert_eq!(autre.pi_scaled_cached(20), r);
    assert_eq!(a.to_string(), "3141592653589");
    assert_eq!(a, b);
    assert_eq!(c.to_string(), "3141");
    assert_eq!(a, pi_scaled_compute(12));
    for s in ["pi", "2*pi + sqrt(2)", "x", "tan(pi/2)", "1/(1-1)"] {
        let avec = calc_qpur::eval::eval_expression_avec_cache(s, 12, &mut cache);
        let sans = eval_expression(s, 12);
        match (avec, sans) {
            (Ok(x), Ok(y)) => {
                assert_eq!(x.0, y.0);
                assert_eq!(x.1, y.1);
                assert_eq!(x.2.preuve, y.2.preuve);
            }
            (Err(x), Err(y)) => assert_eq!(x, y),
            _ => panic!("{s}"),
        }
    }
    let mut etat = calc_qpur::etat::AppCalc::default();
    etat.entree = "pi".to_string();
    etat.set_digits(12);
    etat.eval_via_noyau_avec_cache(&mut cache);
    assert_eq!(etat.lecture, "3.141592653589");
}

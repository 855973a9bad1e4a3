use calc_qpur::eval_expression;

fn ok_exact(s: &str, digits: usize) -> (String, Option<String>) {
    let (exact, lecture_opt, _d) = eval_expression(s, digits)
        .unwrap_or_else(|e| panic!("eval_expression({s:?}) erreur: {e}"));
    (exact, lecture_opt)
}

fn ok_exact_only(s: &str) -> String {
    ok_exact(s, 50).0
}

fn ok_dec(s: &str, digits: usize) -> String {
    ok_exact(s, digits)
        .1
        .unwrap_or_else(|| panic!("ΣLocal indisponible pour {s:?}"))
}

fn assert_contains(hay: &str, needle: &str) {
    if !hay.contains(needle) {
        panic!("attendu que {hay:?} contienne {needle:?}");
    }
}

fn assert_eq_trim(a: &str, b: &str) {
    let aa = a.trim();
    let bb = b.trim();
    if aa != bb {
        panic!("diff:\nA={aa:?}\nB={bb:?}");
    }
}

// --- Variables ---

#[test]
fn var_parse_et_affiche() {
    let (exact, lecture_opt, _d) = eval_expression("x + 1/2", 20).unwrap();
    // EXACT doit contenir x
    assert!(exact.contains("x"));
    // ΣLocal doit être bloquée (pas évaluable sans valeur pour x)
    assert!(lecture_opt.is_none());
}

// --- Trig de base ---

#[test]
fn trig_sin_pi_4() {
    let exact = ok_exact_only("sin(pi/4)");
    assert_contains(&exact, "√2");
    assert_contains(&exact, "/2");

    let dec = ok_dec("sin(pi/4)", 20);
    assert_contains(&dec, "0.707106781186547524");
}

#[test]
fn trig_tan_pi_6() {
    let exact = ok_exact_only("tan(pi/6)");
    assert_contains(&exact, "√3");
    assert_contains(&exact, "/3");

    let dec = ok_dec("tan(pi/6)", 20);
    assert_contains(&dec, "0.577350269189625764");
}

#[test]
fn trig_tan_pi_2_indefini() {
    let (exact, lecture_opt) = ok_exact("tan(pi/2)", 20);
    assert_eq_trim(&exact, "indéfini");
    assert!(
        lecture_opt.is_none(),
        "ΣLocal devrait être indisponible pour tan(pi/2)"
    );
}

// --- Trig récursive ---

#[test]
fn trig_dans_expression_composee() {
    let exact = ok_exact_only("1/2 + sin(pi/4)");
    assert_contains(&exact, "√2");
}

// --- Rationnels ---

#[test]
fn rationnel_add() {
    let exact = ok_exact_only("1/2 + 1/3");
    assert_contains(&exact.replace(' ', ""), "5/6");
}

#[test]
fn rationnel_mul() {
    let exact = ok_exact_only("2/3 * 3/4");
    assert_contains(&exact.replace(' ', ""), "1/2");
}

#[test]
fn rationnel_neg_et_parentheses() {
    let exact = ok_exact_only("-(1/2) + 1");
    assert_contains(&exact.replace(' ', ""), "1/2");
}

// --------------------------------------------------------------------
// Tests “béton” : angles spéciaux + cos + combos + modulo
// --------------------------------------------------------------------

#[test]
fn trig_cos_pi_3() {
    // cos(π/3) = 1/2
    let exact = ok_exact_only("cos(pi/3)");
    assert_contains(&exact.replace(' ', ""), "1/2");

    let dec = ok_dec("cos(pi/3)", 20);
    assert_contains(&dec, "0.5");
}

#[test]
fn trig_cos_pi() {
    // cos(π) = -1
    let exact = ok_exact_only("cos(pi)");
    assert_contains(&exact, "1");
    assert_contains(&exact, "-");
}

#[test]
fn trig_sin_3pi_2_modulo() {
    // sin(3π/2) = -1
    let exact = ok_exact_only("sin(3*pi/2)");
    assert_contains(&exact, "-");
    assert_contains(&exact, "1");
}

#[test]
fn trig_tan_3pi_2_indefini() {
    // tan(3π/2) indéfini
    let (exact, lecture_opt) = ok_exact("tan(3*pi/2)", 20);
    assert_eq_trim(&exact, "indéfini");
    assert!(lecture_opt.is_none());
}

#[test]
fn trig_combo_mul() {
    // 2*sin(pi/4) = √2
    let exact = ok_exact_only("2*sin(pi/4)");
    assert_contains(&exact, "√2");
}

#[test]
fn trig_combo_prod_sqrt() {
    // sin(pi/4)*sqrt(2) = 1
    let exact = ok_exact_only("sin(pi/4)*sqrt(2)");
    assert_contains(&exact.replace(' ', ""), "1");
}

#[test]
fn espaces_et_majuscules() {
    let exact = ok_exact_only("  SIN ( PI / 4 ) ");
    assert_contains(&exact, "√2");
}

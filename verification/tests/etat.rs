use calc_qpur::etat::{AppCalc, Demarche, InsertKind};

#[test]
fn etat_initial() {
    let a = AppCalc::default();
    assert_eq!(a.digits, 20);
    assert!(a.entree.is_empty());
    assert!(a.focus_entree);
    assert!(!a.lecture_dispo);
}

#[test]
fn set_digits_borne() {
    let mut a = AppCalc::default();
    a.set_digits(1000);
    assert_eq!(a.digits, 200);
    a.set_digits(7);
    assert_eq!(a.digits, 7);
    a.set_digits(0);
    assert_eq!(a.digits, 0);
}

#[test]
fn set_erreur_garde_exact() {
    let mut a = AppCalc::default();
    a.set_resultats("1/2".to_string(), Some("0.5".to_string()), Demarche::default());
    assert!(a.lecture_dispo);
    a.set_erreur("boum".to_string());
    assert_eq!(a.exact, "1/2");
    assert_eq!(a.erreur, "boum");
    assert!(a.lecture.is_empty());
    assert!(!a.lecture_dispo);
}

#[test]
fn retour_arriere_par_motif() {
    let apres = |s: &str| {
        let mut a = AppCalc::default();
        a.entree = s.to_string();
        a.backspace_entree();
        a.entree
    };
    assert_eq!(apres(""), "");
    assert_eq!(apres("12"), "1");
    assert_eq!(apres("1 + sin("), "1 +");
    assert_eq!(apres("sqrt("), "");
    assert_eq!(apres("2 * cos(  "), "2 *");
    assert_eq!(apres("tan("), "");
    assert_eq!(apres("3 pi"), "3");
    assert_eq!(apres("1 + "), "1");
    assert_eq!(apres("   "), "");
    assert_eq!(apres("x)"), "x");
    assert_eq!(apres("asin("), "a");
}

#[test]
fn insertion_selon_la_touche() {
    let apres = |s: &str, ajout: &str, k: InsertKind| {
        let mut a = AppCalc::default();
        a.entree = s.to_string();
        a.focus_entree = false;
        a.inserer(ajout, k);
        (a.entree, a.focus_entree)
    };
    assert_eq!(apres("1", "2", InsertKind::Digit), ("12".to_string(), true));
    assert_eq!(apres("1", "", InsertKind::Digit), ("1".to_string(), false));
    assert_eq!(apres("1  ", "+", InsertKind::Op), ("1 + ".to_string(), true));
    assert_eq!(apres("", "-", InsertKind::Op), ("- ".to_string(), true));
    assert_eq!(apres("(1 ", ")", InsertKind::CloseParen), ("(1)".to_string(), true));
    assert_eq!(apres("2", "(", InsertKind::OpenParen), ("2 (".to_string(), true));
    assert_eq!(apres("2 + ", "(", InsertKind::OpenParen), ("2 + (".to_string(), true));
    assert_eq!(apres("x", "sin(", InsertKind::Func), ("x sin(".to_string(), true));
    assert_eq!(apres(")", "sqrt(", InsertKind::Func), (") sqrt(".to_string(), true));
    assert_eq!(apres("", "cos(", InsertKind::Func), ("cos(".to_string(), true));
    assert_eq!(apres("2", "pi", InsertKind::Word), ("2 pi".to_string(), true));
    assert_eq!(apres("2 ", "pi", InsertKind::Word), ("2 pi".to_string(), true));
    assert_eq!(apres("(", "x", InsertKind::Word), ("(x".to_string(), true));
    assert_eq!(apres("y", "x", InsertKind::Word), ("yx".to_string(), true));
    assert_eq!(apres(")", "x", InsertKind::Word), (") x".to_string(), true));
}

#[test]
fn evaluation_depuis_l_etat() {
    let mut a = AppCalc::default();
    a.entree = " 1/2 + 1/3 ".to_string();
    a.set_digits(4);
    a.eval_via_noyau();
    assert_eq!(a.exact, "5/6");
    assert_eq!(a.lecture, "0.8333");
    assert!(a.lecture_dispo);
    assert!(a.erreur.is_empty());
    assert_eq!(a.demarche.rpn, "1/2 1/3 +");
    assert_eq!(a.entree, " 1/2 + 1/3 ");
    a.entree = "1 +".to_string();
    a.eval_via_noyau();
    assert_eq!(a.erreur, "expression invalide");
    assert_eq!(a.exact, "5/6");
    assert!(a.lecture.is_empty());
    assert!(!a.lecture_dispo);
    assert!(a.demarche.rpn.is_empty());
    a.entree = "x".to_string();
    a.eval_via_noyau();
    assert_eq!(a.exact, "x");
    assert!(!a.lecture_dispo);
    assert!(a.erreur.is_empty());
    a.entree = "   ".to_string();
    a.eval_via_noyau();
    assert_eq!(a.erreur, "Entrée vide");
    a.clear_resultats();
    assert!(a.exact.is_empty() && a.erreur.is_empty() && a.demarche.note.is_empty());
    assert_eq!(a.entree, "   ");
    a.clear_entree();
    assert!(a.entree.is_empty());
    a.set_digits(3);
    a.entree = "7".to_string();
    a.reset_total();
    assert!(a.entree.is_empty());
    assert_eq!(a.digits, 20);
}

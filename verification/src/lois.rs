//! Laws of the kernel: what holds of every evaluation.

use crate::canon::{
    autres_facteurs, canon, canon_produit, canon_quotient, canon_racine, canon_somme, extrait,
    facteurs, facteurs_regroupes, lemme_position_insertion, oppose, position_insertion,
    reconstruit_produit, reconstruit_somme, sans_rationnels, termes_regroupes, termes_somme, tri,
    un_indefini, valeur_absolue,
};
use crate::entier::{est_chiffre, texte_entier, texte_naturel};
use crate::eval::{evaluation, forme_finale, resout, resout_fonction};
use crate::expr::{coeff_pi, lemme_simplifie_indefini, simplifie, Terme};
use crate::identites_trig::{identites, reecrit, reecrit_borne};
use crate::trig::{angle_special, Issue, TrigFn};
use crate::format::{
    est_racine_entier, est_rat_fois_racine, texte_coeff_pi, texte_exact, texte_joli, texte_racine,
    texte_rat_racine,
};
use crate::jetons::{
    analyse, devant, jeton_mot, jeton_symbole, lit_jeton, longueur_ident, suite_jeton, Jeton,
};
use crate::lecture::lecture;
use crate::rationnel::{pgcd, reduite, texte_rat, Frac};
use crate::rpn::{arbre_de, arbre_depuis, est_fonction, pas_arbre, vers_rpn, EtatRpn};
use crate::texte::{est_debut_ident, est_suite_ident, minuscule, minuscules};
use vstd::prelude::*;

verus! {

/// Whether the text is not empty and begins with a digit or a sign.
pub open spec fn commence_par_nombre(s: Seq<char>) -> bool {
    s.len() > 0 && (est_chiffre(s[0]) || s[0] == '-')
}

/// Whether the text is not empty and does not begin with the letter `i`.
pub open spec fn ne_commence_pas_par_i(s: Seq<char>) -> bool {
    s.len() > 0 && s[0] != 'i'
}

/// The decimal writing of a natural number begins with a digit.
pub proof fn lemme_naturel_tete(n: nat)
    ensures
        texte_naturel(n).len() > 0,
        est_chiffre(texte_naturel(n)[0]),
    decreases n,
{
    if n >= 10 {
        lemme_naturel_tete(n / 10);
    }
}

/// The decimal writing of an integer begins with a digit or a sign.
pub proof fn lemme_entier_tete(i: int)
    ensures
        commence_par_nombre(texte_entier(i)),
{
    if i < 0 {
        lemme_naturel_tete((-i) as nat);
    } else {
        lemme_naturel_tete(i as nat);
    }
}

/// The writing of a rational begins with a digit or a sign.
pub proof fn lemme_rat_tete(f: Frac)
    ensures
        commence_par_nombre(texte_rat(f)),
{
    lemme_entier_tete(f.num);
}

/// The writing of `√n` begins with `√`.
pub proof fn lemme_racine_tete(n: int)
    ensures
        texte_racine(n).len() > 0,
        texte_racine(n)[0] == '√',
{
    reveal_strlit("√");
}

/// The writing of `(p/q)·√n` does not begin with `i`.
pub proof fn lemme_rat_racine_tete(f: Frac, n: int)
    ensures
        ne_commence_pas_par_i(texte_rat_racine(f, n)),
{
    reveal_strlit("0");
    reveal_strlit("-");
    lemme_racine_tete(n);
    lemme_entier_tete(f.num);
}

/// The writing of `c·π` does not begin with `i`.
pub proof fn lemme_coeff_pi_tete(c: Frac)
    ensures
        ne_commence_pas_par_i(texte_coeff_pi(c)),
{
    reveal_strlit("0");
    reveal_strlit("π");
    reveal_strlit("-π");
    reveal_strlit("π/");
    reveal_strlit("-π/");
    lemme_entier_tete(c.num);
}

/// The canonical tree that the evaluation of a text builds, where the text
/// parses.
pub open spec fn arbre_final(s: Seq<char>) -> Terme
    recommends
        analyse(s, 0) is Ok,
{
    forme_finale(arbre_de(vers_rpn(analyse(s, 0)->Ok_0)->Ok_0)->Ok_0)
}

/// No decimal reading is given of a tree that holds a variable.
pub proof fn lemme_variable_sans_lecture(s: Seq<char>, d: nat)
    ensures
        evaluation(s, d) matches Ok(r) ==> (arbre_final(s).contient_variable() ==> r.1 is None),
{
    if let Ok(r) = evaluation(s, d) {
        crate::eval::lemme_variable_possible(arbre_final(s));
    }
}

/// Whether no variable of the tree is named `interdit`.
pub open spec fn sans_nom(t: Terme, interdit: Seq<char>) -> bool
    decreases t,
{
    match t {
        Terme::Var(s) => s != interdit,
        Terme::Rat(_) | Terme::Pi | Terme::Indefini => true,
        Terme::Sqrt(x) | Terme::Sin(x) | Terme::Cos(x) | Terme::Tan(x) => sans_nom(*x, interdit),
        Terme::PowInt(x, _) => sans_nom(*x, interdit),
        Terme::Add(a, b) | Terme::Sub(a, b) | Terme::Mul(a, b) | Terme::Div(a, b) => sans_nom(
            *a,
            interdit,
        ) && sans_nom(*b, interdit),
    }
}

/// Whether the tree holds neither `Indefini` nor a variable named
/// `interdit`.
pub open spec fn pur(t: Terme, interdit: Seq<char>) -> bool {
    sans_nom(t, interdit) && !t.contient_indefini()
}

/// Whether every tree of the sequence is [`pur`].
pub open spec fn tous_purs(s: Seq<Terme>, interdit: Seq<char>) -> bool {
    forall|i: int| 0 <= i < s.len() ==> pur(#[trigger] s[i], interdit)
}

/// Simplification brings in no variable.
pub proof fn lemme_simplifie_noms(t: Terme, interdit: Seq<char>)
    requires
        sans_nom(t, interdit),
    ensures
        sans_nom(simplifie(t), interdit),
    decreases t,
{
    reveal_with_fuel(sans_nom, 4);
    match t {
        Terme::Rat(_) | Terme::Pi | Terme::Indefini | Terme::Var(_) => {},
        Terme::Sqrt(x) | Terme::Sin(x) | Terme::Cos(x) | Terme::Tan(x) => {
            lemme_simplifie_noms(*x, interdit);
        },
        Terme::PowInt(x, _) => {
            lemme_simplifie_noms(*x, interdit);
        },
        Terme::Add(a, b) | Terme::Sub(a, b) | Terme::Mul(a, b) | Terme::Div(a, b) => {
            lemme_simplifie_noms(*a, interdit);
            lemme_simplifie_noms(*b, interdit);
        },
    }
}

/// One pass of the identities brings in no variable.
pub proof fn lemme_reecrit_noms(t: Terme, interdit: Seq<char>)
    requires
        sans_nom(t, interdit),
    ensures
        sans_nom(reecrit(t), interdit),
    decreases t,
{
    reveal_with_fuel(sans_nom, 4);
    match t {
        Terme::Rat(_) | Terme::Pi | Terme::Indefini | Terme::Var(_) => {},
        Terme::Sqrt(x) | Terme::Sin(x) | Terme::Cos(x) | Terme::Tan(x) => {
            lemme_reecrit_noms(*x, interdit);
        },
        Terme::PowInt(x, _) => {
            lemme_reecrit_noms(*x, interdit);
        },
        Terme::Add(a, b) | Terme::Sub(a, b) | Terme::Mul(a, b) | Terme::Div(a, b) => {
            lemme_reecrit_noms(*a, interdit);
            lemme_reecrit_noms(*b, interdit);
        },
    }
}

/// The bounded rewriting by the identities brings in no variable.
pub proof fn lemme_identites_noms(t: Terme, n: nat, interdit: Seq<char>)
    requires
        sans_nom(t, interdit),
    ensures
        sans_nom(reecrit_borne(t, n), interdit),
    decreases n,
{
    if n > 0 {
        lemme_reecrit_noms(t, interdit);
        lemme_identites_noms(reecrit(t), (n - 1) as nat, interdit);
    }
}

/// The values of the table hold no variable.
pub proof fn lemme_table_noms(x: Terme, f: TrigFn, interdit: Seq<char>)
    ensures
        angle_special(x, f) matches Some(Issue::Valeur(v, _)) ==> sans_nom(v, interdit),
{
    reveal_with_fuel(sans_nom, 5);
}

/// The resolution of the special angles brings in no variable.
pub proof fn lemme_resout_noms(t: Terme, preuve: Seq<char>, interdit: Seq<char>)
    requires
        sans_nom(t, interdit),
    ensures
        sans_nom(resout(t, preuve).0, interdit),
    decreases t, 1nat,
{
    match t {
        Terme::Sin(x) => lemme_resout_fonction_noms(TrigFn::Sin, *x, preuve, interdit),
        Terme::Cos(x) => lemme_resout_fonction_noms(TrigFn::Cos, *x, preuve, interdit),
        Terme::Tan(x) => lemme_resout_fonction_noms(TrigFn::Tan, *x, preuve, interdit),
        Terme::Add(a, b) | Terme::Sub(a, b) | Terme::Mul(a, b) | Terme::Div(a, b) => {
            lemme_resout_noms(*a, preuve, interdit);
            let (aa, pa) = resout(*a, preuve);
            lemme_resout_noms(*b, pa, interdit);
            let (bb, pb) = resout(*b, pa);
            lemme_simplifie_noms(Terme::Add(Box::new(aa), Box::new(bb)), interdit);
            lemme_simplifie_noms(Terme::Sub(Box::new(aa), Box::new(bb)), interdit);
            lemme_simplifie_noms(Terme::Mul(Box::new(aa), Box::new(bb)), interdit);
            lemme_simplifie_noms(Terme::Div(Box::new(aa), Box::new(bb)), interdit);
        },
        Terme::Sqrt(x) => {
            lemme_resout_noms(*x, preuve, interdit);
            lemme_simplifie_noms(Terme::Sqrt(Box::new(resout(*x, preuve).0)), interdit);
        },
        Terme::PowInt(x, n) => {
            lemme_resout_noms(*x, preuve, interdit);
            lemme_simplifie_noms(Terme::PowInt(Box::new(resout(*x, preuve).0), n), interdit);
        },
        Terme::Rat(_) | Terme::Pi | Terme::Indefini | Terme::Var(_) => {},
    }
}

/// The resolution of a trigonometric node brings in no variable.
proof fn lemme_resout_fonction_noms(f: TrigFn, x: Terme, preuve: Seq<char>, interdit: Seq<char>)
    requires
        sans_nom(x, interdit),
    ensures
        sans_nom(resout_fonction(f, x, preuve).0, interdit),
    decreases x, 2nat,
{
    lemme_table_noms(x, f, interdit);
    match angle_special(x, f) {
        Some(Issue::Valeur(v, p)) => {
            lemme_simplifie_noms(v, interdit);
        },
        Some(Issue::Indefini(p)) => {},
        None => {
            lemme_resout_noms(x, preuve, interdit);
            lemme_simplifie_noms(f.noeud(resout(x, preuve).0), interdit);
        },
    }
}

/// The terms of a sum of clean trees are clean.
proof fn lemme_termes_purs(t: Terme, interdit: Seq<char>)
    requires
        pur(t, interdit),
    ensures
        tous_purs(termes_somme(t), interdit),
    decreases t,
{
    reveal_with_fuel(sans_nom, 3);
    reveal_with_fuel(Terme::contient_indefini, 3);
    match t {
        Terme::Add(a, b) => {
            lemme_termes_purs(*a, interdit);
            lemme_termes_purs(*b, interdit);
            let ta = termes_somme(*a);
            let tb = termes_somme(*b);
            assert forall|i: int| 0 <= i < (ta + tb).len() implies pur(
                #[trigger] (ta + tb)[i],
                interdit,
            ) by {
                if i < ta.len() {
                    assert((ta + tb)[i] == ta[i]);
                } else {
                    assert((ta + tb)[i] == tb[i - ta.len()]);
                }
            }
        },
        Terme::Sub(a, b) => {
            lemme_termes_purs(*a, interdit);
            let ta = termes_somme(*a);
            let o = oppose(*b);
            assert(pur(o, interdit));
            assert forall|i: int| 0 <= i < ta.push(o).len() implies pur(
                #[trigger] ta.push(o)[i],
                interdit,
            ) by {
                if i < ta.len() {
                    assert(ta.push(o)[i] == ta[i]);
                }
            }
        },
        _ => {},
    }
}

/// The factors of a product of clean trees are clean.
proof fn lemme_facteurs_purs(t: Terme, interdit: Seq<char>)
    requires
        pur(t, interdit),
    ensures
        tous_purs(facteurs(t), interdit),
    decreases t,
{
    match t {
        Terme::Mul(a, b) => {
            lemme_facteurs_purs(*a, interdit);
            lemme_facteurs_purs(*b, interdit);
            let ta = facteurs(*a);
            let tb = facteurs(*b);
            assert forall|i: int| 0 <= i < (ta + tb).len() implies pur(
                #[trigger] (ta + tb)[i],
                interdit,
            ) by {
                if i < ta.len() {
                    assert((ta + tb)[i] == ta[i]);
                } else {
                    assert((ta + tb)[i] == tb[i - ta.len()]);
                }
            }
        },
        Terme::Sub(a, y) => {
            if a.est_zero() {
                lemme_facteurs_purs(*y, interdit);
                let u = seq![Terme::entier(-1)];
                let ty = facteurs(*y);
                assert forall|i: int| 0 <= i < (u + ty).len() implies pur(
                    #[trigger] (u + ty)[i],
                    interdit,
                ) by {
                    if i < 1 {
                        assert((u + ty)[i] == Terme::entier(-1));
                    } else {
                        assert((u + ty)[i] == ty[i - 1]);
                    }
                }
            }
        },
        _ => {},
    }
}

/// Leaving the rationals out keeps a sequence of clean trees clean.
proof fn lemme_sans_rationnels_purs(s: Seq<Terme>, interdit: Seq<char>)
    requires
        tous_purs(s, interdit),
    ensures
        tous_purs(sans_rationnels(s), interdit),
    decreases s.len(),
{
    if s.len() > 0 {
        let d = s.drop_last();
        assert(tous_purs(d, interdit)) by {
            assert forall|i: int| 0 <= i < d.len() implies pur(#[trigger] d[i], interdit) by {
                assert(d[i] == s[i]);
            }
        }
        lemme_sans_rationnels_purs(d, interdit);
        assert(pur(s[s.len() - 1], interdit));
    }
}

/// The absolute values of clean factors are clean.
proof fn lemme_autres_facteurs_purs(s: Seq<Terme>, interdit: Seq<char>)
    requires
        tous_purs(s, interdit),
    ensures
        tous_purs(autres_facteurs(s), interdit),
    decreases s.len(),
{
    reveal_with_fuel(sans_nom, 2);
    reveal_with_fuel(Terme::contient_indefini, 2);
    if s.len() > 0 {
        let d = s.drop_last();
        assert(tous_purs(d, interdit)) by {
            assert forall|i: int| 0 <= i < d.len() implies pur(#[trigger] d[i], interdit) by {
                assert(d[i] == s[i]);
            }
        }
        lemme_autres_facteurs_purs(d, interdit);
        assert(pur(s[s.len() - 1], interdit));
        assert(pur(valeur_absolue(s.last()), interdit));
    }
}

/// Sorting keeps a sequence of clean trees clean.
proof fn lemme_tri_purs(s: Seq<Terme>, interdit: Seq<char>)
    requires
        tous_purs(s, interdit),
    ensures
        tous_purs(tri(s), interdit),
    decreases s.len(),
{
    if s.len() > 0 {
        let d = s.drop_last();
        assert(tous_purs(d, interdit)) by {
            assert forall|i: int| 0 <= i < d.len() implies pur(#[trigger] d[i], interdit) by {
                assert(d[i] == s[i]);
            }
        }
        lemme_tri_purs(d, interdit);
        lemme_position_insertion(tri(d), s.last());
        let p = position_insertion(tri(d), s.last()) as int;
        let r = tri(d).insert(p, s.last());
        assert(pur(s[s.len() - 1], interdit));
        assert forall|i: int| 0 <= i < r.len() implies pur(#[trigger] r[i], interdit) by {
            if i < p {
                assert(r[i] == tri(d)[i]);
            } else if i > p {
                assert(r[i] == tri(d)[i - 1]);
            }
        }
    }
}

/// The sum of clean terms is clean.
proof fn lemme_reconstruit_somme_pur(w: Seq<Terme>, interdit: Seq<char>)
    requires
        tous_purs(w, interdit),
        w.len() >= 1,
    ensures
        pur(reconstruit_somme(w), interdit),
    decreases w.len(),
{
    reveal_with_fuel(sans_nom, 2);
    reveal_with_fuel(Terme::contient_indefini, 2);
    if w.len() > 1 {
        let d = w.drop_last();
        assert(tous_purs(d, interdit)) by {
            assert forall|i: int| 0 <= i < d.len() implies pur(#[trigger] d[i], interdit) by {
                assert(d[i] == w[i]);
            }
        }
        lemme_reconstruit_somme_pur(d, interdit);
        assert(pur(w[w.len() - 1], interdit));
        assert(pur(valeur_absolue(w.last()), interdit));
    } else {
        assert(pur(w[0], interdit));
    }
}

/// The product of clean factors is clean.
proof fn lemme_reconstruit_produit_pur(w: Seq<Terme>, interdit: Seq<char>)
    requires
        tous_purs(w, interdit),
        w.len() >= 1,
    ensures
        pur(reconstruit_produit(w), interdit),
    decreases w.len(),
{
    if w.len() > 1 {
        let d = w.drop_last();
        assert(tous_purs(d, interdit)) by {
            assert forall|i: int| 0 <= i < d.len() implies pur(#[trigger] d[i], interdit) by {
                assert(d[i] == w[i]);
            }
        }
        lemme_reconstruit_produit_pur(d, interdit);
        assert(pur(w[w.len() - 1], interdit));
    } else {
        assert(pur(w[0], interdit));
    }
}

/// One more clean tree at the end of a clean sequence.
proof fn lemme_purs_empile(s: Seq<Terme>, x: Terme, interdit: Seq<char>)
    requires
        tous_purs(s, interdit),
        pur(x, interdit),
    ensures
        tous_purs(s.push(x), interdit),
{
    assert forall|i: int| 0 <= i < s.push(x).len() implies pur(#[trigger] s.push(x)[i], interdit) by {
        if i < s.len() {
            assert(s.push(x)[i] == s[i]);
        }
    }
}

/// The canonical sum of a clean sum is clean.
proof fn lemme_canon_somme_pur(t: Terme, interdit: Seq<char>)
    requires
        pur(t, interdit),
    ensures
        pur(canon_somme(t), interdit),
{
    lemme_termes_purs(t, interdit);
    let ts = termes_somme(t);
    lemme_sans_rationnels_purs(ts, interdit);
    let v = termes_regroupes(ts);
    lemme_purs_empile(
        sans_rationnels(ts),
        Terme::Rat(crate::canon::somme_rationnels(ts)),
        interdit,
    );
    if v.len() > 0 {
        lemme_tri_purs(v, interdit);
        crate::canon::lemme_tri_longueur(v);
        lemme_reconstruit_somme_pur(tri(v), interdit);
    }
}

/// The canonical product of a clean product is clean.
proof fn lemme_canon_produit_pur(t: Terme, interdit: Seq<char>)
    requires
        pur(t, interdit),
    ensures
        pur(canon_produit(t), interdit),
{
    lemme_facteurs_purs(t, interdit);
    let fs = facteurs(t);
    assert(!un_indefini(fs)) by {
        assert forall|i: int| 0 <= i < fs.len() implies !(#[trigger] fs[i] is Indefini) by {
            assert(pur(fs[i], interdit));
        }
    }
    lemme_autres_facteurs_purs(fs, interdit);
    let v = facteurs_regroupes(fs);
    lemme_purs_empile(
        autres_facteurs(fs),
        Terme::Rat(crate::canon::coefficient(fs)),
        interdit,
    );
    if v.len() > 0 {
        lemme_tri_purs(v, interdit);
        crate::canon::lemme_tri_longueur(v);
        lemme_reconstruit_produit_pur(tri(v), interdit);
    }
}

/// The canonical quotient of clean trees is clean.
proof fn lemme_canon_quotient_pur(a: Terme, b: Terme, interdit: Seq<char>)
    requires
        pur(a, interdit),
        pur(b, interdit),
    ensures
        pur(canon_quotient(a, b), interdit),
    decreases b,
{
    reveal_with_fuel(sans_nom, 3);
    reveal_with_fuel(Terme::contient_indefini, 3);
    if let Terme::Sub(z, y) = b {
        if z.est_zero() {
            lemme_canon_quotient_pur(oppose(a), *y, interdit);
        }
    }
}

/// The canonical form of a clean tree is clean.
pub proof fn lemme_canon_pur(t: Terme, interdit: Seq<char>)
    requires
        pur(t, interdit),
    ensures
        pur(canon(t), interdit),
    decreases t,
{
    reveal_with_fuel(sans_nom, 3);
    reveal_with_fuel(Terme::contient_indefini, 3);
    match t {
        Terme::Rat(_) | Terme::Pi | Terme::Indefini | Terme::Var(_) => {},
        Terme::Sin(x) | Terme::Cos(x) | Terme::Tan(x) => {
            lemme_canon_pur(*x, interdit);
        },
        Terme::PowInt(x, _) => {
            lemme_canon_pur(*x, interdit);
        },
        Terme::Sqrt(x) => {
            lemme_canon_pur(*x, interdit);
            if let Terme::Rat(f) = canon(*x) {
                let (s, r) = extrait(f.num);
                lemme_canon_produit_pur(
                    Terme::Mul(
                        Box::new(Terme::entier(s)),
                        Box::new(crate::canon::racine_de(r)),
                    ),
                    interdit,
                );
            }
        },
        Terme::Add(a, b) => {
            lemme_canon_pur(*a, interdit);
            lemme_canon_pur(*b, interdit);
            lemme_canon_somme_pur(
                Terme::Add(Box::new(canon(*a)), Box::new(canon(*b))),
                interdit,
            );
        },
        Terme::Sub(a, b) => {
            lemme_canon_pur(*a, interdit);
            lemme_canon_pur(*b, interdit);
            lemme_canon_somme_pur(
                Terme::Sub(Box::new(canon(*a)), Box::new(canon(*b))),
                interdit,
            );
        },
        Terme::Mul(a, b) => {
            lemme_canon_pur(*a, interdit);
            lemme_canon_pur(*b, interdit);
            lemme_canon_produit_pur(
                Terme::Mul(Box::new(canon(*a)), Box::new(canon(*b))),
                interdit,
            );
        },
        Terme::Div(a, b) => {
            lemme_canon_pur(*a, interdit);
            lemme_canon_pur(*b, interdit);
            lemme_canon_quotient_pur(canon(*a), canon(*b), interdit);
        },
    }
}

/// The canonical tree of a parsed tree without a variable named `interdit`
/// is `Indefini` itself, or holds neither `Indefini` nor such a variable.
pub proof fn lemme_forme_finale_pure(e0: Terme, interdit: Seq<char>)
    requires
        sans_nom(e0, interdit),
    ensures
        forme_finale(e0) is Indefini || pur(forme_finale(e0), interdit),
{
    let vide = Seq::<char>::empty();
    let s0 = simplifie(e0);
    lemme_simplifie_noms(e0, interdit);
    let s1 = resout(s0, vide).0;
    lemme_resout_noms(s0, vide, interdit);
    let s2 = simplifie(s1);
    lemme_simplifie_noms(s1, interdit);
    let b = identites(s2);
    lemme_identites_noms(s2, crate::identites_trig::PASSES_MAX as nat, interdit);
    let s3 = simplifie(b);
    lemme_simplifie_noms(b, interdit);
    lemme_simplifie_indefini(b);
    if !(s3 is Indefini) {
        lemme_canon_pur(s3, interdit);
    }
}

/// The readable form of a tree that is no `Indefini`, no variable and no
/// quotient does not begin with `i`.
pub proof fn lemme_tete_hors_quotient(t: Terme)
    requires
        !(t is Indefini || t is Var || t is Div),
    ensures
        ne_commence_pas_par_i(texte_joli(t)),
{
    reveal_strlit("π");
    reveal_strlit("√(");
    reveal_strlit("(");
    reveal_strlit("sin(");
    reveal_strlit("cos(");
    reveal_strlit("tan(");
    reveal_strlit("-(");
    reveal_strlit("-");
    match t {
        Terme::Rat(f) => {
            lemme_rat_tete(f);
        },
        Terme::Sqrt(x) => {
            if est_racine_entier(t) {
                lemme_racine_tete(t->Sqrt_0->Rat_0.num);
            }
        },
        Terme::Mul(a, b) => {
            if est_rat_fois_racine(t) {
                lemme_rat_racine_tete(crate::format::facteur_rat(t), crate::format::facteur_racine(t));
            }
        },
        _ => {},
    }
}

/// The readable form of a quotient is not the text `indéfini`: it begins
/// with `√`, a digit or a sign, or it holds a `/`.
pub proof fn lemme_quotient_indefini(t: Terme)
    requires
        t is Div,
    ensures
        texte_joli(t) != "indéfini"@,
{
    let mot = "indéfini"@;
    reveal_strlit("indéfini");
    reveal_strlit("/");
    assert(mot.len() == 8);
    assert forall|k: int| 0 <= k < 8 implies mot[k] != '/' by {}
    let a = *t->Div_0;
    let b = *t->Div_1;
    let ta = texte_joli(a);
    let barre = "/"@;
    assert(barre.len() == 1 && barre[0] == '/');
    if texte_joli(t) == mot {
        if (b matches Terme::Rat(k) && k.est_entier()) {
            let k = b->Rat_0;
            if est_racine_entier(a) {
                let n = crate::format::entier_sous_racine(a);
                lemme_racine_tete(n);
                let texte = texte_racine(n) + barre + texte_entier(k.num);
                assert(texte_joli(t) == texte);
                assert(texte[0] == '√');
                assert(mot[0] == 'i');
            } else if est_rat_fois_racine(a) && !k.est_zero() {
                lemme_rat_racine_tete(
                    crate::format::facteur_rat(a).sur(k),
                    crate::format::facteur_racine(a),
                );
                assert(mot[0] == 'i');
            } else {
                let texte = ta + barre + texte_entier(k.num);
                assert(texte_joli(t) == texte);
                assert(texte[ta.len() as int] == '/');
                assert(ta.len() < 8);
                assert(mot[ta.len() as int] != '/');
            }
        } else {
            let texte = ta + barre + texte_joli(b);
            assert(texte_joli(t) == texte);
            assert(texte[ta.len() as int] == '/');
            assert(ta.len() < 8);
            assert(mot[ta.len() as int] != '/');
        }
    }
}

/// Only `Indefini` and a variable of that name are written `indéfini`.
pub proof fn lemme_joli_indefini(t: Terme)
    requires
        texte_joli(t) == "indéfini"@,
    ensures
        t is Indefini || t == Terme::Var("indéfini"@),
{
    reveal_strlit("indéfini");
    if t is Div {
        lemme_quotient_indefini(t);
    } else if t is Var {
        assert(texte_joli(t) == t->Var_0);
    } else if !(t is Indefini) {
        lemme_tete_hors_quotient(t);
    }
}

/// The exact form of a tree that holds neither `Indefini` nor a variable
/// named `indéfini` is not the text `indéfini`.
pub proof fn lemme_exact_pur(c: Terme)
    requires
        pur(c, "indéfini"@),
    ensures
        texte_exact(c) != "indéfini"@,
{
    reveal_strlit("indéfini");
    match coeff_pi(c) {
        Some(k) => {
            lemme_coeff_pi_tete(k);
        },
        None => {
            if texte_joli(c) == "indéfini"@ {
                lemme_joli_indefini(c);
            }
        },
    }
}

/// Whether the token is no identifier named `interdit`.
pub open spec fn jeton_sans(j: Jeton, interdit: Seq<char>) -> bool {
    j matches Jeton::Ident(nom) ==> nom != interdit
}

/// Whether no token of the sequence is an identifier named `interdit`.
pub open spec fn jetons_sans(js: Seq<Jeton>, interdit: Seq<char>) -> bool {
    forall|i: int| 0 <= i < js.len() ==> jeton_sans(#[trigger] js[i], interdit)
}

/// Whether no tree of the stack holds a variable named `interdit`.
pub open spec fn pile_sans(pile: Seq<Terme>, interdit: Seq<char>) -> bool {
    forall|i: int| 0 <= i < pile.len() ==> sans_nom(#[trigger] pile[i], interdit)
}

/// One more token at the end.
proof fn lemme_jetons_empile(js: Seq<Jeton>, j: Jeton, interdit: Seq<char>)
    requires
        jetons_sans(js, interdit),
        jeton_sans(j, interdit),
    ensures
        jetons_sans(js.push(j), interdit),
{
    assert forall|i: int| 0 <= i < js.push(j).len() implies jeton_sans(
        #[trigger] js.push(j)[i],
        interdit,
    ) by {
        if i < js.len() {
            assert(js.push(j)[i] == js[i]);
        }
    }
}

/// A sequence of tokens without its last, and its last.
proof fn lemme_jetons_depile(js: Seq<Jeton>, interdit: Seq<char>)
    requires
        jetons_sans(js, interdit),
        js.len() > 0,
    ensures
        jetons_sans(js.drop_last(), interdit),
        jeton_sans(js.last(), interdit),
{
    assert forall|i: int| 0 <= i < js.drop_last().len() implies jeton_sans(
        #[trigger] js.drop_last()[i],
        interdit,
    ) by {
        assert(js.drop_last()[i] == js[i]);
    }
    assert(jeton_sans(js[js.len() - 1], interdit));
}

/// Whether neither the output nor the operator stack holds an identifier
/// named `interdit`.
pub open spec fn etat_sans(e: EtatRpn, interdit: Seq<char>) -> bool {
    jetons_sans(e.sortie, interdit) && jetons_sans(e.ops, interdit)
}

/// Popping operators brings in no identifier.
proof fn lemme_depile_pour_sans(e: EtatRpn, op: Jeton, interdit: Seq<char>)
    requires
        etat_sans(e, interdit),
    ensures
        etat_sans(e.depile_pour(op), interdit),
    decreases e.ops.len(),
{
    if e.ops.len() > 0 {
        let haut = e.ops.last();
        if !(haut is LPar || haut.est_fonction() || !haut.sort_avant(op)) {
            lemme_jetons_depile(e.ops, interdit);
            lemme_jetons_empile(e.sortie, haut, interdit);
            lemme_depile_pour_sans(
                EtatRpn {
                    sortie: e.sortie.push(haut),
                    ops: e.ops.drop_last(),
                    valeur_avant: e.valeur_avant,
                },
                op,
                interdit,
            );
        }
    }
}

/// Closing a parenthesis brings in no identifier.
proof fn lemme_ferme_parenthese_sans(e: EtatRpn, interdit: Seq<char>)
    requires
        etat_sans(e, interdit),
    ensures
        e.ferme_parenthese() matches Some(f) ==> etat_sans(f, interdit),
    decreases e.ops.len(),
{
    if e.ops.len() > 0 {
        let haut = e.ops.last();
        lemme_jetons_depile(e.ops, interdit);
        if !(haut is LPar) {
            lemme_jetons_empile(e.sortie, haut, interdit);
            lemme_ferme_parenthese_sans(
                EtatRpn {
                    sortie: e.sortie.push(haut),
                    ops: e.ops.drop_last(),
                    valeur_avant: e.valeur_avant,
                },
                interdit,
            );
        }
    }
}

/// One step of the conversion brings in no identifier.
proof fn lemme_pas_sans(e: EtatRpn, j: Jeton, interdit: Seq<char>)
    requires
        etat_sans(e, interdit),
        jeton_sans(j, interdit),
    ensures
        e.pas(j) matches Ok(f) ==> etat_sans(f, interdit),
{
    match j {
        Jeton::Num(_) | Jeton::Pi => {
            lemme_jetons_empile(e.sortie, j, interdit);
        },
        Jeton::Ident(_) => {
            lemme_jetons_empile(e.sortie, j, interdit);
            lemme_jetons_empile(e.ops, j, interdit);
        },
        Jeton::LPar => {
            lemme_jetons_empile(e.ops, j, interdit);
        },
        Jeton::RPar => {
            lemme_ferme_parenthese_sans(e, interdit);
            if let Some(f) = e.ferme_parenthese() {
                if f.ops.len() > 0 {
                    lemme_jetons_depile(f.ops, interdit);
                    lemme_jetons_empile(f.sortie, f.ops.last(), interdit);
                }
            }
        },
        Jeton::Plus | Jeton::Star | Jeton::Slash | Jeton::Caret => {
            lemme_depile_pour_sans(e, j, interdit);
            lemme_jetons_empile(e.depile_pour(j).ops, j, interdit);
        },
        Jeton::Minus => {
            let zero = Jeton::Num(Frac::entier(0));
            lemme_jetons_empile(e.sortie, zero, interdit);
            let avec_zero = if e.valeur_avant {
                e
            } else {
                EtatRpn { sortie: e.sortie.push(zero), ops: e.ops, valeur_avant: e.valeur_avant }
            };
            lemme_depile_pour_sans(avec_zero, j, interdit);
            lemme_jetons_empile(avec_zero.depile_pour(j).ops, j, interdit);
        },
    }
}

/// Emptying the operator stack brings in no identifier.
proof fn lemme_vidage_sans(e: EtatRpn, interdit: Seq<char>)
    requires
        etat_sans(e, interdit),
    ensures
        e.vidage() matches Ok(js) ==> jetons_sans(js, interdit),
    decreases e.ops.len(),
{
    if e.ops.len() > 0 && !(e.ops.last() is LPar) {
        lemme_jetons_depile(e.ops, interdit);
        lemme_jetons_empile(e.sortie, e.ops.last(), interdit);
        lemme_vidage_sans(
            EtatRpn {
                sortie: e.sortie.push(e.ops.last()),
                ops: e.ops.drop_last(),
                valeur_avant: e.valeur_avant,
            },
            interdit,
        );
    }
}

/// The conversion of the rest of the tokens brings in no identifier.
proof fn lemme_suite_sans(e: EtatRpn, js: Seq<Jeton>, interdit: Seq<char>)
    requires
        etat_sans(e, interdit),
        jetons_sans(js, interdit),
    ensures
        e.suite(js) matches Ok(r) ==> jetons_sans(r, interdit),
    decreases js.len(),
{
    if js.len() == 0 {
        lemme_vidage_sans(e, interdit);
    } else {
        assert(jeton_sans(js[0], interdit));
        lemme_pas_sans(e, js[0], interdit);
        if let Ok(f) = e.pas(js[0]) {
            assert forall|i: int| 0 <= i < js.drop_first().len() implies jeton_sans(
                #[trigger] js.drop_first()[i],
                interdit,
            ) by {
                assert(js.drop_first()[i] == js[i + 1]);
            }
            lemme_suite_sans(f, js.drop_first(), interdit);
        }
    }
}

/// The conversion to postfix order brings in no identifier.
pub proof fn lemme_rpn_sans(js: Seq<Jeton>, interdit: Seq<char>)
    requires
        jetons_sans(js, interdit),
    ensures
        vers_rpn(js) matches Ok(r) ==> jetons_sans(r, interdit),
{
    lemme_suite_sans(EtatRpn::initial(), js, interdit);
}

/// One step of the construction of the tree brings in no variable.
proof fn lemme_pas_arbre_sans(pile: Seq<Terme>, j: Jeton, interdit: Seq<char>)
    requires
        pile_sans(pile, interdit),
        jeton_sans(j, interdit),
    ensures
        pas_arbre(pile, j) matches Ok(p) ==> pile_sans(p, interdit),
{
    if let Ok(p) = pas_arbre(pile, j) {
        assert forall|i: int| 0 <= i < p.len() implies sans_nom(#[trigger] p[i], interdit) by {
            if i < p.len() - 1 {
                assert(p[i] == pile[i]);
            } else {
                match j {
                    Jeton::Plus | Jeton::Minus | Jeton::Star | Jeton::Slash | Jeton::Caret => {
                        assert(sans_nom(pile[pile.len() - 1], interdit));
                        assert(sans_nom(pile[pile.len() - 2], interdit));
                    },
                    Jeton::Ident(nom) => {
                        if est_fonction(nom) {
                            assert(sans_nom(pile[pile.len() - 1], interdit));
                        }
                    },
                    _ => {},
                }
            }
        }
    }
}

/// The construction of the tree brings in no variable.
proof fn lemme_arbre_depuis_sans(pile: Seq<Terme>, rpn: Seq<Jeton>, interdit: Seq<char>)
    requires
        pile_sans(pile, interdit),
        jetons_sans(rpn, interdit),
    ensures
        arbre_depuis(pile, rpn) matches Ok(e) ==> sans_nom(e, interdit),
    decreases rpn.len(),
{
    if rpn.len() == 0 {
        if pile.len() == 1 {
            assert(sans_nom(pile[0], interdit));
        }
    } else {
        assert(jeton_sans(rpn[0], interdit));
        lemme_pas_arbre_sans(pile, rpn[0], interdit);
        if let Ok(p) = pas_arbre(pile, rpn[0]) {
            assert forall|i: int| 0 <= i < rpn.drop_first().len() implies jeton_sans(
                #[trigger] rpn.drop_first()[i],
                interdit,
            ) by {
                assert(rpn.drop_first()[i] == rpn[i + 1]);
            }
            lemme_arbre_depuis_sans(p, rpn.drop_first(), interdit);
        }
    }
}

/// The tree of a postfix sequence holds no variable but the identifiers of
/// the sequence.
pub proof fn lemme_arbre_sans(rpn: Seq<Jeton>, interdit: Seq<char>)
    requires
        jetons_sans(rpn, interdit),
    ensures
        arbre_de(rpn) matches Ok(e) ==> sans_nom(e, interdit),
{
    lemme_arbre_depuis_sans(Seq::empty(), rpn, interdit);
}

/// The characters of an identifier after its first continue an identifier.
proof fn lemme_longueur_ident(s: Seq<char>, j: int)
    requires
        0 <= j,
    ensures
        j + longueur_ident(s, j) <= s.len() || longueur_ident(s, j) == 0,
        forall|k: int| j <= k < j + longueur_ident(s, j) ==> est_suite_ident(#[trigger] s[k]),
    decreases s.len() - j,
{
    if j < s.len() && est_suite_ident(s[j]) {
        lemme_longueur_ident(s, j + 1);
    }
}

/// No identifier that the lexer reads is the word `indéfini`: its fourth
/// letter is not an ASCII character.
proof fn lemme_jeton_sans_accent(s: Seq<char>, i: int)
    requires
        0 <= i < s.len(),
    ensures
        lit_jeton(s, i) matches Ok(j) ==> jeton_sans(j, "indéfini"@),
{
    reveal_strlit("indéfini");
    reveal_strlit("sqrt");
    let c = s[i];
    assert("sqrt"@.len() == 4);
    assert("indéfini"@.len() == 8);
    if jeton_symbole(c) is Some {
        assert(jeton_sans(jeton_symbole(c)->0, "indéfini"@));
    } else if est_debut_ident(c) {
        let k = longueur_ident(s, i + 1);
        lemme_longueur_ident(s, i + 1);
        let mot = s.subrange(i, i + 1 + k);
        let m = minuscules(mot);
        if m == "indéfini"@ {
            assert(m.len() == 8);
            assert(mot.len() == 8);
            assert(m[3] == minuscule(mot[3]));
            assert(mot[3] == s[i + 3]);
            assert(est_suite_ident(s[i + 3]));
            lemme_minuscule_ascii(s[i + 3]);
            assert(m[3] == 'é');
        }
        assert(jeton_mot(mot) is Pi || jeton_mot(mot) == Jeton::Ident(m));
    }
}

/// The lower case of a character of an identifier is an ASCII character.
proof fn lemme_minuscule_ascii(c: char)
    requires
        est_suite_ident(c),
    ensures
        minuscule(c) != 'é',
{
    if 'A' <= c && c <= 'Z' {
        let b = c as u8;
        assert(65 <= b <= 90);
        let m = (b + 32) as u8;
        assert(97 <= m <= 122);
        assert((m as char) as u8 == m);
    }
}

/// No identifier among the tokens of a text is the word `indéfini`.
pub proof fn lemme_analyse_sans_accent(s: Seq<char>, i: int)
    ensures
        analyse(s, i) matches Ok(js) ==> jetons_sans(js, "indéfini"@),
    decreases
            (if i < s.len() {
                s.len() - i
            } else {
                0
            }),
{
    let interdit = "indéfini"@;
    if 0 <= i < s.len() {
        if crate::texte::est_blanc(s[i]) {
            lemme_analyse_sans_accent(s, i + 1);
        } else {
            lemme_jeton_sans_accent(s, i);
            let n = suite_jeton(s, i);
            lemme_analyse_sans_accent(s, i + 1 + n);
            if let Ok(t) = lit_jeton(s, i) {
                if let Ok(suite) = analyse(s, i + 1 + n) {
                    let js = seq![t] + suite;
                    assert forall|k: int| 0 <= k < js.len() implies jeton_sans(
                        #[trigger] js[k],
                        interdit,
                    ) by {
                        if k > 0 {
                            assert(js[k] == suite[k - 1]);
                        }
                    }
                }
            }
        }
    }
}

/// The result `indéfini` and the decimal reading.
///
/// The exact form is the text `indéfini` exactly when the canonical tree is
/// `Indefini`, and then there is no decimal reading; where there is no
/// decimal reading and the tree is not `Indefini`, the search for a variable
/// has answered yes.
pub proof fn lemme_indefini(s: Seq<char>, d: nat)
    ensures
        evaluation(s, d) matches Ok(r) ==> {
            &&& r.0 == "indéfini"@ <==> arbre_final(s) is Indefini
            &&& arbre_final(s) is Indefini ==> r.1 is None
            &&& r.1 is None ==> arbre_final(s) is Indefini || crate::eval::variable_possible(
                arbre_final(s),
            )
        },
{
    if let Ok(r) = evaluation(s, d) {
        let interdit = "indéfini"@;
        let jetons = analyse(s, 0)->Ok_0;
        lemme_analyse_sans_accent(s, 0);
        lemme_rpn_sans(jetons, interdit);
        let rpn = vers_rpn(jetons)->Ok_0;
        lemme_arbre_sans(rpn, interdit);
        let e0 = arbre_de(rpn)->Ok_0;
        lemme_forme_finale_pure(e0, interdit);
        let c = arbre_final(s);
        if !(c is Indefini) {
            lemme_exact_pur(c);
        }
    }
}

/// `Indefini` is terminal: no pass of the kernel makes anything else of it.
pub proof fn lemme_indefini_terminal()
    ensures
        simplifie(Terme::Indefini) is Indefini,
        resout(Terme::Indefini, Seq::empty()).0 is Indefini,
        identites(Terme::Indefini) is Indefini,
        canon(Terme::Indefini) is Indefini,
        forme_finale(Terme::Indefini) is Indefini,
        texte_exact(Terme::Indefini) == "indéfini"@,
{
    reveal_with_fuel(reecrit_borne, 2);
}

/// The number of leaves of a sum of halves: `Some(n)` for a tree of sums
/// whose `n` leaves are all the rational 1/2, `None` for any other tree.
pub open spec fn demis(t: Terme) -> Option<nat>
    decreases t,
{
    match t {
        Terme::Rat(f) => if f == (Frac { num: 1, den: 2 }) {
            Some(1nat)
        } else {
            None
        },
        Terme::Add(a, b) => match (demis(*a), demis(*b)) {
            (Some(x), Some(y)) => Some(x + y),
            _ => None,
        },
        _ => None,
    }
}

/// `n/2` in lowest terms, for a natural `n`: `n/2` over one for an even `n`,
/// `n` over two for an odd one.
proof fn lemme_reduite_demi(n: int)
    requires
        n >= 0,
    ensures
        n % 2 == 0 ==> reduite(n, 2) == (Frac { num: n / 2, den: 1 }),
        n % 2 == 1 ==> reduite(n, 2) == (Frac { num: n, den: 2 }),
{
    let a = n as nat;
    assert(pgcd(a, 2) == pgcd(2, a % 2));
    if n % 2 == 0 {
        assert(pgcd(2, 0) == 2);
        assert(2int / 2 == 1);
    } else {
        assert(pgcd(2, 1) == pgcd(1, 2nat % 1nat));
        assert(pgcd(1, 0) == 1);
        assert(n / 1 == n && 2int / 1 == 2);
    }
}

/// The sum of `a/2` and `b/2`, each in lowest terms, is `(a+b)/2` in lowest
/// terms.
proof fn lemme_somme_demis(a: int, b: int)
    requires
        a >= 0,
        b >= 0,
    ensures
        reduite(a, 2).plus(reduite(b, 2)) == reduite(a + b, 2),
{
    lemme_reduite_demi(a);
    lemme_reduite_demi(b);
    lemme_reduite_demi(a + b);
    let x = reduite(a, 2);
    let y = reduite(b, 2);
    let m = x.num * y.den + y.num * x.den;
    let d = x.den * y.den;
    if a % 2 == 0 && b % 2 == 0 {
        assert(m == x.num + y.num && d == 1) by (nonlinear_arith)
            requires
                x.den == 1,
                y.den == 1,
                m == x.num * y.den + y.num * x.den,
                d == x.den * y.den,
        ;
        assert(pgcd(m as nat, 1) == pgcd(1, (m as nat) % 1));
        assert(pgcd(1, 0) == 1);
        assert(m / 1 == m && 1int / 1 == 1);
        assert((a + b) / 2 == a / 2 + b / 2);
    } else if a % 2 == 0 {
        assert(m == 2 * x.num + y.num && d == 2) by (nonlinear_arith)
            requires
                x.den == 1,
                y.den == 2,
                m == x.num * y.den + y.num * x.den,
                d == x.den * y.den,
        ;
    } else if b % 2 == 0 {
        assert(m == x.num + 2 * y.num && d == 2) by (nonlinear_arith)
            requires
                x.den == 2,
                y.den == 1,
                m == x.num * y.den + y.num * x.den,
                d == x.den * y.den,
        ;
    } else {
        assert(m == 2 * x.num + 2 * y.num && d == 4) by (nonlinear_arith)
            requires
                x.den == 2,
                y.den == 2,
                m == x.num * y.den + y.num * x.den,
                d == x.den * y.den,
        ;
        assert(m % 4 == 0);
        assert(pgcd(m as nat, 4) == pgcd(4, (m as nat) % 4));
        assert(pgcd(4, 0) == 4);
        assert(m / 4 == (a + b) / 2 && 4int / 4 == 1);
    }
}

/// A sum of `n` halves, whatever the shape of its tree, simplifies to the
/// rational `n/2`, and that is the tree that the kernel ends with: no later
/// pass changes a rational.
pub proof fn lemme_somme_de_demis(t: Terme)
    requires
        demis(t) is Some,
    ensures
        demis(t)->0 >= 1,
        simplifie(t) == Terme::Rat(reduite(demis(t)->0 as int, 2)),
        forme_finale(t) == Terme::Rat(reduite(demis(t)->0 as int, 2)),
    decreases t,
{
    match t {
        Terme::Rat(f) => {
            lemme_reduite_demi(1);
        },
        Terme::Add(a, b) => {
            lemme_somme_de_demis(*a);
            lemme_somme_de_demis(*b);
            lemme_somme_demis(demis(*a)->0 as int, demis(*b)->0 as int);
        },
        _ => {},
    }
    reveal_with_fuel(reecrit_borne, 2);
}

} // verus!

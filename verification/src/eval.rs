//! The pipeline: text in, exact form, decimal reading and derivation out.
//!
//! tokens → postfix → tree → simplify → special angles → simplify →
//! identities → simplify → canonical form → exact text → decimal reading.
use crate::canon::canon;
use crate::expr::{simplifie, Expr, Terme, MAX_NOEUDS, MAX_PILE};
use crate::format::{format_exact_final, format_expr_pretty, texte_exact, texte_joli};
use crate::identites_trig::{identites, trig_identites};
use crate::jetons::{analyse, format_tokens, texte_jetons, tokenize};
use crate::lecture::{eval_scaled_avec_cache, lecture, scaled_to_decimal, texte_decimal, CachePi};
use crate::rpn::{arbre_de, from_rpn, to_rpn, vers_rpn};
use crate::texte::{car_est_blanc, caracteres, est_blanc};
use crate::trig::{angle_special, trig_special, Issue, TrigFn, TrigOutcome};
use vstd::prelude::*;
use vstd::string::StringExecFns;

verus! {

/// The derivation of one evaluation: six texts for display.
#[derive(Default, Clone, Debug)]
pub struct DemarcheNoyau {
    /// The tokens.
    pub jetons: String,
    /// The tokens in postfix order.
    pub rpn: String,
    /// The tree as it was parsed.
    pub avant: String,
    /// The canonical tree.
    pub apres: String,
    /// The stages of the pipeline.
    pub note: String,
    /// One line for each special angle that was resolved.
    pub preuve: String,
}

/// The mathematical model of a [`DemarcheNoyau`].
pub struct Derivation {
    pub jetons: Seq<char>,
    pub rpn: Seq<char>,
    pub avant: Seq<char>,
    pub apres: Seq<char>,
    pub note: Seq<char>,
    pub preuve: Seq<char>,
}

impl View for DemarcheNoyau {
    type V = Derivation;

    open spec fn view(&self) -> Derivation {
        Derivation {
            jetons: self.jetons@,
            rpn: self.rpn@,
            avant: self.avant@,
            apres: self.apres@,
            note: self.note@,
            preuve: self.preuve@,
        }
    }
}

/// The text of the note of every derivation.
pub open spec fn note_pipeline() -> Seq<char> {
    "Pipeline: jetons → RPN → Expr → simplify → trig spéciale → re-simplify → identités trig → re-simplify → canon → EXACT → ΣLocal."@
}

/// The sum of the sizes of the trees of a stack.
pub open spec fn taille_pile(pile: Seq<Terme>) -> nat
    decreases pile.len(),
{
    if pile.len() == 0 {
        0
    } else {
        taille_pile(pile.drop_last()) + pile.last().taille()
    }
}

/// The stack with the operands of `t` on top, the right one last.
pub open spec fn empile_operandes(pile: Seq<Terme>, t: Terme) -> Seq<Terme> {
    match t {
        Terme::Rat(_) | Terme::Pi | Terme::Indefini | Terme::Var(_) => pile,
        Terme::Sqrt(x) | Terme::Sin(x) | Terme::Cos(x) | Terme::Tan(x) => pile.push(*x),
        Terme::PowInt(x, _) => pile.push(*x),
        Terme::Add(a, b) | Terme::Sub(a, b) | Terme::Mul(a, b) | Terme::Div(a, b) => pile.push(
            *a,
        ).push(*b),
    }
}

/// One more tree on a stack adds its size.
pub proof fn lemme_taille_empile(pile: Seq<Terme>, t: Terme)
    ensures
        taille_pile(pile.push(t)) == taille_pile(pile) + t.taille(),
{
    assert(pile.push(t).drop_last() =~= pile);
}

/// A node replaced by its operands takes one node off the stack.
pub proof fn lemme_taille_operandes(pile: Seq<Terme>, t: Terme)
    ensures
        taille_pile(empile_operandes(pile, t)) + 1 == taille_pile(pile) + t.taille(),
{
    match t {
        Terme::Rat(_) | Terme::Pi | Terme::Indefini | Terme::Var(_) => {},
        Terme::Sqrt(x) | Terme::Sin(x) | Terme::Cos(x) | Terme::Tan(x) => {
            lemme_taille_empile(pile, *x);
        },
        Terme::PowInt(x, _) => {
            lemme_taille_empile(pile, *x);
        },
        Terme::Add(a, b) | Terme::Sub(a, b) | Terme::Mul(a, b) | Terme::Div(a, b) => {
            lemme_taille_empile(pile, *a);
            lemme_taille_empile(pile.push(*a), *b);
        },
    }
}

/// The search for a variable, node by node from an explicit stack;
/// `visites` counts the nodes taken off it. The answer is yes as soon as a
/// variable is met, and also as soon as more than [`MAX_NOEUDS`] nodes have
/// been taken off or more than [`MAX_PILE`] are left under the one that
/// leaves.
pub open spec fn parcours_variable(pile: Seq<Terme>, visites: int) -> bool
    decreases taille_pile(pile),
{
    if pile.len() == 0 {
        false
    } else {
        let e = pile.last();
        let reste = pile.drop_last();
        if visites + 1 > MAX_NOEUDS || reste.len() > MAX_PILE {
            true
        } else if e is Var {
            true
        } else {
            proof {
                lemme_taille_operandes(reste, e);
            }
            parcours_variable(empile_operandes(reste, e), visites + 1)
        }
    }
}

/// Whether the bounded search answers that the term may hold a variable.
pub open spec fn variable_possible(t: Terme) -> bool {
    parcours_variable(seq![t], 0)
}

/// The bounded search fails safe: it never misses a variable.
pub proof fn lemme_parcours_sur(pile: Seq<Terme>, visites: int)
    requires
        exists|i: int| 0 <= i < pile.len() && (#[trigger] pile[i]).contient_variable(),
    ensures
        parcours_variable(pile, visites),
    decreases taille_pile(pile),
{
    let i = choose|i: int| 0 <= i < pile.len() && (#[trigger] pile[i]).contient_variable();
    let e = pile.last();
    let reste = pile.drop_last();
    if !(visites + 1 > MAX_NOEUDS || reste.len() > MAX_PILE) && !(e is Var) {
        lemme_taille_operandes(reste, e);
        let suite = empile_operandes(reste, e);
        if i < pile.len() - 1 {
            assert(suite[i] == pile[i]);
        } else {
            match e {
                Terme::Rat(_) | Terme::Pi | Terme::Indefini | Terme::Var(_) => {},
                Terme::Sqrt(x) | Terme::Sin(x) | Terme::Cos(x) | Terme::Tan(x) => {
                    assert(suite[suite.len() - 1] == *x);
                },
                Terme::PowInt(x, _) => {
                    assert(suite[suite.len() - 1] == *x);
                },
                Terme::Add(a, b) | Terme::Sub(a, b) | Terme::Mul(a, b) | Terme::Div(a, b) => {
                    assert(suite[suite.len() - 2] == *a);
                    assert(suite[suite.len() - 1] == *b);
                },
            }
        }
        lemme_parcours_sur(suite, visites + 1);
    }
}

/// Within the bounds, the search finds nothing where there is no variable.
pub proof fn lemme_parcours_exact(pile: Seq<Terme>, visites: int)
    requires
        visites >= 0,
        visites + taille_pile(pile) <= MAX_NOEUDS,
        taille_pile(pile) <= MAX_PILE,
        forall|i: int| 0 <= i < pile.len() ==> !(#[trigger] pile[i]).contient_variable(),
    ensures
        !parcours_variable(pile, visites),
    decreases taille_pile(pile),
{
    if pile.len() > 0 {
        let e = pile.last();
        let reste = pile.drop_last();
        lemme_taille_longueur(reste);
        lemme_taille_operandes(reste, e);
        assert(!e.contient_variable());
        let suite = empile_operandes(reste, e);
        assert forall|i: int| 0 <= i < suite.len() implies !(#[trigger] suite[i]).contient_variable() by {
            if i < reste.len() {
                assert(suite[i] == pile[i]);
            }
        }
        lemme_parcours_exact(suite, visites + 1);
    }
}

/// A stack holds no more trees than nodes.
pub proof fn lemme_taille_longueur(pile: Seq<Terme>)
    ensures
        pile.len() <= taille_pile(pile),
    decreases pile.len(),
{
    if pile.len() > 0 {
        lemme_taille_longueur(pile.drop_last());
        assert(pile.last().taille() >= 1) by {
            reveal_with_fuel(Terme::taille, 1);
        }
    }
}

/// The search for a variable never misses one, and on a tree of at most
/// [`MAX_PILE`] nodes it answers exactly.
pub proof fn lemme_variable_possible(t: Terme)
    ensures
        t.contient_variable() ==> variable_possible(t),
        t.taille() <= MAX_PILE ==> variable_possible(t) == t.contient_variable(),
{
    let pile = seq![t];
    assert(pile[0] == t);
    assert(pile.drop_last() =~= Seq::<Terme>::empty());
    assert(taille_pile(Seq::<Terme>::empty()) == 0);
    assert(pile.last() == t);
    assert(taille_pile(pile) == taille_pile(pile.drop_last()) + pile.last().taille());
    assert(taille_pile(pile) == t.taille());
    if t.contient_variable() {
        lemme_parcours_sur(pile, 0);
    } else if t.taille() <= MAX_PILE {
        lemme_parcours_exact(pile, 0);
    }
}

/// A proof text with one more line; an empty line adds nothing.
pub open spec fn ajoute_ligne(preuve: Seq<char>, ligne: Seq<char>) -> Seq<char> {
    if ligne.len() == 0 {
        preuve
    } else if preuve.len() == 0 {
        ligne
    } else {
        preuve + "\n"@ + ligne
    }
}

/// The function of a trigonometric node at a special angle, or the node
/// over its resolved argument.
pub open spec fn resout_fonction(f: TrigFn, x: Terme, preuve: Seq<char>) -> (Terme, Seq<char>)
    decreases x, 2nat,
{
    match angle_special(x, f) {
        Some(Issue::Valeur(v, p)) => (simplifie(v), ajoute_ligne(preuve, p)),
        Some(Issue::Indefini(p)) => (Terme::Indefini, ajoute_ligne(preuve, p)),
        None => {
            let (xx, pr) = resout(x, preuve);
            (simplifie(f.noeud(xx)), pr)
        },
    }
}

/// The tree with every trigonometric node at a special angle replaced by
/// its exact value, and the proof text with one line more for each. Every
/// node that is built is simplified.
pub open spec fn resout(t: Terme, preuve: Seq<char>) -> (Terme, Seq<char>)
    decreases t, 1nat,
{
    match t {
        Terme::Sin(x) => resout_fonction(TrigFn::Sin, *x, preuve),
        Terme::Cos(x) => resout_fonction(TrigFn::Cos, *x, preuve),
        Terme::Tan(x) => resout_fonction(TrigFn::Tan, *x, preuve),
        Terme::Add(a, b) => {
            let (aa, pa) = resout(*a, preuve);
            let (bb, pb) = resout(*b, pa);
            (simplifie(Terme::Add(Box::new(aa), Box::new(bb))), pb)
        },
        Terme::Sub(a, b) => {
            let (aa, pa) = resout(*a, preuve);
            let (bb, pb) = resout(*b, pa);
            (simplifie(Terme::Sub(Box::new(aa), Box::new(bb))), pb)
        },
        Terme::Mul(a, b) => {
            let (aa, pa) = resout(*a, preuve);
            let (bb, pb) = resout(*b, pa);
            (simplifie(Terme::Mul(Box::new(aa), Box::new(bb))), pb)
        },
        Terme::Div(a, b) => {
            let (aa, pa) = resout(*a, preuve);
            let (bb, pb) = resout(*b, pa);
            (simplifie(Terme::Div(Box::new(aa), Box::new(bb))), pb)
        },
        Terme::Sqrt(x) => {
            let (xx, p) = resout(*x, preuve);
            (simplifie(Terme::Sqrt(Box::new(xx))), p)
        },
        Terme::PowInt(x, n) => {
            let (xx, p) = resout(*x, preuve);
            (simplifie(Terme::PowInt(Box::new(xx), n)), p)
        },
        Terme::Rat(_) | Terme::Pi | Terme::Indefini | Terme::Var(_) => (t, preuve),
    }
}

/// The canonical tree of a parsed tree: simplified, special angles
/// resolved, simplified, rewritten by the identities, simplified, put in
/// canonical form.
pub open spec fn forme_finale(e0: Terme) -> Terme {
    canon(simplifie(identites(simplifie(resout(simplifie(e0), Seq::empty()).0))))
}

/// The decimal reading of a canonical tree: none for `Indefini`, none where
/// the tree may hold a variable, else the scaled value as text, or the error
/// that stops the evaluation.
pub open spec fn lecture_decimale(c: Terme, d: nat) -> Result<Option<Seq<char>>, Seq<char>> {
    if c is Indefini || variable_possible(c) {
        Ok(None)
    } else {
        match lecture(c, d) {
            Err(e) => Err(e),
            Ok(v) => Ok(Some(texte_decimal(v, d))),
        }
    }
}

/// Whether the text holds nothing but white space.
pub open spec fn tout_blanc(s: Seq<char>) -> bool {
    forall|i: int| 0 <= i < s.len() ==> est_blanc(#[trigger] s[i])
}

/// What the evaluation of the text `s` at `d` digits gives: the exact
/// form, the decimal reading where there is one, and the derivation; or the
/// message of the first stage that fails.
pub open spec fn evaluation(s: Seq<char>, d: nat) -> Result<
    (Seq<char>, Option<Seq<char>>, Derivation),
    Seq<char>,
> {
    if tout_blanc(s) {
        Err("Entrée vide"@)
    } else {
        match analyse(s, 0) {
            Err(e) => Err(e),
            Ok(jetons) => match vers_rpn(jetons) {
                Err(e) => Err(e),
                Ok(rpn) => match arbre_de(rpn) {
                    Err(e) => Err(e),
                    Ok(e0) => {
                        let c = forme_finale(e0);
                        match lecture_decimale(c, d) {
                            Err(e) => Err(e),
                            Ok(decimal) => Ok(
                                (
                                    texte_exact(c),
                                    decimal,
                                    Derivation {
                                        jetons: texte_jetons(jetons),
                                        rpn: texte_jetons(rpn),
                                        avant: texte_joli(e0),
                                        apres: texte_joli(c),
                                        note: note_pipeline(),
                                        preuve: resout(simplifie(e0), Seq::empty()).1,
                                    },
                                ),
                            ),
                        }
                    },
                },
            },
        }
    }
}

/// The model of what [`eval_expression`] returns.
pub open spec fn vue_evaluation(r: Result<(String, Option<String>, DemarcheNoyau), String>) -> Result<
    (Seq<char>, Option<Seq<char>>, Derivation),
    Seq<char>,
> {
    match r {
        Ok((exact, decimal, d)) => Ok(
            (
                exact@,
                match decimal {
                    Some(t) => Some(t@),
                    None => None,
                },
                d@,
            ),
        ),
        Err(e) => Err(e@),
    }
}

/// The models of a stack of references.
pub open spec fn vue_refs(pile: Seq<&Expr>) -> Seq<Terme> {
    pile.map_values(|e: &Expr| e@)
}

/// Whether the expression may hold a variable: an iterative search with an
/// explicit stack and two bounds. Beyond a bound the answer is yes; see
/// [`parcours_variable`].
pub fn contient_var(expr: &Expr) -> (b: bool)
    ensures
        b == variable_possible(expr@),
{
    let mut pile: Vec<&Expr> = Vec::new();
    pile.push(expr);
    let mut visites: usize = 0;
    proof {
        assert(vue_refs(pile@) =~= seq![expr@]);
    }
    while pile.len() > 0
        invariant
            parcours_variable(vue_refs(pile@), visites as int) == variable_possible(expr@),
            visites <= MAX_NOEUDS,
        decreases taille_pile(vue_refs(pile@)),
    {
        let ghost avant = vue_refs(pile@);
        let e = pile.pop().unwrap();
        let ghost reste = vue_refs(pile@);
        proof {
            assert(reste =~= avant.drop_last());
            assert(e@ == avant.last());
            lemme_taille_operandes(reste, e@);
        }
        visites += 1;
        if visites > MAX_NOEUDS || pile.len() > MAX_PILE {
            return true;
        }
        match e {
            Expr::Var(_) => {
                return true;
            },
            Expr::Rat(_) | Expr::Pi | Expr::Indefini => {},
            Expr::Sqrt(x) | Expr::Sin(x) | Expr::Cos(x) | Expr::Tan(x) => {
                pile.push(&**x);
                proof {
                    assert(vue_refs(pile@) =~= empile_operandes(reste, e@));
                }
            },
            Expr::PowInt(x, _) => {
                pile.push(&**x);
                proof {
                    assert(vue_refs(pile@) =~= empile_operandes(reste, e@));
                }
            },
            Expr::Add(a, b) | Expr::Sub(a, b) | Expr::Mul(a, b) | Expr::Div(a, b) => {
                pile.push(&**a);
                pile.push(&**b);
                proof {
                    assert(vue_refs(pile@) =~= empile_operandes(reste, e@));
                }
            },
        }
    }
    false
}

/// Adds a line to the proof text.
fn push_preuve(preuve: &mut String, ligne: &str)
    ensures
        final(preuve)@ == ajoute_ligne(old(preuve)@, ligne@),
{
    if ligne.is_empty() {
        return ;
    }
    if !preuve.as_str().is_empty() {
        preuve.append("\n");
    } else {
        assert(preuve@ + ligne@ =~= ligne@);
    }
    preuve.append(ligne);
}

/// The node of the function `f` over `x`.
fn noeud_fonction(f: TrigFn, x: Expr) -> (r: Expr)
    ensures
        r@ == f.noeud(x@),
        x@.bien_forme() ==> r@.bien_forme(),
{
    match f {
        TrigFn::Sin => Expr::Sin(Box::new(x)),
        TrigFn::Cos => Expr::Cos(Box::new(x)),
        TrigFn::Tan => Expr::Tan(Box::new(x)),
    }
}

/// The function `f` of `x`: its value where `x` is a special angle, else the
/// node over the resolved `x`; see [`resout_fonction`].
fn applique_fonction(f: TrigFn, x: &Expr, preuve: &mut String) -> (r: Expr)
    requires
        x@.bien_forme(),
    ensures
        (r@, final(preuve)@) == resout_fonction(f, x@, old(preuve)@),
        r@.bien_forme(),
    decreases x, 2nat,
{
    match trig_special(x, f) {
        Some(TrigOutcome::Valeur(v, p)) => {
            push_preuve(preuve, p.as_str());
            v.simplify()
        },
        Some(TrigOutcome::Indefini(p)) => {
            push_preuve(preuve, p.as_str());
            Expr::Indefini
        },
        None => {
            let xx = applique_trig_speciale(x, preuve);
            noeud_fonction(f, xx).simplify()
        },
    }
}

/// Replaces every trigonometric node at a special angle by its exact
/// value, all over the tree, and adds one line of proof for each; see
/// [`resout`].
pub fn applique_trig_speciale(expr: &Expr, preuve: &mut String) -> (r: Expr)
    requires
        expr@.bien_forme(),
    ensures
        (r@, final(preuve)@) == resout(expr@, old(preuve)@),
        r@.bien_forme(),
    decreases expr, 1nat,
{
    match expr {
        Expr::Sin(x) => applique_fonction(TrigFn::Sin, &**x, preuve),
        Expr::Cos(x) => applique_fonction(TrigFn::Cos, &**x, preuve),
        Expr::Tan(x) => applique_fonction(TrigFn::Tan, &**x, preuve),
        Expr::Add(a, b) => {
            let aa = applique_trig_speciale(&**a, preuve);
            let bb = applique_trig_speciale(&**b, preuve);
            Expr::Add(Box::new(aa), Box::new(bb)).simplify()
        },
        Expr::Sub(a, b) => {
            let aa = applique_trig_speciale(&**a, preuve);
            let bb = applique_trig_speciale(&**b, preuve);
            Expr::Sub(Box::new(aa), Box::new(bb)).simplify()
        },
        Expr::Mul(a, b) => {
            let aa = applique_trig_speciale(&**a, preuve);
            let bb = applique_trig_speciale(&**b, preuve);
            Expr::Mul(Box::new(aa), Box::new(bb)).simplify()
        },
        Expr::Div(a, b) => {
            let aa = applique_trig_speciale(&**a, preuve);
            let bb = applique_trig_speciale(&**b, preuve);
            Expr::Div(Box::new(aa), Box::new(bb)).simplify()
        },
        Expr::Sqrt(x) => {
            let xx = applique_trig_speciale(&**x, preuve);
            Expr::Sqrt(Box::new(xx)).simplify()
        },
        Expr::PowInt(x, n) => {
            let xx = applique_trig_speciale(&**x, preuve);
            Expr::PowInt(Box::new(xx), *n).simplify()
        },
        Expr::Rat(_) | Expr::Pi | Expr::Indefini | Expr::Var(_) => expr.clone(),
    }
}

/// Whether the text holds nothing but white space.
fn est_tout_blanc(s: &str) -> (b: bool)
    ensures
        b == tout_blanc(s@),
{
    let texte = caracteres(s);
    let mut i: usize = 0;
    while i < texte.len()
        invariant
            i <= texte.len(),
            texte@ == s@,
            forall|j: int| 0 <= j < i ==> est_blanc(#[trigger] s@[j]),
        decreases texte.len() - i,
    {
        if !car_est_blanc(texte[i]) {
            return false;
        }
        i += 1;
    }
    true
}

/// Evaluates an expression.
///
/// Returns the exact form, the decimal reading cut to `digits` digits where
/// the result has one, and the derivation; or the message of the stage that
/// failed. The result `indéfini` and a result with a free variable have an
/// exact form and no decimal reading; neither is an error. The result is a
/// function of the text and of `digits`: see [`evaluation`].
pub fn eval_expression(expr_str: &str, digits: usize) -> (r: Result<
    (String, Option<String>, DemarcheNoyau),
    String,
>)
    ensures
        vue_evaluation(r) == evaluation(expr_str@, digits as nat),
{
    let mut cache = CachePi::new();
    eval_expression_avec_cache(expr_str, digits, &mut cache)
}

/// Evaluates an expression as [`eval_expression`] does, with π taken from
/// `cache`. The cache keeps what it held and gains at most π at `digits`; it
/// changes nothing in the result.
pub fn eval_expression_avec_cache(expr_str: &str, digits: usize, cache: &mut CachePi) -> (r: Result<
    (String, Option<String>, DemarcheNoyau),
    String,
>)
    requires
        old(cache).valide(),
    ensures
        vue_evaluation(r) == evaluation(expr_str@, digits as nat),
        final(cache).valide(),
        old(cache).connus().subset_of(final(cache).connus()),
        final(cache).connus().subset_of(old(cache).connus().insert(digits)),
{
    if est_tout_blanc(expr_str) {
        return Err(String::from_str("Entrée vide"));
    }
    let jetons = match tokenize(expr_str) {
        Ok(j) => j,
        Err(e) => {
            return Err(e);
        },
    };
    let jetons_txt = format_tokens(jetons.as_slice());
    let rpn = match to_rpn(jetons.as_slice()) {
        Ok(r) => r,
        Err(e) => {
            return Err(e);
        },
    };
    let rpn_txt = format_tokens(rpn.as_slice());
    let expr0 = match from_rpn(rpn.as_slice()) {
        Ok(e) => e,
        Err(e) => {
            return Err(e);
        },
    };
    let avant = format_expr_pretty(&expr0);
    let expr_s0 = expr0.simplify();
    let mut preuve = String::new();
    let expr_s1 = applique_trig_speciale(&expr_s0, &mut preuve);
    let expr_s = expr_s1.simplify();
    let expr_b = trig_identites(expr_s).simplify();
    let expr_c = expr_b.canon();
    let exact = format_exact_final(&expr_c);
    let decimal = if expr_c.est_indefini() || contient_var(&expr_c) {
        None
    } else {
        match eval_scaled_avec_cache(&expr_c, digits, cache) {
            Ok(scaled) => Some(scaled_to_decimal(scaled, digits)),
            Err(e) => {
                return Err(e);
            },
        }
    };
    let d = DemarcheNoyau {
        jetons: jetons_txt,
        rpn: rpn_txt,
        avant,
        apres: format_expr_pretty(&expr_c),
        note: String::from_str(
            "Pipeline: jetons → RPN → Expr → simplify → trig spéciale → re-simplify → identités trig → re-simplify → canon → EXACT → ΣLocal.",
        ),
        preuve,
    };
    Ok((exact, decimal, d))
}

} // verus!

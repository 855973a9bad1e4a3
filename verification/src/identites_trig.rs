//! Trigonometric identities: a small set of rewriting rules that always
//! hold, applied a bounded number of times.
//!
//! The rules look at the literal shape of the argument only: `0 - t`,
//! `t ± π`, `t ± 2·π`, `t ± π/2`, `π - t`. None of them makes the tree larger,
//! which [`lemme_reecrit_score`] proves.
use crate::expr::{Expr, Terme};
use crate::rationnel::{rat_de_i64, rat_egal};
use crate::trig::TrigFn;
use vstd::prelude::*;

verus! {

/// The shapes of argument that a rule knows.
#[derive(Clone, Copy, Debug)]
pub enum Forme {
    /// `0 - t`
    Oppose,
    /// `t + π`, `π + t` or `t - π`
    DecalePi,
    /// `t + 2·π`, `2·π + t` or `t - 2·π`
    DecaleDeuxPi,
    /// `t + π/2` or `π/2 + t`
    PlusPiSur2,
    /// `t - π/2`
    MoinsPiSur2,
    /// `π - t`
    PiMoins,
}

/// Whether the term is the product `2·π`, in either order.
pub open spec fn est_deux_pi(t: Terme) -> bool {
    t matches Terme::Mul(a, b) && ((*a == Terme::entier(2) && *b is Pi) || (*a is Pi && *b
        == Terme::entier(2)))
}

/// Whether the term is the quotient `π/2`.
pub open spec fn est_pi_sur_2(t: Terme) -> bool {
    t matches Terme::Div(a, b) && *a is Pi && *b == Terme::entier(2)
}

/// The shape of the argument `x` of the function `f`, and the `t` in it;
/// `None` where no rule of `f` applies. The tangent has no rule for a shift
/// by `2·π` nor for `π - t`.
pub open spec fn forme_argument(x: Terme, f: TrigFn) -> Option<(Forme, Terme)> {
    match x {
        Terme::Add(a, b) => if *b is Pi {
            Some((Forme::DecalePi, *a))
        } else if *a is Pi {
            Some((Forme::DecalePi, *b))
        } else if !(f is Tan) && est_deux_pi(*b) {
            Some((Forme::DecaleDeuxPi, *a))
        } else if !(f is Tan) && est_deux_pi(*a) {
            Some((Forme::DecaleDeuxPi, *b))
        } else if est_pi_sur_2(*b) {
            Some((Forme::PlusPiSur2, *a))
        } else if est_pi_sur_2(*a) {
            Some((Forme::PlusPiSur2, *b))
        } else {
            None
        },
        Terme::Sub(a, b) => if a.est_zero() {
            Some((Forme::Oppose, *b))
        } else if *b is Pi {
            Some((Forme::DecalePi, *a))
        } else if !(f is Tan) && est_deux_pi(*b) {
            Some((Forme::DecaleDeuxPi, *a))
        } else if est_pi_sur_2(*b) {
            Some((Forme::MoinsPiSur2, *a))
        } else if !(f is Tan) && *a is Pi {
            Some((Forme::PiMoins, *b))
        } else {
            None
        },
        _ => None,
    }
}

impl TrigFn {
    /// The node of the function over the argument `x`.
    pub open spec fn noeud(self, x: Terme) -> Terme {
        match self {
            TrigFn::Sin => Terme::Sin(Box::new(x)),
            TrigFn::Cos => Terme::Cos(Box::new(x)),
            TrigFn::Tan => Terme::Tan(Box::new(x)),
        }
    }

    /// What the function of an argument of the shape `forme` over `t` is
    /// equal to.
    pub open spec fn regle(self, forme: Forme, t: Terme) -> Terme {
        let sin = Terme::Sin(Box::new(t));
        let cos = Terme::Cos(Box::new(t));
        let tan = Terme::Tan(Box::new(t));
        match self {
            TrigFn::Sin => match forme {
                Forme::Oppose => Terme::moins(sin),
                Forme::DecalePi => Terme::moins(sin),
                Forme::DecaleDeuxPi => sin,
                Forme::PlusPiSur2 => cos,
                Forme::MoinsPiSur2 => Terme::moins(cos),
                Forme::PiMoins => sin,
            },
            TrigFn::Cos => match forme {
                Forme::Oppose => cos,
                Forme::DecalePi => Terme::moins(cos),
                Forme::DecaleDeuxPi => cos,
                Forme::PlusPiSur2 => Terme::moins(sin),
                Forme::MoinsPiSur2 => sin,
                Forme::PiMoins => Terme::moins(cos),
            },
            TrigFn::Tan => match forme {
                Forme::Oppose => Terme::moins(tan),
                Forme::DecalePi => tan,
                Forme::DecaleDeuxPi => tan,
                Forme::PlusPiSur2 | Forme::MoinsPiSur2 => Terme::Indefini,
                Forme::PiMoins => Terme::moins(tan),
            },
        }
    }

    /// The function of the argument `x`, rewritten where a rule applies.
    pub open spec fn reecrit_noeud(self, x: Terme) -> Terme {
        match forme_argument(x, self) {
            Some((forme, t)) => self.regle(forme, t),
            None => self.noeud(x),
        }
    }
}

/// Whether `a` and `b` are `sin(x)^2` and `cos(x)^2` over the same `x`.
pub open spec fn pythagore(a: Terme, b: Terme) -> bool {
    a matches Terme::PowInt(s, 2) && (b matches Terme::PowInt(c, 2) && (*s matches Terme::Sin(x1)
        && (*c matches Terme::Cos(x2) && x1 == x2)))
}

/// Whether the measure (nodes, height) of `a` is below that of `b`, nodes
/// first.
pub open spec fn score_inferieur(a: Terme, b: Terme) -> bool {
    a.taille() < b.taille() || (a.taille() == b.taille() && a.profondeur() < b.profondeur())
}

/// Whether the measure (nodes, height) of `a` is at most that of `b`.
pub open spec fn score_au_plus(a: Terme, b: Terme) -> bool {
    a.taille() < b.taille() || (a.taille() == b.taille() && a.profondeur() <= b.profondeur())
}

/// The sum of two rewritten terms: `sin(x)^2 + cos(x)^2`, in either order,
/// is one.
pub open spec fn reecrit_somme(a: Terme, b: Terme) -> Terme {
    if pythagore(a, b) || pythagore(b, a) {
        Terme::entier(1)
    } else {
        Terme::Add(Box::new(a), Box::new(b))
    }
}

/// The quotient of two rewritten terms: `sin(x) / cos(x)` is `tan(x)` where
/// that is a smaller tree.
pub open spec fn reecrit_quotient(a: Terme, b: Terme) -> Terme {
    let tel_quel = Terme::Div(Box::new(a), Box::new(b));
    if a is Sin && b is Cos && a->Sin_0 == b->Cos_0 && score_inferieur(
        Terme::Tan(a->Sin_0),
        tel_quel,
    ) {
        Terme::Tan(a->Sin_0)
    } else {
        tel_quel
    }
}

/// One pass of the rules over the whole tree, the operands before the node.
pub open spec fn reecrit(t: Terme) -> Terme
    decreases t,
{
    match t {
        Terme::Rat(_) | Terme::Pi | Terme::Indefini | Terme::Var(_) => t,
        Terme::Sin(x) => TrigFn::Sin.reecrit_noeud(reecrit(*x)),
        Terme::Cos(x) => TrigFn::Cos.reecrit_noeud(reecrit(*x)),
        Terme::Tan(x) => TrigFn::Tan.reecrit_noeud(reecrit(*x)),
        Terme::Sqrt(x) => Terme::Sqrt(Box::new(reecrit(*x))),
        Terme::PowInt(x, n) => Terme::PowInt(Box::new(reecrit(*x)), n),
        Terme::Add(a, b) => reecrit_somme(reecrit(*a), reecrit(*b)),
        Terme::Sub(a, b) => Terme::Sub(Box::new(reecrit(*a)), Box::new(reecrit(*b))),
        Terme::Mul(a, b) => Terme::Mul(Box::new(reecrit(*a)), Box::new(reecrit(*b))),
        Terme::Div(a, b) => reecrit_quotient(reecrit(*a), reecrit(*b)),
    }
}

/// At most `n` passes: a pass is kept while it changes the tree and does not
/// raise its measure; the first pass that changes nothing, or would raise the
/// measure, ends the rewriting.
pub open spec fn reecrit_borne(t: Terme, n: nat) -> Terme
    decreases n,
{
    if n == 0 {
        t
    } else {
        let suivant = reecrit(t);
        if suivant == t || !score_au_plus(suivant, t) {
            t
        } else {
            reecrit_borne(suivant, (n - 1) as nat)
        }
    }
}

/// The most passes of [`trig_identites`].
pub const PASSES_MAX: usize = 6;

/// The tree after the bounded rewriting by the identities.
pub open spec fn identites(t: Terme) -> Terme {
    reecrit_borne(t, PASSES_MAX as nat)
}

/// A rule never gives a tree of a higher measure than the node it replaces.
pub proof fn lemme_regle_score(f: TrigFn, x: Terme)
    ensures
        score_au_plus(f.reecrit_noeud(x), f.noeud(x)),
{
    reveal_with_fuel(Terme::taille, 4);
    reveal_with_fuel(Terme::profondeur, 4);
}

/// One pass never raises the measure (nodes, height) of a tree.
pub proof fn lemme_reecrit_score(t: Terme)
    ensures
        score_au_plus(reecrit(t), t),
    decreases t,
{
    reveal_with_fuel(Terme::taille, 3);
    reveal_with_fuel(Terme::profondeur, 3);
    match t {
        Terme::Rat(_) | Terme::Pi | Terme::Indefini | Terme::Var(_) => {},
        Terme::Sin(x) => {
            lemme_reecrit_score(*x);
            lemme_regle_score(TrigFn::Sin, reecrit(*x));
        },
        Terme::Cos(x) => {
            lemme_reecrit_score(*x);
            lemme_regle_score(TrigFn::Cos, reecrit(*x));
        },
        Terme::Tan(x) => {
            lemme_reecrit_score(*x);
            lemme_regle_score(TrigFn::Tan, reecrit(*x));
        },
        Terme::Sqrt(x) => {
            lemme_reecrit_score(*x);
        },
        Terme::PowInt(x, _) => {
            lemme_reecrit_score(*x);
        },
        Terme::Add(a, b) | Terme::Sub(a, b) | Terme::Mul(a, b) | Terme::Div(a, b) => {
            lemme_reecrit_score(*a);
            lemme_reecrit_score(*b);
        },
    }
}

/// Whether the expression is π itself.
fn est_pi(e: &Expr) -> (b: bool)
    ensures
        b == (e@ is Pi),
{
    match e {
        Expr::Pi => true,
        _ => false,
    }
}

/// Whether the function is the tangent.
fn est_tan(f: TrigFn) -> (b: bool)
    ensures
        b == (f is Tan),
{
    match f {
        TrigFn::Tan => true,
        _ => false,
    }
}

/// Whether the expression is the rational `i`.
fn is_rat_i(e: &Expr, i: i64) -> (b: bool)
    requires
        e@.bien_forme(),
    ensures
        b == (e@ == Terme::entier(i as int)),
{
    match e {
        Expr::Rat(r) => {
            let v = rat_de_i64(i);
            rat_egal(r, &v)
        },
        _ => false,
    }
}

/// Whether the expression is the product `2·π`, in either order.
fn is_two_pi(e: &Expr) -> (b: bool)
    requires
        e@.bien_forme(),
    ensures
        b == est_deux_pi(e@),
{
    proof {
        reveal_with_fuel(Expr::vue, 2);
        reveal_with_fuel(Terme::bien_forme, 2);
    }
    match e {
        Expr::Mul(a, b) => (is_rat_i(&**a, 2) && est_pi(&**b)) || (est_pi(&**a) && is_rat_i(
            &**b,
            2,
        )),
        _ => false,
    }
}

/// Whether the expression is the quotient `π/2`.
fn is_pi_sur_2(e: &Expr) -> (b: bool)
    requires
        e@.bien_forme(),
    ensures
        b == est_pi_sur_2(e@),
{
    proof {
        reveal_with_fuel(Expr::vue, 2);
        reveal_with_fuel(Terme::bien_forme, 2);
    }
    match e {
        Expr::Div(a, b) => est_pi(&**a) && is_rat_i(&**b, 2),
        _ => false,
    }
}

/// The node of the function `f` over `x`.
fn noeud(f: TrigFn, x: Expr) -> (r: Expr)
    ensures
        r@ == f.noeud(x@),
        x@.bien_forme() ==> r@.bien_forme(),
{
    match f {
        TrigFn::Sin => Expr::Sin(Box::new(x)),
        TrigFn::Cos => Expr::Cos(Box::new(x)),
        TrigFn::Tan => Expr::Tan(Box::new(x)),
    }
}

/// What the function `f` of an argument of the shape `forme` over `t` is
/// equal to; see [`TrigFn::regle`].
fn regle(f: TrigFn, forme: Forme, t: Expr) -> (r: Expr)
    requires
        t@.bien_forme(),
    ensures
        r@ == f.regle(forme, t@),
        r@.bien_forme(),
{
    proof {
        reveal_with_fuel(Expr::vue, 3);
        reveal_with_fuel(Terme::bien_forme, 3);
    }
    match f {
        TrigFn::Sin => match forme {
            Forme::Oppose | Forme::DecalePi => Expr::moins(Expr::Sin(Box::new(t))),
            Forme::DecaleDeuxPi | Forme::PiMoins => Expr::Sin(Box::new(t)),
            Forme::PlusPiSur2 => Expr::Cos(Box::new(t)),
            Forme::MoinsPiSur2 => Expr::moins(Expr::Cos(Box::new(t))),
        },
        TrigFn::Cos => match forme {
            Forme::Oppose | Forme::DecaleDeuxPi => Expr::Cos(Box::new(t)),
            Forme::DecalePi | Forme::PiMoins => Expr::moins(Expr::Cos(Box::new(t))),
            Forme::PlusPiSur2 => Expr::moins(Expr::Sin(Box::new(t))),
            Forme::MoinsPiSur2 => Expr::Sin(Box::new(t)),
        },
        TrigFn::Tan => match forme {
            Forme::Oppose | Forme::PiMoins => Expr::moins(Expr::Tan(Box::new(t))),
            Forme::DecalePi | Forme::DecaleDeuxPi => Expr::Tan(Box::new(t)),
            Forme::PlusPiSur2 | Forme::MoinsPiSur2 => Expr::Indefini,
        },
    }
}

/// The function `f` of the argument `x`, rewritten where a rule applies.
fn reecrit_noeud(f: TrigFn, x: Expr) -> (r: Expr)
    requires
        x@.bien_forme(),
    ensures
        r@ == f.reecrit_noeud(x@),
        r@.bien_forme(),
{
    match x {
        Expr::Add(a, b) => {
            if est_pi(&*b) {
                regle(f, Forme::DecalePi, *a)
            } else if est_pi(&*a) {
                regle(f, Forme::DecalePi, *b)
            } else if !est_tan(f) && is_two_pi(&*b) {
                regle(f, Forme::DecaleDeuxPi, *a)
            } else if !est_tan(f) && is_two_pi(&*a) {
                regle(f, Forme::DecaleDeuxPi, *b)
            } else if is_pi_sur_2(&*b) {
                regle(f, Forme::PlusPiSur2, *a)
            } else if is_pi_sur_2(&*a) {
                regle(f, Forme::PlusPiSur2, *b)
            } else {
                noeud(f, Expr::Add(a, b))
            }
        },
        Expr::Sub(a, b) => {
            if (*a).est_zero() {
                regle(f, Forme::Oppose, *b)
            } else if est_pi(&*b) {
                regle(f, Forme::DecalePi, *a)
            } else if !est_tan(f) && is_two_pi(&*b) {
                regle(f, Forme::DecaleDeuxPi, *a)
            } else if is_pi_sur_2(&*b) {
                regle(f, Forme::MoinsPiSur2, *a)
            } else if !est_tan(f) && est_pi(&*a) {
                regle(f, Forme::PiMoins, *b)
            } else {
                noeud(f, Expr::Sub(a, b))
            }
        },
        autre => noeud(f, autre),
    }
}

/// Whether `a` and `b` are `sin(x)^2` and `cos(x)^2` over the same `x`.
fn est_pythagore(a: &Expr, b: &Expr) -> (r: bool)
    requires
        a@.bien_forme(),
        b@.bien_forme(),
    ensures
        r == pythagore(a@, b@),
{
    proof {
        reveal_with_fuel(Expr::vue, 3);
        reveal_with_fuel(Terme::bien_forme, 3);
    }
    if let Expr::PowInt(s, n) = a {
        if let Expr::PowInt(c, m) = b {
            if *n == 2 && *m == 2 {
                if let Expr::Sin(x1) = &**s {
                    if let Expr::Cos(x2) = &**c {
                        return (**x1).egal(&**x2);
                    }
                }
            }
        }
    }
    false
}

/// The quotient of two rewritten expressions; see [`reecrit_quotient`].
fn reecrit_quotient_exec(a: Expr, b: Expr) -> (r: Expr)
    requires
        a@.bien_forme(),
        b@.bien_forme(),
    ensures
        r@ == reecrit_quotient(a@, b@),
        r@.bien_forme(),
{
    proof {
        reveal_with_fuel(Expr::vue, 3);
        reveal_with_fuel(Terme::bien_forme, 3);
        reveal_with_fuel(Terme::taille, 3);
    }
    if let Expr::Sin(x1) = &a {
        if let Expr::Cos(x2) = &b {
            if (**x1).egal(&**x2) {
                return Expr::Tan(Box::new((**x1).clone()));
            }
        }
    }
    Expr::Div(Box::new(a), Box::new(b))
}

/// One pass of the rules over the whole tree.
fn rewrite_once(e: Expr) -> (r: Expr)
    requires
        e@.bien_forme(),
    ensures
        r@ == reecrit(e@),
        r@.bien_forme(),
    decreases e,
{
    match e {
        Expr::Rat(_) | Expr::Pi | Expr::Indefini | Expr::Var(_) => e,
        Expr::Sin(x) => reecrit_noeud(TrigFn::Sin, rewrite_once(*x)),
        Expr::Cos(x) => reecrit_noeud(TrigFn::Cos, rewrite_once(*x)),
        Expr::Tan(x) => reecrit_noeud(TrigFn::Tan, rewrite_once(*x)),
        Expr::Sqrt(x) => Expr::Sqrt(Box::new(rewrite_once(*x))),
        Expr::PowInt(x, n) => Expr::PowInt(Box::new(rewrite_once(*x)), n),
        Expr::Add(a, b) => {
            let a = rewrite_once(*a);
            let b = rewrite_once(*b);
            if est_pythagore(&a, &b) || est_pythagore(&b, &a) {
                Expr::entier(1)
            } else {
                Expr::Add(Box::new(a), Box::new(b))
            }
        },
        Expr::Sub(a, b) => Expr::Sub(Box::new(rewrite_once(*a)), Box::new(rewrite_once(*b))),
        Expr::Mul(a, b) => Expr::Mul(Box::new(rewrite_once(*a)), Box::new(rewrite_once(*b))),
        Expr::Div(a, b) => reecrit_quotient_exec(rewrite_once(*a), rewrite_once(*b)),
    }
}

/// Rewrites the tree by the identities, at most [`PASSES_MAX`] times over.
///
/// The rules: parity (`sin(0-t)`, `cos(0-t)`, `tan(0-t)`); shift by `π`; shift
/// by `2·π` for sine and cosine; shift by `π/2`, which for the tangent is
/// `Indefini`; reflection `π - t` for sine and cosine; `sin(x)^2 + cos(x)^2`
/// is one; `sin(x)/cos(x)` is `tan(x)`. The rewriting stops at the first pass
/// that changes nothing. No pass raises the measure (nodes, height) of the
/// tree, so none is ever turned down for it.
pub fn trig_identites(e: Expr) -> (r: Expr)
    requires
        e@.bien_forme(),
    ensures
        r@ == identites(e@),
        r@.bien_forme(),
{
    let mut cur = e;
    let mut i: usize = 0;
    while i < PASSES_MAX
        invariant
            i <= PASSES_MAX,
            cur@.bien_forme(),
            reecrit_borne(cur@, (PASSES_MAX - i) as nat) == identites(e@),
        decreases PASSES_MAX - i,
    {
        let next = rewrite_once(cur.clone());
        proof {
            lemme_reecrit_score(cur@);
        }
        if next.egal(&cur) {
            return cur;
        }
        cur = next;
        i += 1;
    }
    cur
}

} // verus!

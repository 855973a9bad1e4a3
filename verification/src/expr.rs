//! The expression tree and its local simplification.
//!
//! An [`Expr`] is an exact expression: rationals, π, variables, square roots,
//! integer powers, the three trigonometric functions and the four operations.
//! Its mathematical model is a [`Terme`], the same tree over [`Frac`] and
//! `Seq<char>`. Every contract of the kernel is stated over that model.
use crate::rationnel::{
    frac, frac_opt, lemme_oppose, rat_copie, rat_de_i64, rat_difference, rat_egal,
    rat_est_entier, rat_est_negatif, rat_est_positif, rat_est_un, rat_est_zero, rat_oppose,
    rat_produit, rat_quotient, rat_somme, rational_pow_int, rational_sqrt_exact, Frac,
};
use num_rational::BigRational;
use vstd::prelude::*;

verus! {

/// An exact expression.
#[derive(Debug, PartialEq, Eq)]
pub enum Expr {
    Rat(BigRational),
    Pi,
    /// The result that is not defined, such as tan(π/2).
    Indefini,
    Var(String),
    Sqrt(Box<Expr>),
    PowInt(Box<Expr>, i64),
    Sin(Box<Expr>),
    Cos(Box<Expr>),
    Tan(Box<Expr>),
    Add(Box<Expr>, Box<Expr>),
    Sub(Box<Expr>, Box<Expr>),
    Mul(Box<Expr>, Box<Expr>),
    Div(Box<Expr>, Box<Expr>),
}

/// The mathematical model of an [`Expr`].
pub enum Terme {
    Rat(Frac),
    Pi,
    Indefini,
    Var(Seq<char>),
    Sqrt(Box<Terme>),
    PowInt(Box<Terme>, i64),
    Sin(Box<Terme>),
    Cos(Box<Terme>),
    Tan(Box<Terme>),
    Add(Box<Terme>, Box<Terme>),
    Sub(Box<Terme>, Box<Terme>),
    Mul(Box<Terme>, Box<Terme>),
    Div(Box<Terme>, Box<Terme>),
}

impl Expr {
    /// The model of the expression.
    pub open spec fn vue(&self) -> Terme
        decreases self,
    {
        match self {
            Expr::Rat(r) => Terme::Rat(frac(*r)),
            Expr::Pi => Terme::Pi,
            Expr::Indefini => Terme::Indefini,
            Expr::Var(s) => Terme::Var(s@),
            Expr::Sqrt(x) => Terme::Sqrt(Box::new((**x).vue())),
            Expr::PowInt(x, n) => Terme::PowInt(Box::new((**x).vue()), *n),
            Expr::Sin(x) => Terme::Sin(Box::new((**x).vue())),
            Expr::Cos(x) => Terme::Cos(Box::new((**x).vue())),
            Expr::Tan(x) => Terme::Tan(Box::new((**x).vue())),
            Expr::Add(a, b) => Terme::Add(Box::new((**a).vue()), Box::new((**b).vue())),
            Expr::Sub(a, b) => Terme::Sub(Box::new((**a).vue()), Box::new((**b).vue())),
            Expr::Mul(a, b) => Terme::Mul(Box::new((**a).vue()), Box::new((**b).vue())),
            Expr::Div(a, b) => Terme::Div(Box::new((**a).vue()), Box::new((**b).vue())),
        }
    }
}

impl View for Expr {
    type V = Terme;

    open spec fn view(&self) -> Terme {
        self.vue()
    }
}

impl Terme {
    /// Every rational of the tree is in lowest terms with a positive
    /// denominator.
    pub open spec fn bien_forme(self) -> bool
        decreases self,
    {
        match self {
            Terme::Rat(f) => f.bien_forme(),
            Terme::Pi | Terme::Indefini | Terme::Var(_) => true,
            Terme::Sqrt(x) | Terme::Sin(x) | Terme::Cos(x) | Terme::Tan(x) => x.bien_forme(),
            Terme::PowInt(x, _) => x.bien_forme(),
            Terme::Add(a, b) | Terme::Sub(a, b) | Terme::Mul(a, b) | Terme::Div(a, b) => {
                a.bien_forme() && b.bien_forme()
            },
        }
    }

    /// The number of nodes.
    pub open spec fn taille(self) -> nat
        decreases self,
    {
        match self {
            Terme::Rat(_) | Terme::Pi | Terme::Indefini | Terme::Var(_) => 1,
            Terme::Sqrt(x) | Terme::Sin(x) | Terme::Cos(x) | Terme::Tan(x) => 1 + x.taille(),
            Terme::PowInt(x, _) => 1 + x.taille(),
            Terme::Add(a, b) | Terme::Sub(a, b) | Terme::Mul(a, b) | Terme::Div(a, b) => {
                1 + a.taille() + b.taille()
            },
        }
    }

    /// The height: one for a leaf.
    pub open spec fn profondeur(self) -> nat
        decreases self,
    {
        match self {
            Terme::Rat(_) | Terme::Pi | Terme::Indefini | Terme::Var(_) => 1,
            Terme::Sqrt(x) | Terme::Sin(x) | Terme::Cos(x) | Terme::Tan(x) => 1 + x.profondeur(),
            Terme::PowInt(x, _) => 1 + x.profondeur(),
            Terme::Add(a, b) | Terme::Sub(a, b) | Terme::Mul(a, b) | Terme::Div(a, b) => {
                if a.profondeur() >= b.profondeur() {
                    1 + a.profondeur()
                } else {
                    1 + b.profondeur()
                }
            },
        }
    }

    /// Whether an `Indefini` node stands anywhere in the tree.
    pub open spec fn contient_indefini(self) -> bool
        decreases self,
    {
        match self {
            Terme::Indefini => true,
            Terme::Rat(_) | Terme::Pi | Terme::Var(_) => false,
            Terme::Sqrt(x) | Terme::Sin(x) | Terme::Cos(x) | Terme::Tan(x) => x.contient_indefini(),
            Terme::PowInt(x, _) => x.contient_indefini(),
            Terme::Add(a, b) | Terme::Sub(a, b) | Terme::Mul(a, b) | Terme::Div(a, b) => {
                a.contient_indefini() || b.contient_indefini()
            },
        }
    }

    /// Whether a variable stands anywhere in the tree.
    pub open spec fn contient_variable(self) -> bool
        decreases self,
    {
        match self {
            Terme::Var(_) => true,
            Terme::Rat(_) | Terme::Pi | Terme::Indefini => false,
            Terme::Sqrt(x) | Terme::Sin(x) | Terme::Cos(x) | Terme::Tan(x) => x.contient_variable(),
            Terme::PowInt(x, _) => x.contient_variable(),
            Terme::Add(a, b) | Terme::Sub(a, b) | Terme::Mul(a, b) | Terme::Div(a, b) => {
                a.contient_variable() || b.contient_variable()
            },
        }
    }

    /// The rational `n / 1`.
    pub open spec fn entier(n: int) -> Terme {
        Terme::Rat(Frac::entier(n))
    }

    /// Whether the term is the rational zero.
    pub open spec fn est_zero(self) -> bool {
        self matches Terme::Rat(f) && f.est_zero()
    }

    /// Whether the term is the rational one.
    pub open spec fn est_un(self) -> bool {
        self matches Terme::Rat(f) && f.est_un()
    }

    /// `0 - t`.
    pub open spec fn moins(t: Terme) -> Terme {
        Terme::Sub(Box::new(Terme::entier(0)), Box::new(t))
    }
}

impl Clone for Expr {
    /// A copy of the tree.
    fn clone(&self) -> (r: Self)
        ensures
            r@ == self@,
        decreases self,
    {
        match self {
            Expr::Rat(q) => Expr::Rat(rat_copie(q)),
            Expr::Pi => Expr::Pi,
            Expr::Indefini => Expr::Indefini,
            Expr::Var(s) => Expr::Var(s.clone()),
            Expr::Sqrt(x) => Expr::Sqrt(Box::new((**x).clone())),
            Expr::PowInt(x, n) => Expr::PowInt(Box::new((**x).clone()), *n),
            Expr::Sin(x) => Expr::Sin(Box::new((**x).clone())),
            Expr::Cos(x) => Expr::Cos(Box::new((**x).clone())),
            Expr::Tan(x) => Expr::Tan(Box::new((**x).clone())),
            Expr::Add(a, b) => Expr::Add(Box::new((**a).clone()), Box::new((**b).clone())),
            Expr::Sub(a, b) => Expr::Sub(Box::new((**a).clone()), Box::new((**b).clone())),
            Expr::Mul(a, b) => Expr::Mul(Box::new((**a).clone()), Box::new((**b).clone())),
            Expr::Div(a, b) => Expr::Div(Box::new((**a).clone()), Box::new((**b).clone())),
        }
    }
}

impl Expr {
    /// The rational `n / 1`.
    pub fn entier(n: i64) -> (r: Expr)
        ensures
            r@ == Terme::entier(n as int),
            r@.bien_forme(),
    {
        Expr::Rat(rat_de_i64(n))
    }

    /// `0 - e`.
    pub fn moins(e: Expr) -> (r: Expr)
        ensures
            r@ == Terme::moins(e@),
            e@.bien_forme() ==> r@.bien_forme(),
    {
        Expr::Sub(Box::new(Expr::entier(0)), Box::new(e))
    }

    /// Whether the expression is `Indefini` itself.
    pub fn est_indefini(&self) -> (b: bool)
        ensures
            b == (self@ is Indefini),
    {
        match self {
            Expr::Indefini => true,
            _ => false,
        }
    }

    /// Whether the expression is the rational zero.
    pub fn est_zero(&self) -> (b: bool)
        ensures
            b == self@.est_zero(),
    {
        match self {
            Expr::Rat(r) => rat_est_zero(r),
            _ => false,
        }
    }

    /// Whether the expression is the rational one.
    pub fn est_un(&self) -> (b: bool)
        requires
            self@.bien_forme(),
        ensures
            b == self@.est_un(),
    {
        match self {
            Expr::Rat(r) => rat_est_un(r),
            _ => false,
        }
    }

    /// Structural equality: the two trees have the same shape and the same
    /// leaves.
    pub fn egal(&self, autre: &Expr) -> (b: bool)
        requires
            self@.bien_forme(),
            autre@.bien_forme(),
        ensures
            b == (self@ == autre@),
        decreases self,
    {
        match (self, autre) {
            (Expr::Rat(x), Expr::Rat(y)) => rat_egal(x, y),
            (Expr::Pi, Expr::Pi) => true,
            (Expr::Indefini, Expr::Indefini) => true,
            (Expr::Var(s), Expr::Var(t)) => {
                let b = *s == *t;
                proof {
                    if s@ == t@ {
                        assert(Terme::Var(s@) == Terme::Var(t@));
                    }
                }
                b
            },
            (Expr::Sqrt(x), Expr::Sqrt(y)) => (**x).egal(&**y),
            (Expr::PowInt(x, n), Expr::PowInt(y, m)) => *n == *m && (**x).egal(&**y),
            (Expr::Sin(x), Expr::Sin(y)) => (**x).egal(&**y),
            (Expr::Cos(x), Expr::Cos(y)) => (**x).egal(&**y),
            (Expr::Tan(x), Expr::Tan(y)) => (**x).egal(&**y),
            (Expr::Add(a, b), Expr::Add(c, d)) => (**a).egal(&**c) && (**b).egal(&**d),
            (Expr::Sub(a, b), Expr::Sub(c, d)) => (**a).egal(&**c) && (**b).egal(&**d),
            (Expr::Mul(a, b), Expr::Mul(c, d)) => (**a).egal(&**c) && (**b).egal(&**d),
            (Expr::Div(a, b), Expr::Div(c, d)) => (**a).egal(&**c) && (**b).egal(&**d),
            _ => false,
        }
    }
}

/// The square root of an argument that is already simplified: `Indefini`
/// is absorbed, a rational with an exact root collapses.
pub open spec fn simp_sqrt(x: Terme) -> Terme {
    match x {
        Terme::Indefini => Terme::Indefini,
        Terme::Rat(f) => match f.racine_exacte() {
            Some(s) => Terme::Rat(s),
            None => Terme::Sqrt(Box::new(x)),
        },
        _ => Terme::Sqrt(Box::new(x)),
    }
}

/// The integer power of a base that is already simplified. The power of the
/// rational zero to a negative exponent has no value and is left as it is.
pub open spec fn simp_pow(base: Terme, n: i64) -> Terme {
    match base {
        Terme::Indefini => Terme::Indefini,
        _ => if n == 0 {
            Terme::entier(1)
        } else {
            match base {
                Terme::Rat(f) => if n < 0 && f.est_zero() {
                    Terme::PowInt(Box::new(base), n)
                } else {
                    Terme::Rat(f.puissance(n as int))
                },
                _ => Terme::PowInt(Box::new(base), n),
            }
        },
    }
}

/// The sum of two simplified terms.
pub open spec fn simp_add(a: Terme, b: Terme) -> Terme {
    match (a, b) {
        (Terme::Indefini, _) | (_, Terme::Indefini) => Terme::Indefini,
        (Terme::Rat(x), Terme::Rat(y)) => Terme::Rat(x.plus(y)),
        _ => if a.est_zero() {
            b
        } else if b.est_zero() {
            a
        } else {
            Terme::Add(Box::new(a), Box::new(b))
        },
    }
}

/// The difference of two simplified terms. `Indefini` is absorbed before
/// anything else; then `a - a` is zero.
pub open spec fn simp_sub(a: Terme, b: Terme) -> Terme {
    match (a, b) {
        (Terme::Indefini, _) | (_, Terme::Indefini) => Terme::Indefini,
        _ => if a == b {
            Terme::entier(0)
        } else {
            match (a, b) {
                (Terme::Rat(x), Terme::Rat(y)) => Terme::Rat(x.moins(y)),
                _ => if b.est_zero() {
                    a
                } else if a.est_zero() {
                    Terme::moins(b)
                } else {
                    Terme::Sub(Box::new(a), Box::new(b))
                },
            }
        },
    }
}

/// The quotient of a simplified term by a rational. A zero divisor is kept
/// as a symbolic division.
pub open spec fn simp_div_rat(a: Terme, k: Frac) -> Terme {
    match a {
        Terme::Indefini => Terme::Indefini,
        _ => if k.est_zero() {
            Terme::Div(Box::new(a), Box::new(Terme::Rat(k)))
        } else {
            match a {
                Terme::Rat(x) => Terme::Rat(x.sur(k)),
                _ => if k.est_un() {
                    a
                } else {
                    Terme::Div(Box::new(a), Box::new(Terme::Rat(k)))
                },
            }
        },
    }
}

/// Whether the term is `√x / k` with a rational `k`.
pub open spec fn est_racine_sur_rat(t: Terme) -> bool {
    t matches Terme::Div(p, q) && *p is Sqrt && *q is Rat
}

/// The argument `x` of `√x / k`.
pub open spec fn radicande(t: Terme) -> Terme
    recommends
        est_racine_sur_rat(t),
{
    *t->Div_0->Sqrt_0
}

/// The divisor `k` of `√x / k`.
pub open spec fn diviseur(t: Terme) -> Frac
    recommends
        est_racine_sur_rat(t),
{
    t->Div_1->Rat_0
}

/// Whether the term is the square root of a rational that is not negative.
pub open spec fn est_racine_rat_positif_ou_nul(t: Terme) -> bool {
    t matches Terme::Sqrt(x) && (*x matches Terme::Rat(f) && !f.est_negatif())
}

/// Whether the term is the square root of a rational above zero.
pub open spec fn est_racine_rat_positif(t: Terme) -> bool {
    t matches Terme::Sqrt(x) && (*x matches Terme::Rat(f) && f.est_positif())
}

/// The last rules of a product: folding of two rationals, zero, one.
pub open spec fn simp_mul_base(a: Terme, b: Terme) -> Terme {
    match (a, b) {
        (Terme::Rat(x), Terme::Rat(y)) => Terme::Rat(x.fois(y)),
        _ => if a.est_zero() || b.est_zero() {
            Terme::entier(0)
        } else if a.est_un() {
            b
        } else if b.est_un() {
            a
        } else {
            Terme::Mul(Box::new(a), Box::new(b))
        },
    }
}

/// The product of two simplified terms.
pub open spec fn simp_mul(a: Terme, b: Terme) -> Terme {
    if a is Indefini || b is Indefini {
        Terme::Indefini
    } else if a is Sqrt && b is Sqrt && a == b {
        *a->Sqrt_0
    } else if est_racine_rat_positif_ou_nul(a) && est_racine_rat_positif_ou_nul(b) {
        simp_sqrt(Terme::Rat(a->Sqrt_0->Rat_0.fois(b->Sqrt_0->Rat_0)))
    } else if est_racine_sur_rat(a) && b is Sqrt && radicande(a) == *b->Sqrt_0 {
        simp_div_rat(radicande(a), diviseur(a))
    } else if a is Sqrt && est_racine_sur_rat(b) && radicande(b) == *a->Sqrt_0 {
        simp_div_rat(radicande(b), diviseur(b))
    } else if est_racine_sur_rat(a) && est_racine_sur_rat(b) && radicande(a) == radicande(b) {
        simp_div_rat(radicande(a), diviseur(a).fois(diviseur(b)))
    } else {
        simp_mul_base(a, b)
    }
}

/// Whether the term is the square root of a positive integer.
pub open spec fn est_racine_entier_positif(t: Terme) -> bool {
    t matches Terme::Sqrt(x) && (*x matches Terme::Rat(f) && f.est_positif() && f.est_entier())
}

/// The quotient of two simplified terms.
pub open spec fn simp_div(a: Terme, b: Terme) -> Terme {
    if a is Indefini || b is Indefini {
        Terme::Indefini
    } else if b is Rat {
        simp_div_rat(a, b->Rat_0)
    } else if a is Sqrt && a == b && (*a->Sqrt_0 matches Terme::Rat(f) && !f.est_zero()) {
        Terme::entier(1)
    } else if est_racine_rat_positif(a) && est_racine_rat_positif(b) {
        simp_sqrt(Terme::Rat(a->Sqrt_0->Rat_0.sur(b->Sqrt_0->Rat_0)))
    } else if a is Rat && est_racine_entier_positif(b) {
        simp_mul_base(Terme::Rat(a->Rat_0.sur(b->Sqrt_0->Rat_0)), b)
    } else {
        Terme::Div(Box::new(a), Box::new(b))
    }
}

/// A trigonometric node over a simplified argument: `Indefini` is absorbed.
pub open spec fn simp_fonction(x: Terme, f: Terme) -> Terme {
    if x is Indefini {
        Terme::Indefini
    } else {
        f
    }
}

/// Local simplification: one traversal from the leaves up, each node
/// rewritten by the rule of its kind over its simplified children.
pub open spec fn simplifie(t: Terme) -> Terme
    decreases t,
{
    match t {
        Terme::Rat(_) | Terme::Pi | Terme::Indefini | Terme::Var(_) => t,
        Terme::Add(a, b) => simp_add(simplifie(*a), simplifie(*b)),
        Terme::Sub(a, b) => simp_sub(simplifie(*a), simplifie(*b)),
        Terme::Mul(a, b) => simp_mul(simplifie(*a), simplifie(*b)),
        Terme::Div(a, b) => simp_div(simplifie(*a), simplifie(*b)),
        Terme::PowInt(x, n) => simp_pow(simplifie(*x), n),
        Terme::Sqrt(x) => simp_sqrt(simplifie(*x)),
        Terme::Sin(x) => simp_fonction(simplifie(*x), Terme::Sin(Box::new(simplifie(*x)))),
        Terme::Cos(x) => simp_fonction(simplifie(*x), Terme::Cos(Box::new(simplifie(*x)))),
        Terme::Tan(x) => simp_fonction(simplifie(*x), Terme::Tan(Box::new(simplifie(*x)))),
    }
}

/// Absorption: a tree that holds `Indefini` anywhere simplifies to
/// `Indefini`.
pub proof fn lemme_absorption(t: Terme)
    requires
        t.contient_indefini(),
    ensures
        simplifie(t) is Indefini,
    decreases t,
{
    match t {
        Terme::Rat(_) | Terme::Pi | Terme::Indefini | Terme::Var(_) => {},
        Terme::Sqrt(x) | Terme::Sin(x) | Terme::Cos(x) | Terme::Tan(x) => {
            lemme_absorption(*x);
        },
        Terme::PowInt(x, _) => {
            lemme_absorption(*x);
        },
        Terme::Add(a, b) | Terme::Sub(a, b) | Terme::Mul(a, b) | Terme::Div(a, b) => {
            if a.contient_indefini() {
                lemme_absorption(*a);
            }
            if b.contient_indefini() {
                lemme_absorption(*b);
            }
        },
    }
}

/// A simplified tree is `Indefini` itself or holds no `Indefini` at all.
pub proof fn lemme_simplifie_indefini(t: Terme)
    ensures
        simplifie(t) is Indefini || !simplifie(t).contient_indefini(),
    decreases t,
{
    reveal_with_fuel(Terme::contient_indefini, 4);
    match t {
        Terme::Rat(_) | Terme::Pi | Terme::Indefini | Terme::Var(_) => {},
        Terme::Sqrt(x) | Terme::Sin(x) | Terme::Cos(x) | Terme::Tan(x) => {
            lemme_simplifie_indefini(*x);
        },
        Terme::PowInt(x, _) => {
            lemme_simplifie_indefini(*x);
        },
        Terme::Add(a, b) | Terme::Sub(a, b) | Terme::Mul(a, b) | Terme::Div(a, b) => {
            lemme_simplifie_indefini(*a);
            lemme_simplifie_indefini(*b);
        },
    }
}

/// Simplification never makes a tree larger.
pub proof fn lemme_simplifie_taille(t: Terme)
    ensures
        simplifie(t).taille() <= t.taille(),
    decreases t,
{
    reveal_with_fuel(Terme::taille, 4);
    match t {
        Terme::Rat(_) | Terme::Pi | Terme::Indefini | Terme::Var(_) => {},
        Terme::Sqrt(x) | Terme::Sin(x) | Terme::Cos(x) | Terme::Tan(x) => {
            lemme_simplifie_taille(*x);
        },
        Terme::PowInt(x, _) => {
            lemme_simplifie_taille(*x);
        },
        Terme::Add(a, b) | Terme::Sub(a, b) | Terme::Mul(a, b) | Terme::Div(a, b) => {
            lemme_simplifie_taille(*a);
            lemme_simplifie_taille(*b);
        },
    }
}

/// Whether simplification leaves the term as it is.
pub open spec fn est_simplifie(t: Terme) -> bool {
    simplifie(t) == t
}

/// The operand of a simplified node with one operand is simplified.
proof fn lemme_operande_simplifie(t: Terme)
    requires
        est_simplifie(t),
    ensures
        t matches Terme::Sqrt(x) ==> est_simplifie(*x),
        t matches Terme::Div(a, b) ==> (*a matches Terme::Sqrt(x) ==> (*b is Rat ==> est_simplifie(
            *x,
        ))),
{
    reveal_with_fuel(simplifie, 3);
}

/// The square root of a simplified term is simplified.
proof fn lemme_simp_sqrt_fixe(x: Terme)
    requires
        est_simplifie(x),
    ensures
        est_simplifie(simp_sqrt(x)),
{
}

/// The power of a simplified term is simplified.
proof fn lemme_simp_pow_fixe(x: Terme, n: i64)
    requires
        est_simplifie(x),
    ensures
        est_simplifie(simp_pow(x, n)),
{
}

/// The sum of two simplified terms is simplified.
proof fn lemme_simp_add_fixe(a: Terme, b: Terme)
    requires
        est_simplifie(a),
        est_simplifie(b),
    ensures
        est_simplifie(simp_add(a, b)),
{
}

/// The difference of two simplified terms is simplified.
proof fn lemme_simp_sub_fixe(a: Terme, b: Terme)
    requires
        est_simplifie(a),
        est_simplifie(b),
    ensures
        est_simplifie(simp_sub(a, b)),
{
    reveal_with_fuel(simplifie, 2);
}

/// The quotient of a simplified term by a rational is simplified.
proof fn lemme_simp_div_rat_fixe(a: Terme, k: Frac)
    requires
        est_simplifie(a),
    ensures
        est_simplifie(simp_div_rat(a, k)),
{
    reveal_with_fuel(simplifie, 2);
}

/// The product of two simplified terms to which no rule of square roots
/// applies is simplified.
proof fn lemme_simp_mul_base_fixe(a: Terme, b: Terme)
    requires
        est_simplifie(a),
        est_simplifie(b),
        simp_mul(a, b) == simp_mul_base(a, b),
    ensures
        est_simplifie(simp_mul_base(a, b)),
{
}

/// The product of two simplified terms is simplified.
proof fn lemme_simp_mul_fixe(a: Terme, b: Terme)
    requires
        est_simplifie(a),
        est_simplifie(b),
    ensures
        est_simplifie(simp_mul(a, b)),
{
    lemme_operande_simplifie(a);
    lemme_operande_simplifie(b);
    if a is Indefini || b is Indefini {
    } else if a is Sqrt && b is Sqrt && a == b {
    } else if est_racine_rat_positif_ou_nul(a) && est_racine_rat_positif_ou_nul(b) {
        lemme_simp_sqrt_fixe(Terme::Rat(a->Sqrt_0->Rat_0.fois(b->Sqrt_0->Rat_0)));
    } else if est_racine_sur_rat(a) && b is Sqrt && radicande(a) == *b->Sqrt_0 {
        lemme_simp_div_rat_fixe(radicande(a), diviseur(a));
    } else if a is Sqrt && est_racine_sur_rat(b) && radicande(b) == *a->Sqrt_0 {
        lemme_simp_div_rat_fixe(radicande(b), diviseur(b));
    } else if est_racine_sur_rat(a) && est_racine_sur_rat(b) && radicande(a) == radicande(b) {
        lemme_simp_div_rat_fixe(radicande(a), diviseur(a).fois(diviseur(b)));
    } else {
        lemme_simp_mul_base_fixe(a, b);
    }
}

/// The quotient of two simplified terms is simplified.
proof fn lemme_simp_div_fixe(a: Terme, b: Terme)
    requires
        est_simplifie(a),
        est_simplifie(b),
    ensures
        est_simplifie(simp_div(a, b)),
{
    if a is Indefini || b is Indefini {
    } else if b is Rat {
        lemme_simp_div_rat_fixe(a, b->Rat_0);
    } else if a is Sqrt && a == b && (*a->Sqrt_0 matches Terme::Rat(f) && !f.est_zero()) {
    } else if est_racine_rat_positif(a) && est_racine_rat_positif(b) {
        lemme_simp_sqrt_fixe(Terme::Rat(a->Sqrt_0->Rat_0.sur(b->Sqrt_0->Rat_0)));
    } else if a is Rat && est_racine_entier_positif(b) {
        let c = Terme::Rat(a->Rat_0.sur(b->Sqrt_0->Rat_0));
        assert(simp_mul(c, b) == simp_mul_base(c, b));
        lemme_simp_mul_base_fixe(c, b);
    }
}

/// Simplifying twice is simplifying once.
pub proof fn lemme_simplifie_idempotent(t: Terme)
    ensures
        est_simplifie(simplifie(t)),
    decreases t,
{
    match t {
        Terme::Rat(_) | Terme::Pi | Terme::Indefini | Terme::Var(_) => {},
        Terme::Sqrt(x) => {
            lemme_simplifie_idempotent(*x);
            lemme_simp_sqrt_fixe(simplifie(*x));
        },
        Terme::Sin(x) | Terme::Cos(x) | Terme::Tan(x) => {
            lemme_simplifie_idempotent(*x);
        },
        Terme::PowInt(x, n) => {
            lemme_simplifie_idempotent(*x);
            lemme_simp_pow_fixe(simplifie(*x), n);
        },
        Terme::Add(a, b) => {
            lemme_simplifie_idempotent(*a);
            lemme_simplifie_idempotent(*b);
            lemme_simp_add_fixe(simplifie(*a), simplifie(*b));
        },
        Terme::Sub(a, b) => {
            lemme_simplifie_idempotent(*a);
            lemme_simplifie_idempotent(*b);
            lemme_simp_sub_fixe(simplifie(*a), simplifie(*b));
        },
        Terme::Mul(a, b) => {
            lemme_simplifie_idempotent(*a);
            lemme_simplifie_idempotent(*b);
            lemme_simp_mul_fixe(simplifie(*a), simplifie(*b));
        },
        Terme::Div(a, b) => {
            lemme_simplifie_idempotent(*a);
            lemme_simplifie_idempotent(*b);
            lemme_simp_div_fixe(simplifie(*a), simplifie(*b));
        },
    }
}

/// The square root of a simplified argument; see [`simp_sqrt`].
fn noeud_sqrt(x: Expr) -> (r: Expr)
    requires
        x@.bien_forme(),
    ensures
        r@ == simp_sqrt(x@),
        r@.bien_forme(),
        r@.taille() <= 1 + x@.taille(),
{
    proof {
        reveal_with_fuel(Expr::vue, 4);
        reveal_with_fuel(Terme::bien_forme, 4);
        reveal_with_fuel(Terme::taille, 4);
    }
    match &x {
        Expr::Indefini => Expr::Indefini,
        Expr::Rat(q) => match rational_sqrt_exact(q) {
            Some(s) => Expr::Rat(s),
            None => Expr::Sqrt(Box::new(x)),
        },
        _ => Expr::Sqrt(Box::new(x)),
    }
}

/// The integer power of a simplified base; see [`simp_pow`].
fn noeud_pow(base: Expr, n: i64) -> (r: Expr)
    requires
        base@.bien_forme(),
    ensures
        r@ == simp_pow(base@, n),
        r@.bien_forme(),
        r@.taille() <= 1 + base@.taille(),
{
    proof {
        reveal_with_fuel(Expr::vue, 4);
        reveal_with_fuel(Terme::bien_forme, 4);
        reveal_with_fuel(Terme::taille, 4);
    }
    if base.est_indefini() {
        return Expr::Indefini;
    }
    if n == 0 {
        return Expr::entier(1);
    }
    match &base {
        Expr::Rat(q) => match rational_pow_int(q, n) {
            Some(p) => Expr::Rat(p),
            None => Expr::PowInt(Box::new(base), n),
        },
        _ => Expr::PowInt(Box::new(base), n),
    }
}

/// The sum of two simplified expressions; see [`simp_add`].
fn noeud_add(a: Expr, b: Expr) -> (r: Expr)
    requires
        a@.bien_forme(),
        b@.bien_forme(),
    ensures
        r@ == simp_add(a@, b@),
        r@.bien_forme(),
        r@.taille() <= 1 + a@.taille() + b@.taille(),
{
    proof {
        reveal_with_fuel(Expr::vue, 4);
        reveal_with_fuel(Terme::bien_forme, 4);
        reveal_with_fuel(Terme::taille, 4);
    }
    if a.est_indefini() || b.est_indefini() {
        return Expr::Indefini;
    }
    if let Expr::Rat(x) = &a {
        if let Expr::Rat(y) = &b {
            return Expr::Rat(rat_somme(x, y));
        }
    }
    if a.est_zero() {
        b
    } else if b.est_zero() {
        a
    } else {
        Expr::Add(Box::new(a), Box::new(b))
    }
}

/// The difference of two simplified expressions; see [`simp_sub`].
fn noeud_sub(a: Expr, b: Expr) -> (r: Expr)
    requires
        a@.bien_forme(),
        b@.bien_forme(),
    ensures
        r@ == simp_sub(a@, b@),
        r@.bien_forme(),
        r@.taille() <= 1 + a@.taille() + b@.taille(),
{
    proof {
        reveal_with_fuel(Expr::vue, 4);
        reveal_with_fuel(Terme::bien_forme, 4);
        reveal_with_fuel(Terme::taille, 4);
    }
    if a.est_indefini() || b.est_indefini() {
        return Expr::Indefini;
    }
    if a.egal(&b) {
        return Expr::entier(0);
    }
    if let Expr::Rat(x) = &a {
        if let Expr::Rat(y) = &b {
            return Expr::Rat(rat_difference(x, y));
        }
    }
    if b.est_zero() {
        a
    } else if a.est_zero() {
        Expr::moins(b)
    } else {
        Expr::Sub(Box::new(a), Box::new(b))
    }
}

/// The quotient of a simplified expression by a rational; see
/// [`simp_div_rat`].
fn noeud_div_rat(a: Expr, k: BigRational) -> (r: Expr)
    requires
        a@.bien_forme(),
        frac(k).bien_forme(),
    ensures
        r@ == simp_div_rat(a@, frac(k)),
        r@.bien_forme(),
        r@.taille() <= 2 + a@.taille(),
{
    proof {
        reveal_with_fuel(Expr::vue, 4);
        reveal_with_fuel(Terme::bien_forme, 4);
        reveal_with_fuel(Terme::taille, 4);
    }
    if a.est_indefini() {
        return Expr::Indefini;
    }
    if rat_est_zero(&k) {
        return Expr::Div(Box::new(a), Box::new(Expr::Rat(k)));
    }
    if let Expr::Rat(x) = &a {
        return Expr::Rat(rat_quotient(x, &k));
    }
    if rat_est_un(&k) {
        a
    } else {
        Expr::Div(Box::new(a), Box::new(Expr::Rat(k)))
    }
}

/// The last rules of a product; see [`simp_mul_base`].
fn noeud_mul_base(a: Expr, b: Expr) -> (r: Expr)
    requires
        a@.bien_forme(),
        b@.bien_forme(),
    ensures
        r@ == simp_mul_base(a@, b@),
        r@.bien_forme(),
        r@.taille() <= 1 + a@.taille() + b@.taille(),
{
    proof {
        reveal_with_fuel(Expr::vue, 4);
        reveal_with_fuel(Terme::bien_forme, 4);
        reveal_with_fuel(Terme::taille, 4);
    }
    if let Expr::Rat(x) = &a {
        if let Expr::Rat(y) = &b {
            return Expr::Rat(rat_produit(x, y));
        }
    }
    if a.est_zero() || b.est_zero() {
        Expr::entier(0)
    } else if a.est_un() {
        b
    } else if b.est_un() {
        a
    } else {
        Expr::Mul(Box::new(a), Box::new(b))
    }
}

/// The rational under a square root, where it is not negative.
fn rat_sous_racine(e: &Expr) -> (r: Option<&BigRational>)
    requires
        e@.bien_forme(),
    ensures
        r is Some <==> est_racine_rat_positif_ou_nul(e@),
        r matches Some(q) ==> frac(*q) == e@->Sqrt_0->Rat_0 && frac(*q).bien_forme(),
{
    proof {
        reveal_with_fuel(Expr::vue, 4);
        reveal_with_fuel(Terme::bien_forme, 4);
        reveal_with_fuel(Terme::taille, 4);
    }
    if let Expr::Sqrt(x) = e {
        if let Expr::Rat(q) = &**x {
            if !rat_est_negatif(q) {
                return Some(q);
            }
        }
    }
    None
}

/// The parts `x` and `k` of `√x / k`.
fn racine_sur_rat(e: &Expr) -> (r: Option<(&Expr, &BigRational)>)
    requires
        e@.bien_forme(),
    ensures
        r is Some <==> est_racine_sur_rat(e@),
        r matches Some(p) ==> p.0@ == radicande(e@) && frac(*p.1) == diviseur(e@)
            && p.0@.bien_forme() && frac(*p.1).bien_forme() && p.0@.taille() + 3 == e@.taille(),
{
    proof {
        reveal_with_fuel(Expr::vue, 4);
        reveal_with_fuel(Terme::bien_forme, 4);
        reveal_with_fuel(Terme::taille, 4);
    }
    if let Expr::Div(p, q) = e {
        if let Expr::Sqrt(x) = &**p {
            if let Expr::Rat(k) = &**q {
                return Some((&**x, k));
            }
        }
    }
    None
}

/// The product of two simplified expressions; see [`simp_mul`].
fn noeud_mul(a: Expr, b: Expr) -> (r: Expr)
    requires
        a@.bien_forme(),
        b@.bien_forme(),
    ensures
        r@ == simp_mul(a@, b@),
        r@.bien_forme(),
        r@.taille() <= 1 + a@.taille() + b@.taille(),
{
    proof {
        reveal_with_fuel(Expr::vue, 4);
        reveal_with_fuel(Terme::bien_forme, 4);
        reveal_with_fuel(Terme::taille, 4);
    }
    if a.est_indefini() || b.est_indefini() {
        return Expr::Indefini;
    }
    if let Expr::Sqrt(x) = &a {
        if let Expr::Sqrt(y) = &b {
            if (**x).egal(&**y) {
                return (**x).clone();
            }
        }
    }
    if let Some(u) = rat_sous_racine(&a) {
        if let Some(v) = rat_sous_racine(&b) {
            return noeud_sqrt(Expr::Rat(rat_produit(u, v)));
        }
    }
    if let Some((x, k)) = racine_sur_rat(&a) {
        if let Expr::Sqrt(y) = &b {
            if x.egal(&**y) {
                return noeud_div_rat(x.clone(), rat_copie(k));
            }
        }
    }
    if let Expr::Sqrt(y) = &a {
        if let Some((x, k)) = racine_sur_rat(&b) {
            if x.egal(&**y) {
                return noeud_div_rat(x.clone(), rat_copie(k));
            }
        }
    }
    if let Some((x1, k)) = racine_sur_rat(&a) {
        if let Some((x2, m)) = racine_sur_rat(&b) {
            if x1.egal(x2) {
                return noeud_div_rat(x1.clone(), rat_produit(k, m));
            }
        }
    }
    noeud_mul_base(a, b)
}

/// The integer under a square root, where it is positive.
fn entier_sous_racine(e: &Expr) -> (r: Option<&BigRational>)
    requires
        e@.bien_forme(),
    ensures
        r is Some <==> est_racine_entier_positif(e@),
        r matches Some(q) ==> frac(*q) == e@->Sqrt_0->Rat_0 && frac(*q).bien_forme(),
{
    proof {
        reveal_with_fuel(Expr::vue, 4);
        reveal_with_fuel(Terme::bien_forme, 4);
        reveal_with_fuel(Terme::taille, 4);
    }
    if let Expr::Sqrt(x) = e {
        if let Expr::Rat(q) = &**x {
            if rat_est_positif(q) && rat_est_entier(q) {
                return Some(q);
            }
        }
    }
    None
}

/// The rational under a square root, where it is positive.
fn rat_positif_sous_racine(e: &Expr) -> (r: Option<&BigRational>)
    requires
        e@.bien_forme(),
    ensures
        r is Some <==> est_racine_rat_positif(e@),
        r matches Some(q) ==> frac(*q) == e@->Sqrt_0->Rat_0 && frac(*q).bien_forme(),
{
    proof {
        reveal_with_fuel(Expr::vue, 4);
        reveal_with_fuel(Terme::bien_forme, 4);
        reveal_with_fuel(Terme::taille, 4);
    }
    if let Expr::Sqrt(x) = e {
        if let Expr::Rat(q) = &**x {
            if rat_est_positif(q) {
                return Some(q);
            }
        }
    }
    None
}

/// The quotient of two simplified expressions; see [`simp_div`].
fn noeud_div(a: Expr, b: Expr) -> (r: Expr)
    requires
        a@.bien_forme(),
        b@.bien_forme(),
    ensures
        r@ == simp_div(a@, b@),
        r@.bien_forme(),
        r@.taille() <= 1 + a@.taille() + b@.taille(),
{
    proof {
        reveal_with_fuel(Expr::vue, 4);
        reveal_with_fuel(Terme::bien_forme, 4);
        reveal_with_fuel(Terme::taille, 4);
    }
    if a.est_indefini() || b.est_indefini() {
        return Expr::Indefini;
    }
    if let Expr::Rat(k) = &b {
        let k = rat_copie(k);
        return noeud_div_rat(a, k);
    }
    if let Expr::Sqrt(x) = &a {
        if a.egal(&b) {
            if let Expr::Rat(q) = &**x {
                if !rat_est_zero(q) {
                    return Expr::entier(1);
                }
            }
        }
    }
    if let Some(u) = rat_positif_sous_racine(&a) {
        if let Some(v) = rat_positif_sous_racine(&b) {
            return noeud_sqrt(Expr::Rat(rat_quotient(u, v)));
        }
    }
    if let Expr::Rat(x) = &a {
        if let Some(n) = entier_sous_racine(&b) {
            let c = Expr::Rat(rat_quotient(x, n));
            return noeud_mul_base(c, b);
        }
    }
    Expr::Div(Box::new(a), Box::new(b))
}

impl Expr {
    /// Local simplification: one traversal from the leaves up. It folds
    /// rationals, removes neutral elements, collapses like square roots and
    /// exact roots and powers, and turns every node that has `Indefini` among
    /// its operands into `Indefini`. The tree never grows.
    pub fn simplify(self) -> (r: Expr)
        requires
            self@.bien_forme(),
        ensures
            r@ == simplifie(self@),
            r@.bien_forme(),
            r@.taille() <= self@.taille(),
        decreases self,
    {
        match self {
            Expr::Rat(_) | Expr::Pi | Expr::Indefini | Expr::Var(_) => self,
            Expr::Add(a, b) => noeud_add((*a).simplify(), (*b).simplify()),
            Expr::Sub(a, b) => noeud_sub((*a).simplify(), (*b).simplify()),
            Expr::Mul(a, b) => noeud_mul((*a).simplify(), (*b).simplify()),
            Expr::Div(a, b) => noeud_div((*a).simplify(), (*b).simplify()),
            Expr::PowInt(x, n) => noeud_pow((*x).simplify(), n),
            Expr::Sqrt(x) => noeud_sqrt((*x).simplify()),
            Expr::Sin(x) => {
                let x = (*x).simplify();
                if x.est_indefini() {
                    Expr::Indefini
                } else {
                    Expr::Sin(Box::new(x))
                }
            },
            Expr::Cos(x) => {
                let x = (*x).simplify();
                if x.est_indefini() {
                    Expr::Indefini
                } else {
                    Expr::Cos(Box::new(x))
                }
            },
            Expr::Tan(x) => {
                let x = (*x).simplify();
                if x.est_indefini() {
                    Expr::Indefini
                } else {
                    Expr::Tan(Box::new(x))
                }
            },
        }
    }
}

/// The coefficient `c` of a term of the shape `c·π`, read along products
/// and quotients by rationals and along `0 - x`. Sums are not followed.
pub open spec fn coeff_pi(t: Terme) -> Option<Frac>
    decreases t,
{
    match t {
        Terme::Pi => Some(Frac::entier(1)),
        Terme::Mul(a, b) => if coeff_pi(*a) is Some && *b is Rat {
            Some(coeff_pi(*a)->0.fois(b->Rat_0))
        } else if coeff_pi(*b) is Some && *a is Rat {
            Some(coeff_pi(*b)->0.fois(a->Rat_0))
        } else {
            None
        },
        Terme::Div(a, b) => if coeff_pi(*a) is Some && *b is Rat && !b.est_zero() {
            Some(coeff_pi(*a)->0.sur(b->Rat_0))
        } else {
            None
        },
        Terme::Sub(a, b) => if a.est_zero() && coeff_pi(*b) is Some {
            Some(coeff_pi(*b)->0.oppose())
        } else {
            None
        },
        _ => None,
    }
}

/// The coefficient of a sum of two multiples of π.
pub open spec fn coeff_somme(ra: Option<Frac>, rb: Option<Frac>) -> Option<Frac> {
    match (ra, rb) {
        (Some(x), Some(y)) => Some(x.plus(y)),
        _ => None,
    }
}

/// The coefficient of `a - b`, from the coefficients of both sides; `0 - b`
/// is the opposite of `b`.
pub open spec fn coeff_difference(a: Terme, ra: Option<Frac>, rb: Option<Frac>) -> Option<Frac> {
    if a.est_zero() && rb is Some {
        Some(rb->0.oppose())
    } else {
        match (ra, rb) {
            (Some(x), Some(y)) => Some(x.moins(y)),
            _ => None,
        }
    }
}

/// The coefficient of `a * b`: one side is a multiple of π, the other a
/// rational leaf.
pub open spec fn coeff_produit(a: Terme, b: Terme, ra: Option<Frac>, rb: Option<Frac>) -> Option<
    Frac,
> {
    match (ra, rb) {
        (Some(c), None) => if b is Rat {
            Some(c.fois(b->Rat_0))
        } else if a is Rat {
            Some(c.fois(a->Rat_0))
        } else {
            None
        },
        (None, Some(c)) => if a is Rat {
            Some(c.fois(a->Rat_0))
        } else if b is Rat {
            Some(c.fois(b->Rat_0))
        } else {
            None
        },
        _ => None,
    }
}

/// The coefficient of `a / b`: a multiple of π over a rational leaf that is
/// not zero.
pub open spec fn coeff_quotient(b: Terme, ra: Option<Frac>, rb: Option<Frac>) -> Option<Frac> {
    match (ra, rb) {
        (Some(c), None) => if b is Rat && !b.est_zero() {
            Some(c.sur(b->Rat_0))
        } else {
            None
        },
        _ => None,
    }
}

/// The coefficient `c` of a term equal to `c·π` by linear combination: sums
/// and differences of multiples of π, products and quotients by rational
/// leaves. Anything else is not recognised.
pub open spec fn coeff_pi_ext(t: Terme) -> Option<Frac>
    decreases t,
{
    match t {
        Terme::Pi => Some(Frac::entier(1)),
        Terme::Add(a, b) => coeff_somme(coeff_pi_ext(*a), coeff_pi_ext(*b)),
        Terme::Sub(a, b) => coeff_difference(*a, coeff_pi_ext(*a), coeff_pi_ext(*b)),
        Terme::Mul(a, b) => coeff_produit(*a, *b, coeff_pi_ext(*a), coeff_pi_ext(*b)),
        Terme::Div(a, b) => coeff_quotient(*b, coeff_pi_ext(*a), coeff_pi_ext(*b)),
        _ => None,
    }
}

/// The number of nodes that the linear reading visits: the four operations
/// are followed, every other node counts as a leaf.
pub open spec fn noeuds_lineaires(t: Terme) -> nat
    decreases t,
{
    match t {
        Terme::Add(a, b) | Terme::Sub(a, b) | Terme::Mul(a, b) | Terme::Div(a, b) => {
            1 + noeuds_lineaires(*a) + noeuds_lineaires(*b)
        },
        _ => 1,
    }
}

/// The most nodes that the linear reading takes off its stack before it
/// gives up.
pub const MAX_NOEUDS: usize = 200_000;

/// The deepest stack of the linear reading before it gives up.
pub const MAX_PILE: usize = 8192;

/// A tree of at most this many linear nodes is always read to the end.
pub const NOEUDS_SURS: usize = 4096;

/// An entry of the traversal stack: a node to open, or a node whose
/// operands have been read.
pub enum Marque<'a> {
    Entrer(&'a Expr),
    Sortir(&'a Expr),
}

/// The mathematical model of a [`Marque`].
pub enum Etape {
    Entrer(Terme),
    Sortir(Terme),
}

impl<'a> View for Marque<'a> {
    type V = Etape;

    open spec fn view(&self) -> Etape {
        match self {
            Marque::Entrer(e) => Etape::Entrer(e@),
            Marque::Sortir(e) => Etape::Sortir(e@),
        }
    }
}

impl Etape {
    /// The tree of the entry.
    pub open spec fn terme(self) -> Terme {
        match self {
            Etape::Entrer(t) => t,
            Etape::Sortir(t) => t,
        }
    }

    /// The work that the entry still stands for.
    pub open spec fn poids(self) -> nat {
        match self {
            Etape::Entrer(t) => 2 * noeuds_lineaires(t),
            Etape::Sortir(_) => 1,
        }
    }
}

/// The top of the result stack and what lies under it; `None` from an empty
/// stack.
pub open spec fn depile(res: Seq<Option<Frac>>) -> (Seq<Option<Frac>>, Option<Frac>) {
    if res.len() > 0 {
        (res.drop_last(), res.last())
    } else {
        (res, None)
    }
}

/// The result stack after a node whose operands have been read.
pub open spec fn combine(t: Terme, res: Seq<Option<Frac>>) -> Seq<Option<Frac>> {
    let (r1, rb) = depile(res);
    let (r2, ra) = depile(r1);
    match t {
        Terme::Pi => res.push(Some(Frac::entier(1))),
        Terme::Add(a, b) => r2.push(coeff_somme(ra, rb)),
        Terme::Sub(a, b) => r2.push(coeff_difference(*a, ra, rb)),
        Terme::Mul(a, b) => r2.push(coeff_produit(*a, *b, ra, rb)),
        Terme::Div(a, b) => r2.push(coeff_quotient(*b, ra, rb)),
        _ => res.push(None),
    }
}

/// The stack after the node `t` has been opened: the node waits to be
/// closed, above it its operands wait to be opened, the left one on top.
pub open spec fn ouvre(pile: Seq<Etape>, t: Terme) -> Seq<Etape> {
    match t {
        Terme::Add(a, b) | Terme::Sub(a, b) | Terme::Mul(a, b) | Terme::Div(a, b) => pile.push(
            Etape::Sortir(t),
        ).push(Etape::Entrer(*b)).push(Etape::Entrer(*a)),
        _ => pile.push(Etape::Sortir(t)),
    }
}

/// The work that a stack still stands for.
pub open spec fn poids_pile(pile: Seq<Etape>) -> nat
    decreases pile.len(),
{
    if pile.len() == 0 {
        0
    } else {
        poids_pile(pile.drop_last()) + pile.last().poids()
    }
}

/// One more entry on a stack adds its work.
pub proof fn lemme_poids_empile(pile: Seq<Etape>, m: Etape)
    ensures
        poids_pile(pile.push(m)) == poids_pile(pile) + m.poids(),
{
    assert(pile.push(m).drop_last() =~= pile);
}

/// A stack holds no more entries than it stands for units of work.
pub proof fn lemme_poids_longueur(pile: Seq<Etape>)
    ensures
        pile.len() <= poids_pile(pile),
    decreases pile.len(),
{
    if pile.len() > 0 {
        lemme_poids_longueur(pile.drop_last());
    }
}

/// Opening a node takes one unit of work.
pub proof fn lemme_poids_ouvre(pile: Seq<Etape>, t: Terme)
    ensures
        poids_pile(ouvre(pile, t)) + 1 == poids_pile(pile) + Etape::Entrer(t).poids(),
{
    match t {
        Terme::Add(a, b) | Terme::Sub(a, b) | Terme::Mul(a, b) | Terme::Div(a, b) => {
            let pile_t = pile.push(Etape::Sortir(t));
            let pile_b = pile_t.push(Etape::Entrer(*b));
            lemme_poids_empile(pile_b, Etape::Entrer(*a));
            lemme_poids_empile(pile_t, Etape::Entrer(*b));
            lemme_poids_empile(pile, Etape::Sortir(t));
        },
        _ => {
            lemme_poids_empile(pile, Etape::Sortir(t));
        },
    }
}

/// The result stack once every entry of `pile` has been worked off, were
/// there no bounds.
pub open spec fn issue(pile: Seq<Etape>, res: Seq<Option<Frac>>) -> Seq<Option<Frac>>
    decreases pile.len(),
{
    if pile.len() == 0 {
        res
    } else {
        match pile.last() {
            Etape::Entrer(t) => issue(pile.drop_last(), res.push(coeff_pi_ext(t))),
            Etape::Sortir(t) => issue(pile.drop_last(), combine(t, res)),
        }
    }
}

/// The traversal itself: entries leave the stack one by one, `visites`
/// counts them. `None` as soon as more than [`MAX_NOEUDS`] have left, or
/// more than [`MAX_PILE`] are left under the one that leaves.
pub open spec fn lecture_bornee(pile: Seq<Etape>, res: Seq<Option<Frac>>, visites: int) -> Option<
    Seq<Option<Frac>>,
>
    decreases poids_pile(pile),
{
    if pile.len() == 0 {
        Some(res)
    } else {
        let reste = pile.drop_last();
        if visites + 1 > MAX_NOEUDS || reste.len() > MAX_PILE {
            None
        } else {
            match pile.last() {
                Etape::Entrer(t) => {
                    proof {
                        lemme_poids_ouvre(reste, t);
                    }
                    lecture_bornee(ouvre(reste, t), res, visites + 1)
                },
                Etape::Sortir(t) => lecture_bornee(reste, combine(t, res), visites + 1),
            }
        }
    }
}

/// The coefficient that the bounded traversal reads: that of [`coeff_pi_ext`]
/// as long as the tree stays within the bounds, `None` beyond them.
pub open spec fn coeff_pi_borne(t: Terme) -> Option<Frac> {
    match lecture_bornee(seq![Etape::Entrer(t)], Seq::empty(), 0) {
        Some(res) => if res.len() == 1 {
            res[0]
        } else {
            None
        },
        None => None,
    }
}

/// The top entry of a stack is worked off first.
proof fn lemme_issue_empile(pile: Seq<Etape>, m: Etape, res: Seq<Option<Frac>>)
    ensures
        issue(pile.push(m), res) == match m {
            Etape::Entrer(t) => issue(pile, res.push(coeff_pi_ext(t))),
            Etape::Sortir(t) => issue(pile, combine(t, res)),
        },
{
    assert(pile.push(m).drop_last() =~= pile);
}

/// Opening a node, reading its operands and closing it gives the
/// coefficient of the node.
proof fn lemme_issue_ouvre(pile: Seq<Etape>, t: Terme, res: Seq<Option<Frac>>)
    ensures
        issue(ouvre(pile, t), res) == issue(pile, res.push(coeff_pi_ext(t))),
{
    match t {
        Terme::Add(a, b) | Terme::Sub(a, b) | Terme::Mul(a, b) | Terme::Div(a, b) => {
            let pile_t = pile.push(Etape::Sortir(t));
            let pile_b = pile_t.push(Etape::Entrer(*b));
            let ca = coeff_pi_ext(*a);
            let cb = coeff_pi_ext(*b);
            lemme_issue_empile(pile_b, Etape::Entrer(*a), res);
            lemme_issue_empile(pile_t, Etape::Entrer(*b), res.push(ca));
            lemme_issue_empile(pile, Etape::Sortir(t), res.push(ca).push(cb));
            let r = res.push(ca).push(cb);
            assert(r.drop_last() =~= res.push(ca));
            assert(res.push(ca).drop_last() =~= res);
            assert(combine(t, r) == res.push(coeff_pi_ext(t)));
        },
        _ => {
            lemme_issue_empile(pile, Etape::Sortir(t), res);
        },
    }
}

/// Where the bounded traversal comes to its end, it has read what the
/// traversal without bounds reads.
pub proof fn lemme_lecture_sure(pile: Seq<Etape>, res: Seq<Option<Frac>>, visites: int)
    ensures
        lecture_bornee(pile, res, visites) matches Some(r) ==> r == issue(pile, res),
    decreases poids_pile(pile),
{
    if pile.len() > 0 {
        let reste = pile.drop_last();
        if !(visites + 1 > MAX_NOEUDS || reste.len() > MAX_PILE) {
            match pile.last() {
                Etape::Entrer(t) => {
                    lemme_poids_ouvre(reste, t);
                    lemme_lecture_sure(ouvre(reste, t), res, visites + 1);
                    lemme_issue_ouvre(reste, t, res);
                },
                Etape::Sortir(t) => {
                    lemme_lecture_sure(reste, combine(t, res), visites + 1);
                },
            }
        }
    }
}

/// A stack whose work fits in both bounds is read to the end.
pub proof fn lemme_lecture_complete(pile: Seq<Etape>, res: Seq<Option<Frac>>, visites: int)
    requires
        visites >= 0,
        visites + poids_pile(pile) <= MAX_NOEUDS,
        poids_pile(pile) <= MAX_PILE,
    ensures
        lecture_bornee(pile, res, visites) is Some,
    decreases poids_pile(pile),
{
    if pile.len() > 0 {
        let reste = pile.drop_last();
        lemme_poids_longueur(reste);
        match pile.last() {
            Etape::Entrer(t) => {
                lemme_poids_ouvre(reste, t);
                lemme_lecture_complete(ouvre(reste, t), res, visites + 1);
            },
            Etape::Sortir(t) => {
                lemme_lecture_complete(reste, combine(t, res), visites + 1);
            },
        }
    }
}

/// The bounded traversal never guesses: what it reads is the coefficient of
/// the linear combination. And it reads every tree of at most
/// [`NOEUDS_SURS`] linear nodes.
pub proof fn lemme_coeff_pi_borne(t: Terme)
    ensures
        coeff_pi_borne(t) is Some ==> coeff_pi_borne(t) == coeff_pi_ext(t),
        noeuds_lineaires(t) <= NOEUDS_SURS ==> coeff_pi_borne(t) == coeff_pi_ext(t),
{
    let pile = seq![Etape::Entrer(t)];
    let vide = Seq::<Option<Frac>>::empty();
    lemme_lecture_sure(pile, vide, 0);
    assert(pile =~= Seq::<Etape>::empty().push(Etape::Entrer(t)));
    lemme_issue_empile(Seq::empty(), Etape::Entrer(t), vide);
    lemme_poids_empile(Seq::empty(), Etape::Entrer(t));
    assert(issue(pile, vide) == vide.push(coeff_pi_ext(t)));
    if noeuds_lineaires(t) <= NOEUDS_SURS {
        lemme_lecture_complete(pile, vide, 0);
    }
}

/// The models of a stack of entries.
pub open spec fn vue_marques(pile: Seq<Marque>) -> Seq<Etape> {
    pile.map_values(|m: Marque| m@)
}

/// The models of a stack of results.
pub open spec fn vue_res(res: Seq<Option<BigRational>>) -> Seq<Option<Frac>> {
    res.map_values(|o: Option<BigRational>| frac_opt(o))
}

/// Whether every coefficient of the stack is in lowest terms.
pub open spec fn res_bien_forme(res: Seq<Option<BigRational>>) -> bool {
    forall|i: int| 0 <= i < res.len() ==> (#[trigger] res[i] matches Some(q) ==> frac(q).bien_forme())
}

/// Whether the tree of every entry is well formed.
pub open spec fn marques_bien_formees(pile: Seq<Etape>) -> bool {
    forall|i: int| 0 <= i < pile.len() ==> (#[trigger] pile[i]).terme().bien_forme()
}

/// Takes the top of the result stack; `None` from an empty stack.
fn depiler(res: &mut Vec<Option<BigRational>>) -> (r: Option<BigRational>)
    requires
        res_bien_forme(old(res)@),
    ensures
        (vue_res(final(res)@), frac_opt(r)) == depile(vue_res(old(res)@)),
        res_bien_forme(final(res)@),
        r matches Some(q) ==> frac(q).bien_forme(),
{
    let ghost avant = res@;
    match res.pop() {
        Some(x) => {
            assert(vue_res(res@) =~= vue_res(avant).drop_last());
            x
        },
        None => None,
    }
}

/// Puts a coefficient on the result stack.
fn empiler(res: &mut Vec<Option<BigRational>>, c: Option<BigRational>)
    requires
        res_bien_forme(old(res)@),
        c matches Some(q) ==> frac(q).bien_forme(),
    ensures
        vue_res(final(res)@) == vue_res(old(res)@).push(frac_opt(c)),
        res_bien_forme(final(res)@),
{
    let ghost avant = res@;
    res.push(c);
    assert(vue_res(res@) =~= vue_res(avant).push(frac_opt(c)));
}

/// The rational of a rational leaf.
fn feuille_rat(e: &Expr) -> (r: Option<&BigRational>)
    requires
        e@.bien_forme(),
    ensures
        r is Some <==> e@ is Rat,
        r matches Some(q) ==> frac(*q) == e@->Rat_0 && frac(*q).bien_forme(),
{
    match e {
        Expr::Rat(q) => Some(q),
        _ => None,
    }
}

/// The coefficient of a sum; see [`coeff_somme`].
fn calc_coeff_somme(ra: Option<BigRational>, rb: Option<BigRational>) -> (r: Option<BigRational>)
    requires
        ra matches Some(q) ==> frac(q).bien_forme(),
        rb matches Some(q) ==> frac(q).bien_forme(),
    ensures
        frac_opt(r) == coeff_somme(frac_opt(ra), frac_opt(rb)),
        r matches Some(q) ==> frac(q).bien_forme(),
{
    match (ra, rb) {
        (Some(x), Some(y)) => Some(rat_somme(&x, &y)),
        _ => None,
    }
}

/// The coefficient of a difference; see [`coeff_difference`].
fn calc_coeff_difference(a: &Expr, ra: Option<BigRational>, rb: Option<BigRational>) -> (r: Option<
    BigRational,
>)
    requires
        ra matches Some(q) ==> frac(q).bien_forme(),
        rb matches Some(q) ==> frac(q).bien_forme(),
    ensures
        frac_opt(r) == coeff_difference(a@, frac_opt(ra), frac_opt(rb)),
        r matches Some(q) ==> frac(q).bien_forme(),
{
    if a.est_zero() {
        if let Some(cb) = &rb {
            proof {
                lemme_oppose(frac(*cb));
            }
            return Some(rat_oppose(cb));
        }
    }
    match (ra, rb) {
        (Some(x), Some(y)) => Some(rat_difference(&x, &y)),
        _ => None,
    }
}

/// The coefficient of a product; see [`coeff_produit`].
fn calc_coeff_produit(
    a: &Expr,
    b: &Expr,
    ra: Option<BigRational>,
    rb: Option<BigRational>,
) -> (r: Option<BigRational>)
    requires
        a@.bien_forme(),
        b@.bien_forme(),
        ra matches Some(q) ==> frac(q).bien_forme(),
        rb matches Some(q) ==> frac(q).bien_forme(),
    ensures
        frac_opt(r) == coeff_produit(a@, b@, frac_opt(ra), frac_opt(rb)),
        r matches Some(q) ==> frac(q).bien_forme(),
{
    match (ra, rb) {
        (Some(c), None) => {
            if let Some(k) = feuille_rat(b) {
                Some(rat_produit(&c, k))
            } else if let Some(k) = feuille_rat(a) {
                Some(rat_produit(&c, k))
            } else {
                None
            }
        },
        (None, Some(c)) => {
            if let Some(k) = feuille_rat(a) {
                Some(rat_produit(&c, k))
            } else if let Some(k) = feuille_rat(b) {
                Some(rat_produit(&c, k))
            } else {
                None
            }
        },
        _ => None,
    }
}

/// The coefficient of a quotient; see [`coeff_quotient`].
fn calc_coeff_quotient(b: &Expr, ra: Option<BigRational>, rb: Option<BigRational>) -> (r: Option<
    BigRational,
>)
    requires
        b@.bien_forme(),
        ra matches Some(q) ==> frac(q).bien_forme(),
        rb matches Some(q) ==> frac(q).bien_forme(),
    ensures
        frac_opt(r) == coeff_quotient(b@, frac_opt(ra), frac_opt(rb)),
        r matches Some(q) ==> frac(q).bien_forme(),
{
    match (ra, rb) {
        (Some(c), None) => {
            if let Some(k) = feuille_rat(b) {
                if rat_est_zero(k) {
                    None
                } else {
                    Some(rat_quotient(&c, k))
                }
            } else {
                None
            }
        },
        _ => None,
    }
}

/// Closes a node: the coefficients of its operands leave the result stack
/// and its own coefficient takes their place.
fn fermer(e: &Expr, res: &mut Vec<Option<BigRational>>)
    requires
        e@.bien_forme(),
        res_bien_forme(old(res)@),
    ensures
        vue_res(final(res)@) == combine(e@, vue_res(old(res)@)),
        res_bien_forme(final(res)@),
{
    match e {
        Expr::Pi => {
            empiler(res, Some(rat_de_i64(1)));
        },
        Expr::Add(_, _) => {
            let rb = depiler(res);
            let ra = depiler(res);
            let c = calc_coeff_somme(ra, rb);
            empiler(res, c);
        },
        Expr::Sub(a, _) => {
            let rb = depiler(res);
            let ra = depiler(res);
            let c = calc_coeff_difference(&**a, ra, rb);
            empiler(res, c);
        },
        Expr::Mul(a, b) => {
            let rb = depiler(res);
            let ra = depiler(res);
            let c = calc_coeff_produit(&**a, &**b, ra, rb);
            empiler(res, c);
        },
        Expr::Div(_, b) => {
            let rb = depiler(res);
            let ra = depiler(res);
            let c = calc_coeff_quotient(&**b, ra, rb);
            empiler(res, c);
        },
        _ => {
            empiler(res, None);
        },
    }
}

impl Expr {
    /// Reads the expression as `c·π` along products and quotients by
    /// rationals and along `0 - x`; `None` for any other shape.
    pub fn as_coeff_pi(&self) -> (r: Option<BigRational>)
        requires
            self@.bien_forme(),
        ensures
            frac_opt(r) == coeff_pi(self@),
            r matches Some(q) ==> frac(q).bien_forme(),
        decreases self,
    {
        proof {
            reveal_with_fuel(Expr::vue, 3);
            reveal_with_fuel(Terme::bien_forme, 3);
        }
        match self {
            Expr::Pi => Some(rat_de_i64(1)),
            Expr::Mul(a, b) => {
                if let Some(c) = (**a).as_coeff_pi() {
                    if let Expr::Rat(k) = &**b {
                        return Some(rat_produit(&c, k));
                    }
                }
                if let Some(c) = (**b).as_coeff_pi() {
                    if let Expr::Rat(k) = &**a {
                        return Some(rat_produit(&c, k));
                    }
                }
                None
            },
            Expr::Div(a, b) => {
                if let Some(c) = (**a).as_coeff_pi() {
                    if let Expr::Rat(k) = &**b {
                        if rat_est_zero(k) {
                            return None;
                        }
                        return Some(rat_quotient(&c, k));
                    }
                }
                None
            },
            Expr::Sub(a, b) => {
                if (**a).est_zero() {
                    if let Some(c) = (**b).as_coeff_pi() {
                        proof {
                            lemme_oppose(frac(c));
                        }
                        return Some(rat_oppose(&c));
                    }
                }
                None
            },
            _ => None,
        }
    }

    /// Reads the expression as `c·π` by linear combination, without recursion:
    /// an explicit stack, at most [`MAX_PILE`] deep, and at most
    /// [`MAX_NOEUDS`] entries taken off it. A tree beyond these bounds is not
    /// recognised; see [`lemme_coeff_pi_borne`] for what the bounds let
    /// through.
    pub fn as_coeff_pi_ext(&self) -> (r: Option<BigRational>)
        requires
            self@.bien_forme(),
        ensures
            frac_opt(r) == coeff_pi_borne(self@),
            r matches Some(q) ==> frac(q).bien_forme(),
    {
        let mut pile: Vec<Marque<'_>> = Vec::new();
        let mut res: Vec<Option<BigRational>> = Vec::new();
        pile.push(Marque::Entrer(self));
        let mut visites: usize = 0;
        let ghost fin = lecture_bornee(seq![Etape::Entrer(self@)], Seq::empty(), 0);
        proof {
            assert(vue_marques(pile@) =~= seq![Etape::Entrer(self@)]);
            assert(vue_res(res@) =~= Seq::<Option<Frac>>::empty());
        }
        while pile.len() > 0
            invariant
                fin == lecture_bornee(seq![Etape::Entrer(self@)], Seq::empty(), 0),
                lecture_bornee(vue_marques(pile@), vue_res(res@), visites as int) == fin,
                marques_bien_formees(vue_marques(pile@)),
                res_bien_forme(res@),
                visites <= MAX_NOEUDS,
            decreases poids_pile(vue_marques(pile@)),
        {
            let ghost avant = vue_marques(pile@);
            let ghost r0 = vue_res(res@);
            let ghost v0 = visites as int;
            let m = pile.pop().unwrap();
            let ghost reste = vue_marques(pile@);
            proof {
                assert(reste =~= avant.drop_last());
                assert(m@ == avant.last());
                assert(m@.terme().bien_forme());
                assert(marques_bien_formees(reste));
            }
            visites += 1;
            if visites > MAX_NOEUDS {
                assert(lecture_bornee(avant, r0, v0) is None);
                return None;
            }
            if pile.len() > MAX_PILE {
                assert(lecture_bornee(avant, r0, v0) is None);
                return None;
            }
            assert(lecture_bornee(avant, r0, v0) == match m@ {
                Etape::Entrer(t) => lecture_bornee(ouvre(reste, t), r0, v0 + 1),
                Etape::Sortir(t) => lecture_bornee(reste, combine(t, r0), v0 + 1),
            });
            match m {
                Marque::Entrer(e) => {
                    proof {
                        lemme_poids_ouvre(reste, e@);
                    }
                    pile.push(Marque::Sortir(e));
                    match e {
                        Expr::Add(a, b) | Expr::Sub(a, b) | Expr::Mul(a, b) | Expr::Div(a, b) => {
                            pile.push(Marque::Entrer(&**b));
                            pile.push(Marque::Entrer(&**a));
                            proof {
                                assert(vue_marques(pile@) =~= ouvre(reste, e@));
                            }
                        },
                        _ => {
                            proof {
                                assert(vue_marques(pile@) =~= ouvre(reste, e@));
                            }
                        },
                    }
                },
                Marque::Sortir(e) => {
                    fermer(e, &mut res);
                },
            }
        }
        if res.len() == 1 {
            depiler(&mut res)
        } else {
            None
        }
    }
}


} // verus!

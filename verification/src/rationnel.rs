//! Exact rationals.
//!
//! The rationals are `num_rational::BigRational` values. The mathematical
//! model of one is a [`Frac`]: numerator and denominator in lowest terms, the
//! denominator positive. What `num_rational` computes is stated over that
//! model and trusted; the tests on signs and the constructors built on the
//! accessors are proved.
use crate::entier::{
    abs, big_copie, big_de_i64, big_est_negatif, big_est_un, big_est_zero, big_produit,
    big_puissance_rapide, big_reste, big_somme, big_texte, est_carre, int_sqrt_exact, quotient,
    racine, reste, texte_entier, valeur,
};
use num_bigint::BigInt;
use num_rational::{BigRational, Ratio};
use vstd::arithmetic::div_mod::{
    lemma_fundamental_div_mod, lemma_fundamental_div_mod_converse, lemma_truncate_middle,
};
use vstd::arithmetic::power::{lemma_pow_positive, pow};
use vstd::prelude::*;
use vstd::string::StringExecFns;

verus! {

#[verifier::external_type_specification]
#[verifier::external_body]
#[verifier::reject_recursive_types(T)]
pub struct ExRatio<T>(Ratio<T>);

/// A fraction of two integers: the model of a rational.
pub struct Frac {
    pub num: int,
    pub den: int,
}

/// Greatest common divisor, by Euclid's algorithm.
pub open spec fn pgcd(a: nat, b: nat) -> nat
    decreases b,
{
    if b == 0 {
        a
    } else {
        pgcd(b, a % b)
    }
}

/// The fraction `n / d` in lowest terms with a positive denominator.
pub open spec fn reduite(n: int, d: int) -> Frac
    recommends
        d != 0,
{
    let g = pgcd(abs(n) as nat, abs(d) as nat) as int;
    if d > 0 {
        Frac { num: n / g, den: d / g }
    } else {
        Frac { num: (-n) / g, den: (-d) / g }
    }
}

impl Frac {
    /// Lowest terms, positive denominator.
    pub open spec fn bien_forme(self) -> bool {
        self.den > 0 && pgcd(abs(self.num) as nat, self.den as nat) == 1
    }

    /// The integer `n` as a fraction.
    pub open spec fn entier(n: int) -> Frac {
        Frac { num: n, den: 1 }
    }

    /// Whether the fraction is zero.
    pub open spec fn est_zero(self) -> bool {
        self.num == 0
    }

    /// Whether numerator and denominator are equal.
    pub open spec fn est_un(self) -> bool {
        self.num == self.den
    }

    /// Whether the numerator is below zero.
    pub open spec fn est_negatif(self) -> bool {
        self.num < 0
    }

    /// Whether the numerator is above zero.
    pub open spec fn est_positif(self) -> bool {
        self.num > 0
    }

    /// Whether the denominator is one.
    pub open spec fn est_entier(self) -> bool {
        self.den == 1
    }

    /// The fraction with the opposite numerator.
    pub open spec fn oppose(self) -> Frac {
        Frac { num: -self.num, den: self.den }
    }

    /// The sum, in lowest terms.
    pub open spec fn plus(self, autre: Frac) -> Frac {
        reduite(self.num * autre.den + autre.num * self.den, self.den * autre.den)
    }

    /// The difference, in lowest terms.
    pub open spec fn moins(self, autre: Frac) -> Frac {
        reduite(self.num * autre.den - autre.num * self.den, self.den * autre.den)
    }

    /// The product, in lowest terms.
    pub open spec fn fois(self, autre: Frac) -> Frac {
        reduite(self.num * autre.num, self.den * autre.den)
    }

    /// The quotient, in lowest terms.
    pub open spec fn sur(self, autre: Frac) -> Frac
        recommends
            autre.num != 0,
    {
        reduite(self.num * autre.den, self.den * autre.num)
    }

    /// The integer power; a negative exponent gives the power of the
    /// reciprocal, which needs a numerator that is not zero.
    pub open spec fn puissance(self, e: int) -> Frac
        recommends
            e >= 0 || self.num != 0,
    {
        if e >= 0 {
            reduite(pow(self.num, e as nat), pow(self.den, e as nat))
        } else {
            reduite(pow(self.den, (-e) as nat), pow(self.num, (-e) as nat))
        }
    }

    /// The square root, where numerator and denominator are perfect squares.
    pub open spec fn racine_exacte(self) -> Option<Frac> {
        if est_carre(self.num) && est_carre(self.den) {
            Some(reduite(racine(self.num), racine(self.den)))
        } else {
            None
        }
    }

    /// The representative in `[0, p)` of the class modulo `p`, for `p > 0`;
    /// the fraction itself for another `p`.
    pub open spec fn modulo(self, p: int) -> Frac {
        if p <= 0 {
            self
        } else if self.num == 0 {
            Frac::entier(0)
        } else {
            reduite(self.num % (p * self.den), self.den)
        }
    }
}

/// The writing of a fraction: `n` for an integer, `n/d` otherwise.
pub open spec fn texte_rat(f: Frac) -> Seq<char> {
    if f.den == 1 {
        texte_entier(f.num)
    } else {
        texte_entier(f.num) + "/"@ + texte_entier(f.den)
    }
}

/// The model of an optional rational.
pub open spec fn frac_opt(o: Option<BigRational>) -> Option<Frac> {
    match o {
        Some(r) => Some(frac(r)),
        None => None,
    }
}

/// The remainder in `[0, m)` for `m > 0`, computed from the truncating
/// remainder; `a` itself for `m == 0`.
pub open spec fn modulo_euclide(a: int, m: int) -> int {
    if m == 0 {
        a
    } else if reste(a, m) < 0 {
        reste(a, m) + m
    } else {
        reste(a, m)
    }
}

/// The numerator that a `BigRational` stores.
pub uninterp spec fn numerateur(r: BigRational) -> int;

/// The denominator that a `BigRational` stores.
pub uninterp spec fn denominateur(r: BigRational) -> int;

/// The model of a `BigRational`.
pub open spec fn frac(r: BigRational) -> Frac {
    Frac { num: numerateur(r), den: denominateur(r) }
}

/// `Ratio::new`: the fraction in lowest terms with a positive denominator.
/// It panics on a zero denominator, which the precondition excludes.
#[verifier::external_body]
fn ratio_nouveau(n: BigInt, d: BigInt) -> (r: BigRational)
    requires
        valeur(d) != 0,
    ensures
        frac(r) == reduite(valeur(n), valeur(d)),
{
    Ratio::new(n, d)
}

/// `Ratio::from_integer`: the integer over one.
#[verifier::external_body]
fn ratio_entier(n: BigInt) -> (r: BigRational)
    ensures
        frac(r) == Frac::entier(valeur(n)),
{
    Ratio::from_integer(n)
}

/// `Ratio::numer`: the stored numerator.
#[verifier::external_body]
pub(crate) fn rat_numer(r: &BigRational) -> (n: &BigInt)
    ensures
        valeur(*n) == numerateur(*r),
{
    r.numer()
}

/// `Ratio::denom`: the stored denominator.
#[verifier::external_body]
pub(crate) fn rat_denom(r: &BigRational) -> (d: &BigInt)
    ensures
        valeur(*d) == denominateur(*r),
{
    r.denom()
}

/// `Ratio::clone`: a copy with the same numerator and denominator.
#[verifier::external_body]
pub(crate) fn rat_copie(r: &BigRational) -> (c: BigRational)
    ensures
        frac(c) == frac(*r),
{
    r.clone()
}

/// `&Ratio + &Ratio`: the sum, in lowest terms.
#[verifier::external_body]
fn ratio_somme(a: &BigRational, b: &BigRational) -> (r: BigRational)
    requires
        frac(*a).bien_forme(),
        frac(*b).bien_forme(),
    ensures
        frac(r) == frac(*a).plus(frac(*b)),
{
    a + b
}

/// `&Ratio - &Ratio`: the difference, in lowest terms.
#[verifier::external_body]
fn ratio_difference(a: &BigRational, b: &BigRational) -> (r: BigRational)
    requires
        frac(*a).bien_forme(),
        frac(*b).bien_forme(),
    ensures
        frac(r) == frac(*a).moins(frac(*b)),
{
    a - b
}

/// `&Ratio * &Ratio`: the product, in lowest terms.
#[verifier::external_body]
fn ratio_produit(a: &BigRational, b: &BigRational) -> (r: BigRational)
    requires
        frac(*a).bien_forme(),
        frac(*b).bien_forme(),
    ensures
        frac(r) == frac(*a).fois(frac(*b)),
{
    a * b
}

/// `&Ratio / &Ratio`: the quotient, in lowest terms. The division panics on
/// a zero divisor, which the precondition excludes.
#[verifier::external_body]
fn ratio_quotient(a: &BigRational, b: &BigRational) -> (r: BigRational)
    requires
        frac(*a).bien_forme(),
        frac(*b).bien_forme(),
        frac(*b).num != 0,
    ensures
        frac(r) == frac(*a).sur(frac(*b)),
{
    a / b
}

/// `-&Ratio`: the numerator changes sign, the denominator stays.
#[verifier::external_body]
pub(crate) fn rat_oppose(a: &BigRational) -> (r: BigRational)
    ensures
        frac(r) == frac(*a).oppose(),
{
    -a
}

/// `Ratio == Ratio`: two rationals in lowest terms are equal exactly when
/// their numerators and their denominators are.
#[verifier::external_body]
pub(crate) fn rat_egal(a: &BigRational, b: &BigRational) -> (r: bool)
    requires
        frac(*a).bien_forme(),
        frac(*b).bien_forme(),
    ensures
        r == (frac(*a) == frac(*b)),
{
    a == b
}

/// The rational `n / d` in lowest terms, for a `d` that is not zero.
pub fn rat_nouveau(n: BigInt, d: BigInt) -> (r: BigRational)
    requires
        valeur(d) != 0,
    ensures
        frac(r) == reduite(valeur(n), valeur(d)),
        frac(r).bien_forme(),
{
    proof {
        lemme_reduite_bien_forme(valeur(n), valeur(d));
    }
    ratio_nouveau(n, d)
}

/// The rational `n / 1`.
pub fn rat_entier(n: BigInt) -> (r: BigRational)
    ensures
        frac(r) == Frac::entier(valeur(n)),
        frac(r).bien_forme(),
{
    proof {
        lemme_entier_bien_forme(valeur(n));
    }
    ratio_entier(n)
}

/// The sum of two rationals, in lowest terms.
pub fn rat_somme(a: &BigRational, b: &BigRational) -> (r: BigRational)
    requires
        frac(*a).bien_forme(),
        frac(*b).bien_forme(),
    ensures
        frac(r) == frac(*a).plus(frac(*b)),
        frac(r).bien_forme(),
{
    proof {
        lemme_operations_bien_formees(frac(*a), frac(*b));
    }
    ratio_somme(a, b)
}

/// The difference of two rationals, in lowest terms.
pub fn rat_difference(a: &BigRational, b: &BigRational) -> (r: BigRational)
    requires
        frac(*a).bien_forme(),
        frac(*b).bien_forme(),
    ensures
        frac(r) == frac(*a).moins(frac(*b)),
        frac(r).bien_forme(),
{
    proof {
        lemme_operations_bien_formees(frac(*a), frac(*b));
    }
    ratio_difference(a, b)
}

/// The product of two rationals, in lowest terms.
pub fn rat_produit(a: &BigRational, b: &BigRational) -> (r: BigRational)
    requires
        frac(*a).bien_forme(),
        frac(*b).bien_forme(),
    ensures
        frac(r) == frac(*a).fois(frac(*b)),
        frac(r).bien_forme(),
{
    proof {
        lemme_operations_bien_formees(frac(*a), frac(*b));
    }
    ratio_produit(a, b)
}

/// The quotient of two rationals, in lowest terms, for a divisor that is not
/// zero.
pub fn rat_quotient(a: &BigRational, b: &BigRational) -> (r: BigRational)
    requires
        frac(*a).bien_forme(),
        frac(*b).bien_forme(),
        frac(*b).num != 0,
    ensures
        frac(r) == frac(*a).sur(frac(*b)),
        frac(r).bien_forme(),
{
    proof {
        lemme_operations_bien_formees(frac(*a), frac(*b));
    }
    ratio_quotient(a, b)
}

/// The rational `n / 1`.
pub fn rat_de_i64(n: i64) -> (r: BigRational)
    ensures
        frac(r) == Frac::entier(n as int),
        frac(r).bien_forme(),
{
    rat_entier(big_de_i64(n))
}

/// The rational `n / d` in lowest terms.
pub fn rat_de_i64s(n: i64, d: i64) -> (r: BigRational)
    requires
        d != 0,
    ensures
        frac(r) == reduite(n as int, d as int),
        frac(r).bien_forme(),
{
    rat_nouveau(big_de_i64(n), big_de_i64(d))
}

/// Whether the rational is zero.
pub fn rat_est_zero(r: &BigRational) -> (b: bool)
    ensures
        b == frac(*r).est_zero(),
{
    big_est_zero(rat_numer(r))
}

/// Whether the rational is one.
pub fn rat_est_un(r: &BigRational) -> (b: bool)
    requires
        frac(*r).bien_forme(),
    ensures
        b == frac(*r).est_un(),
        b == (frac(*r) == Frac::entier(1)),
{
    proof {
        lemme_un(frac(*r));
    }
    big_est_un(rat_numer(r)) && big_est_un(rat_denom(r))
}

/// Whether the rational is strictly negative.
pub fn rat_est_negatif(r: &BigRational) -> (b: bool)
    requires
        frac(*r).bien_forme(),
    ensures
        b == frac(*r).est_negatif(),
{
    big_est_negatif(rat_numer(r))
}

/// Whether the rational is strictly positive.
pub fn rat_est_positif(r: &BigRational) -> (b: bool)
    requires
        frac(*r).bien_forme(),
    ensures
        b == frac(*r).est_positif(),
{
    let n = rat_numer(r);
    !big_est_negatif(n) && !big_est_zero(n)
}

/// Whether the rational is an integer.
pub fn rat_est_entier(r: &BigRational) -> (b: bool)
    ensures
        b == frac(*r).est_entier(),
{
    big_est_un(rat_denom(r))
}

/// A fraction in lowest terms whose numerator equals its denominator is 1/1.
pub proof fn lemme_un(f: Frac)
    requires
        f.bien_forme(),
    ensures
        f.est_un() <==> (f.num == 1 && f.den == 1),
{
    if f.num == f.den {
        let d = f.den as nat;
        assert(d % d == 0) by (nonlinear_arith)
            requires
                d > 0,
        ;
        assert(pgcd(d, d) == pgcd(d, 0)) by {
            reveal_with_fuel(pgcd, 2);
        }
    }
}

/// The opposite of a fraction in lowest terms is in lowest terms.
pub proof fn lemme_oppose(f: Frac)
    requires
        f.bien_forme(),
    ensures
        f.oppose().bien_forme(),
{
}

/// The greatest common divisor divides both numbers: the two quotients.
pub proof fn lemme_pgcd_divise(a: nat, b: nat) -> (k: (nat, nat))
    ensures
        a == pgcd(a, b) * k.0,
        b == pgcd(a, b) * k.1,
    decreases b,
{
    if b == 0 {
        assert(a == a * 1nat) by (nonlinear_arith);
        assert(0nat == a * 0nat) by (nonlinear_arith);
        (1, 0)
    } else {
        let g = pgcd(a, b);
        let (k1, k2) = lemme_pgcd_divise(b, a % b);
        let q = a / b;
        lemma_fundamental_div_mod(a as int, b as int);
        assert(a == g * (k1 * q + k2)) by (nonlinear_arith)
            requires
                a == b * q + a % b,
                b == g * k1,
                a % b == g * k2,
        ;
        (k1 * q + k2, k1)
    }
}

/// Every common divisor divides the greatest common divisor: the quotient.
pub proof fn lemme_pgcd_plus_grand(a: nat, b: nat, d: nat, x: nat, y: nat) -> (z: nat)
    requires
        d >= 1,
        a == d * x,
        b == d * y,
    ensures
        pgcd(a, b) == d * z,
    decreases b,
{
    if b == 0 {
        x
    } else {
        let q = a / b;
        let r = a % b;
        lemma_fundamental_div_mod(a as int, b as int);
        assert(r == d * (x - y * q)) by (nonlinear_arith)
            requires
                a == b * q + r,
                a == d * x,
                b == d * y,
        ;
        assert(x - y * q >= 0) by (nonlinear_arith)
            requires
                r == d * (x - y * q),
                r >= 0,
                d >= 1,
        ;
        lemme_pgcd_plus_grand(b, r, d, y, (x - y * q) as nat)
    }
}

/// The greatest common divisor of two numbers that are not both zero is
/// positive.
pub proof fn lemme_pgcd_positif(a: nat, b: nat)
    requires
        a > 0 || b > 0,
    ensures
        pgcd(a, b) > 0,
    decreases b,
{
    if b != 0 {
        lemme_pgcd_positif(b, a % b);
    }
}

/// Two numbers divided by their greatest common divisor have none left.
pub proof fn lemme_quotients_premiers(a: nat, b: nat, ka: nat, kb: nat)
    requires
        a > 0 || b > 0,
        a == pgcd(a, b) * ka,
        b == pgcd(a, b) * kb,
    ensures
        pgcd(ka, kb) == 1,
{
    let g = pgcd(a, b);
    lemme_pgcd_positif(a, b);
    assert(ka > 0 || kb > 0) by (nonlinear_arith)
        requires
            a > 0 || b > 0,
            a == g * ka,
            b == g * kb,
    ;
    let h = pgcd(ka, kb);
    lemme_pgcd_positif(ka, kb);
    let (u, v) = lemme_pgcd_divise(ka, kb);
    assert(a == (g * h) * u) by (nonlinear_arith)
        requires
            a == g * ka,
            ka == h * u,
    ;
    assert(b == (g * h) * v) by (nonlinear_arith)
        requires
            b == g * kb,
            kb == h * v,
    ;
    assert(g * h >= 1) by (nonlinear_arith)
        requires
            g > 0,
            h > 0,
    ;
    let z = lemme_pgcd_plus_grand(a, b, g * h, u, v);
    assert(h == 1) by (nonlinear_arith)
        requires
            g == (g * h) * z,
            g > 0,
            h > 0,
    ;
}

/// A product divided by one of its factors gives the other.
pub proof fn lemme_division_exacte(g: int, k: int)
    requires
        g > 0,
    ensures
        (g * k) / g == k,
        (g * k) % g == 0,
{
    assert(g * k == k * g + 0) by (nonlinear_arith);
    lemma_fundamental_div_mod_converse(g * k, g, k, 0);
}

/// A reduced fraction is in lowest terms with a positive denominator.
pub proof fn lemme_reduite_bien_forme(n: int, d: int)
    requires
        d != 0,
    ensures
        reduite(n, d).bien_forme(),
{
    let a = abs(n) as nat;
    let b = abs(d) as nat;
    let g = pgcd(a, b);
    lemme_pgcd_positif(a, b);
    let (ka, kb) = lemme_pgcd_divise(a, b);
    lemme_quotients_premiers(a, b, ka, kb);
    let gi = g as int;
    lemme_division_exacte(gi, ka as int);
    lemme_division_exacte(gi, kb as int);
    lemme_division_exacte(gi, -(ka as int));
    assert(gi * (-(ka as int)) == -(gi * (ka as int))) by (nonlinear_arith);
    assert(kb > 0) by (nonlinear_arith)
        requires
            b == g * kb,
            b > 0,
            g > 0,
    ;
    let r = reduite(n, d);
    assert(r.den == kb);
    assert(abs(r.num) == ka);
}

/// An integer over one is in lowest terms.
pub proof fn lemme_entier_bien_forme(n: int)
    ensures
        Frac::entier(n).bien_forme(),
{
    let a = abs(n) as nat;
    assert(a % 1 == 0);
    assert(pgcd(1, 0) == 1);
    assert(pgcd(a, 1) == pgcd(1, a % 1));
}

/// The four operations on fractions in lowest terms give fractions in lowest
/// terms.
pub proof fn lemme_operations_bien_formees(a: Frac, b: Frac)
    requires
        a.bien_forme(),
        b.bien_forme(),
    ensures
        a.plus(b).bien_forme(),
        a.moins(b).bien_forme(),
        a.fois(b).bien_forme(),
        b.num != 0 ==> a.sur(b).bien_forme(),
{
    assert(a.den * b.den != 0) by (nonlinear_arith)
        requires
            a.den > 0,
            b.den > 0,
    ;
    lemme_reduite_bien_forme(a.num * b.den + b.num * a.den, a.den * b.den);
    lemme_reduite_bien_forme(a.num * b.den - b.num * a.den, a.den * b.den);
    lemme_reduite_bien_forme(a.num * b.num, a.den * b.den);
    if b.num != 0 {
        assert(a.den * b.num != 0) by (nonlinear_arith)
            requires
                a.den > 0,
                b.num != 0,
        ;
        lemme_reduite_bien_forme(a.num * b.den, a.den * b.num);
    }
}

/// Adding zero changes nothing.
pub proof fn lemme_plus_zero(f: Frac)
    requires
        f.bien_forme(),
    ensures
        Frac::entier(0).plus(f) == f,
{
    assert(0 * f.den + f.num * 1 == f.num) by (nonlinear_arith);
    assert(1 * f.den == f.den) by (nonlinear_arith);
    lemme_reduite_fixe(f);
}

/// A common factor comes out of the greatest common divisor.
pub proof fn lemme_pgcd_echelle(m: nat, a: nat, b: nat)
    requires
        m >= 1,
    ensures
        pgcd(m * a, m * b) == m * pgcd(a, b),
    decreases b,
{
    if b == 0 {
        assert(m * b == 0) by (nonlinear_arith)
            requires
                b == 0,
        ;
    } else {
        lemma_truncate_middle(a as int, m as int, b as int);
        assert(m * b > 0);
        assert((m * a) % (m * b) == m * (a % b));
        lemme_pgcd_echelle(m, b, a % b);
    }
}

/// A fraction scaled by a positive factor reduces to the same fraction.
pub proof fn lemme_reduite_echelle(m: int, n: int, d: int)
    requires
        m >= 1,
        n >= 0,
        d > 0,
    ensures
        reduite(m * n, m * d) == reduite(n, d),
{
    let g = pgcd(n as nat, d as nat) as int;
    lemme_pgcd_echelle(m as nat, n as nat, d as nat);
    lemme_pgcd_positif(n as nat, d as nat);
    let (ka, kb) = lemme_pgcd_divise(n as nat, d as nat);
    assert(m * n >= 0 && m * d > 0 && m * g > 0) by (nonlinear_arith)
        requires
            m >= 1,
            n >= 0,
            d > 0,
            g > 0,
    ;
    assert(m * n == (m * g) * ka && m * d == (m * g) * kb) by (nonlinear_arith)
        requires
            n == g * ka,
            d == g * kb,
    ;
    lemme_division_exacte(m * g, ka as int);
    lemme_division_exacte(m * g, kb as int);
    lemme_division_exacte(g, ka as int);
    lemme_division_exacte(g, kb as int);
    assert(pgcd((m * n) as nat, (m * d) as nat) == m * g);
}

/// Reducing a fraction in lowest terms modulo `p` keeps its denominator:
/// the numerator is taken modulo `p` times the denominator, and nothing
/// cancels.
pub proof fn lemme_modulo_denominateur(q: Frac, p: int)
    requires
        q.bien_forme(),
        p >= 1,
    ensures
        q.modulo(p) == (Frac { num: q.num % (p * q.den), den: q.den }),
        q.modulo(p).bien_forme(),
        0 <= q.modulo(p).num < p * q.den,
{
    let n = q.num;
    let d = q.den;
    assert(p * d > 0) by (nonlinear_arith)
        requires
            p >= 1,
            d > 0,
    ;
    let a = n % (p * d);
    let k = n / (p * d);
    lemma_fundamental_div_mod(n, p * d);
    let g = pgcd(a as nat, d as nat);
    lemme_pgcd_positif(a as nat, d as nat);
    let (x, y) = lemme_pgcd_divise(a as nat, d as nat);
    let w = p * y * k + x;
    assert(n == g * w) by (nonlinear_arith)
        requires
            n == (p * d) * k + a,
            a == g * x,
            d == g * y,
            w == p * y * k + x,
    ;
    let z = abs(w) as nat;
    assert(abs(n) == g * z) by (nonlinear_arith)
        requires
            n == g * w,
            g > 0,
            z == abs(w),
            abs(n) == (if n < 0 {
                -n
            } else {
                n
            }),
            abs(w) == (if w < 0 {
                -w
            } else {
                w
            }),
    ;
    let zz = lemme_pgcd_plus_grand(abs(n) as nat, d as nat, g, z, y);
    assert(g == 1) by (nonlinear_arith)
        requires
            g >= 1,
            zz >= 0,
            1 == g * zz,
    ;
    let r = Frac { num: a, den: d };
    assert(r.bien_forme());
    lemme_reduite_fixe(r);
    if n == 0 {
        assert(pgcd(0, d as nat) == pgcd(d as nat, 0nat % (d as nat)));
        assert(pgcd(d as nat, 0) == d);
        assert(0int % (p * d) == 0);
    }
}

/// Reducing a fraction in lowest terms changes nothing.
pub proof fn lemme_reduite_fixe(f: Frac)
    requires
        f.bien_forme(),
    ensures
        reduite(f.num, f.den) == f,
{
    assert(abs(f.den) == f.den);
    assert(pgcd(abs(f.num) as nat, abs(f.den) as nat) == 1);
    assert(f.num / 1 == f.num);
    assert(f.den / 1 == f.den);
}

/// Zero is a fraction in lowest terms.
pub proof fn lemme_zero_bien_forme()
    ensures
        Frac::entier(0).bien_forme(),
        Frac::entier(1).bien_forme(),
{
    assert(pgcd(1, 0) == 1);
    assert(pgcd(0, 1) == pgcd(1, 0nat % 1nat));
    assert(pgcd(1, 1) == pgcd(1, 1nat % 1nat));
}

/// For a positive modulus, [`modulo_euclide`] is the mathematical remainder.
pub proof fn lemme_modulo_euclide(a: int, m: int)
    requires
        m > 0,
    ensures
        modulo_euclide(a, m) == a % m,
{
    if a >= 0 {
        lemma_fundamental_div_mod(a, m);
    } else {
        let q = (-a) / m;
        let r = (-a) % m;
        lemma_fundamental_div_mod(-a, m);
        assert(quotient(a, m) == -q);
        assert(m * (-q) == -(m * q)) by (nonlinear_arith);
        assert(reste(a, m) == a + m * q);
        if r == 0 {
            assert(a == (-q) * m + 0) by (nonlinear_arith)
                requires
                    -a == m * q + r,
                    r == 0,
            ;
            lemma_fundamental_div_mod_converse(a, m, -q, 0);
        } else {
            assert(a == (-q - 1) * m + (m - r)) by (nonlinear_arith)
                requires
                    -a == m * q + r,
            ;
            lemma_fundamental_div_mod_converse(a, m, -q - 1, m - r);
        }
    }
}

/// A power of a number that is not zero is not zero.
pub proof fn lemme_puissance_non_nulle(b: int, e: nat)
    requires
        b != 0,
    ensures
        pow(b, e) != 0,
    decreases e,
{
    reveal(pow);
    if e > 0 {
        lemme_puissance_non_nulle(b, (e - 1) as nat);
        assert(b * pow(b, (e - 1) as nat) != 0) by (nonlinear_arith)
            requires
                b != 0,
                pow(b, (e - 1) as nat) != 0,
        ;
    }
}

/// `a` modulo `m`, in `[0, m)` for a positive `m`.
pub fn mod_euclid_bigint(a: &BigInt, m: &BigInt) -> (r: BigInt)
    ensures
        valeur(r) == modulo_euclide(valeur(*a), valeur(*m)),
        valeur(*m) > 0 ==> valeur(r) == valeur(*a) % valeur(*m),
{
    if big_est_zero(m) {
        return big_copie(a);
    }
    proof {
        if valeur(*m) > 0 {
            lemme_modulo_euclide(valeur(*a), valeur(*m));
        }
    }
    let r = big_reste(a, m);
    if big_est_negatif(&r) {
        big_somme(&r, m)
    } else {
        r
    }
}

/// Reduces a coefficient modulo `periode`: the result lies in `[0, periode)`.
/// A period that is not positive leaves the coefficient as it is.
pub fn mod_rationnel(coeff: &BigRational, periode: i64) -> (r: BigRational)
    requires
        frac(*coeff).bien_forme(),
    ensures
        frac(r) == frac(*coeff).modulo(periode as int),
        frac(r).bien_forme(),
{
    if periode <= 0 {
        return rat_copie(coeff);
    }
    if rat_est_zero(coeff) {
        return rat_de_i64(0);
    }
    let d = big_copie(rat_denom(coeff));
    let p = big_de_i64(periode);
    let m = big_produit(&p, &d);
    assert(valeur(m) > 0) by (nonlinear_arith)
        requires
            valeur(m) == valeur(p) * valeur(d),
            valeur(p) > 0,
            valeur(d) > 0,
    ;
    let r = mod_euclid_bigint(rat_numer(coeff), &m);
    rat_nouveau(r, d)
}

/// The integer power of a rational, by square-and-multiply on numerator and
/// denominator. A negative exponent takes the reciprocal; of zero there is
/// none.
pub fn rational_pow_int(base: &BigRational, exp: i64) -> (r: Option<BigRational>)
    requires
        frac(*base).bien_forme(),
    ensures
        r is None <==> (exp < 0 && frac(*base).est_zero()),
        r matches Some(v) ==> frac(v) == frac(*base).puissance(exp as int) && frac(v).bien_forme(),
{
    let k: u64 = if exp >= 0 {
        exp as u64
    } else if exp == i64::MIN {
        9223372036854775808u64
    } else {
        (-exp) as u64
    };
    if exp < 0 && rat_est_zero(base) {
        return None;
    }
    let pn = big_puissance_rapide(rat_numer(base), k);
    let pd = big_puissance_rapide(rat_denom(base), k);
    proof {
        lemma_pow_positive(frac(*base).den, k as nat);
        if frac(*base).num != 0 {
            lemme_puissance_non_nulle(frac(*base).num, k as nat);
        }
    }
    if exp >= 0 {
        Some(rat_nouveau(pn, pd))
    } else {
        Some(rat_nouveau(pd, pn))
    }
}

/// The square root of a rational whose numerator and denominator are both
/// perfect squares.
pub fn rational_sqrt_exact(r: &BigRational) -> (s: Option<BigRational>)
    requires
        frac(*r).bien_forme(),
    ensures
        frac_opt(s) == frac(*r).racine_exacte(),
        s matches Some(v) ==> frac(v).bien_forme(),
{
    if rat_est_negatif(r) {
        return None;
    }
    match int_sqrt_exact(rat_numer(r)) {
        None => None,
        Some(sn) => match int_sqrt_exact(rat_denom(r)) {
            None => None,
            Some(sd) => {
                assert(valeur(sd) != 0) by (nonlinear_arith)
                    requires
                        valeur(sd) * valeur(sd) == frac(*r).den,
                        frac(*r).den > 0,
                ;
                Some(rat_nouveau(sn, sd))
            },
        },
    }
}

/// Writes a rational: `n` for an integer, `n/d` otherwise.
pub fn format_rat(r: &BigRational) -> (t: String)
    ensures
        t@ == texte_rat(frac(*r)),
{
    let n = big_texte(rat_numer(r));
    if big_est_un(rat_denom(r)) {
        n
    } else {
        let d = big_texte(rat_denom(r));
        let mut t = n;
        t.append("/");
        t.append(d.as_str());
        t
    }
}

} // verus!

//! The decimal reading: an expression as an integer scaled by a power of
//! ten, truncated, and that integer as decimal text.
//!
//! Every value is an integer that stands for `value · 10^digits`. Sums and
//! differences work on scaled integers as they are; a product is divided by
//! the scale once, a quotient multiplied by it once. π comes from Machin's
//! formula `π = 16·atan(1/5) − 4·atan(1/239)`, computed with ten guard
//! digits, and is kept in a [`CachePi`] for each number of digits that was
//! asked for.
use crate::entier::{
    abs, big_copie, big_de_i64, big_difference, big_est_negatif, big_est_zero, big_oppose,
    big_produit, big_quotient, big_reste, big_somme, big_texte, int_sqrt_floor, pow10, quotient,
    racine, reste, texte_entier, valeur,
};
use crate::expr::{simplifie, Expr, Terme};
use crate::rationnel::{frac, rat_denom, rat_est_negatif, rat_numer, rational_pow_int, Frac};
use num_bigint::BigInt;
use num_rational::BigRational;
use std::collections::HashMap;
use vstd::arithmetic::div_mod::{lemma_div_denominator, lemma_fundamental_div_mod};
use vstd::arithmetic::power::{lemma_pow_adds, pow};
use vstd::prelude::*;
use vstd::string::{StrSliceExecFns, StringExecFns};

verus! {

/// The guard digits of the computation of π.
pub const DIGITS_GARDE: usize = 10;

/// `10^d`.
pub open spec fn dix_puissance(d: nat) -> int {
    pow(10, d)
}

/// `n` zeros.
pub open spec fn zeros(n: nat) -> Seq<char>
    decreases n,
{
    if n == 0 {
        Seq::empty()
    } else {
        zeros((n - 1) as nat) + "0"@
    }
}

/// The text `s` with zeros in front up to the length `n`.
pub open spec fn complete(s: Seq<char>, n: nat) -> Seq<char> {
    if s.len() >= n {
        s
    } else {
        zeros((n - s.len()) as nat) + s
    }
}

/// The decimal text of the scaled integer `v`: the sign, the integer part,
/// and after a point the `digits` digits of the fraction, cut, not rounded.
pub open spec fn texte_decimal(v: int, digits: nat) -> Seq<char> {
    let signe = if v < 0 {
        "-"@
    } else {
        Seq::<char>::empty()
    };
    let entier = texte_entier(abs(v) / dix_puissance(digits));
    if digits == 0 {
        signe + entier
    } else {
        signe + entier + "."@ + complete(texte_entier(abs(v) % dix_puissance(digits)), digits)
    }
}

/// The scaled integer of a rational: `num · 10^d / den`, cut toward zero.
pub open spec fn echelle_rat(f: Frac, d: nat) -> int {
    quotient(f.num * dix_puissance(d), f.den)
}

/// The rest of the series of atan(1/q), scaled by `scale`, from the term of
/// odd index `impair` on: the terms `scale / (q^impair · impair)`, with
/// alternating signs, up to the first that is zero. `q_pow` is `q^impair`.
pub open spec fn serie_arctan(q: int, scale: int, q_pow: int, impair: int, positif: bool) -> int
    decreases scale / q_pow,
    when q >= 2 && q_pow >= 1 && impair >= 1 && scale >= 0
{
    let terme = scale / (q_pow * impair);
    if terme == 0 {
        0
    } else {
        proof {
            lemme_serie_decroit(q, scale, q_pow, impair);
        }
        let reste = serie_arctan(q, scale, q_pow * q * q, impair + 2, !positif);
        if positif {
            terme + reste
        } else {
            -terme + reste
        }
    }
}

/// Each further term of the series has a larger divisor.
pub proof fn lemme_serie_decroit(q: int, scale: int, q_pow: int, impair: int)
    requires
        q >= 2,
        q_pow >= 1,
        impair >= 1,
        scale >= 0,
        scale / (q_pow * impair) != 0,
    ensures
        q_pow * q * q >= 1,
        0 <= scale / (q_pow * q * q) < scale / q_pow,
{
    let c = q * q;
    assert(c >= 4) by (nonlinear_arith)
        requires
            q >= 2,
            c == q * q,
    ;
    assert(q_pow * q * q == q_pow * c) by (nonlinear_arith)
        requires
            c == q * q,
    ;
    assert(q_pow * c >= 1) by (nonlinear_arith)
        requires
            q_pow >= 1,
            c >= 4,
    ;
    lemma_div_denominator(scale, q_pow, c);
    lemma_div_denominator(scale, q_pow, impair);
    let y = scale / q_pow;
    assert(y >= 0) by (nonlinear_arith)
        requires
            y == scale / q_pow,
            scale >= 0,
            q_pow >= 1,
    ;
    assert(y != 0) by {
        if y == 0 {
            assert(0int / impair == 0) by (nonlinear_arith)
                requires
                    impair >= 1,
            ;
        }
    }
    assert(0 <= y / c < y) by (nonlinear_arith)
        requires
            y >= 1,
            c >= 4,
    ;
}

/// atan(1/q) scaled by `scale`, by its alternating power series.
pub open spec fn arctan_echelle(q: int, scale: int) -> int {
    serie_arctan(q, scale, q, 1, true)
}

/// π scaled by `10^d`: Machin's formula at `d + 10` digits, cut back to `d`.
pub open spec fn pi_echelle(d: nat) -> int {
    let scale = dix_puissance(d + DIGITS_GARDE as nat);
    quotient(
        16 * arctan_echelle(5, scale) - 4 * arctan_echelle(239, scale),
        dix_puissance(DIGITS_GARDE as nat),
    )
}

/// The scaled integer of the square root of a rational that is not
/// negative: the floor of `√(num/den) · 10^d`.
pub open spec fn echelle_racine(f: Frac, d: nat) -> int {
    racine((f.num * dix_puissance(2 * d)) / f.den)
}

/// The scaled integer of a term, or why it has none.
///
/// `Indefini` and variables have none. A power needs a rational base, a
/// square root a rational argument that is not negative. A trigonometric
/// node is simplified first and has a reading only if that leaves a rational
/// or π. A quotient by a scaled zero is a division by zero.
pub open spec fn lecture(t: Terme, d: nat) -> Result<int, Seq<char>>
    decreases t,
{
    match t {
        Terme::Indefini => Err("indéfini"@),
        Terme::Var(_) => Err("variable non évaluable (ΣLocal bloquée)"@),
        Terme::Rat(f) => Ok(echelle_rat(f, d)),
        Terme::Pi => Ok(pi_echelle(d)),
        Terme::Add(a, b) => match lecture(*a, d) {
            Err(e) => Err(e),
            Ok(sa) => match lecture(*b, d) {
                Err(e) => Err(e),
                Ok(sb) => Ok(sa + sb),
            },
        },
        Terme::Sub(a, b) => match lecture(*a, d) {
            Err(e) => Err(e),
            Ok(sa) => match lecture(*b, d) {
                Err(e) => Err(e),
                Ok(sb) => Ok(sa - sb),
            },
        },
        Terme::Mul(a, b) => match lecture(*a, d) {
            Err(e) => Err(e),
            Ok(sa) => match lecture(*b, d) {
                Err(e) => Err(e),
                Ok(sb) => Ok(quotient(sa * sb, dix_puissance(d))),
            },
        },
        Terme::Div(a, b) => match lecture(*a, d) {
            Err(e) => Err(e),
            Ok(sa) => match lecture(*b, d) {
                Err(e) => Err(e),
                Ok(sb) => if sb == 0 {
                    Err("division par zéro"@)
                } else {
                    Ok(quotient(sa * dix_puissance(d), sb))
                },
            },
        },
        Terme::PowInt(base, n) => match *base {
            Terme::Rat(f) => if n < 0 && f.est_zero() {
                Err("division par zéro"@)
            } else {
                Ok(echelle_rat(f.puissance(n as int), d))
            },
            _ => Err("puissance : base non rationnelle (à étendre)"@),
        },
        Terme::Sqrt(x) => match *x {
            Terme::Rat(f) => if f.est_negatif() {
                Err("√ : argument négatif"@)
            } else {
                Ok(echelle_racine(f, d))
            },
            _ => Err("√ : argument non rationnel (à étendre)"@),
        },
        Terme::Sin(_) | Terme::Cos(_) | Terme::Tan(_) => match simplifie(t) {
            Terme::Indefini => Err("indéfini"@),
            Terme::Var(_) => Err("variable non évaluable (ΣLocal bloquée)"@),
            Terme::Rat(f) => Ok(echelle_rat(f, d)),
            Terme::Pi => Ok(pi_echelle(d)),
            _ => Err("trig : angle non reconnu (angles spéciaux seulement)"@),
        },
    }
}

/// The model of what [`eval_scaled`] returns.
pub open spec fn vue_lecture(r: Result<BigInt, String>) -> Result<int, Seq<char>> {
    match r {
        Ok(v) => Ok(valeur(v)),
        Err(e) => Err(e@),
    }
}

/// `n` zeros.
fn texte_zeros(n: usize) -> (r: String)
    ensures
        r@ == zeros(n as nat),
{
    let mut r = String::new();
    let mut i: usize = 0;
    while i < n
        invariant
            i <= n,
            r@ == zeros(i as nat),
        decreases n - i,
    {
        r.append("0");
        i += 1;
    }
    r
}

/// Writes a scaled integer as decimal text with `digits` digits after the
/// point, cut, not rounded; see [`texte_decimal`].
pub fn scaled_to_decimal(scaled: BigInt, digits: usize) -> (r: String)
    ensures
        r@ == texte_decimal(valeur(scaled), digits as nat),
{
    let neg = big_est_negatif(&scaled);
    let positif = if neg {
        big_oppose(&scaled)
    } else {
        scaled
    };
    let scale = pow10(digits);
    let int_part = big_quotient(&positif, &scale);
    let frac_part = big_reste(&positif, &scale);
    proof {
        lemma_fundamental_div_mod(valeur(positif), valeur(scale));
        assert(valeur(scale) * (valeur(positif) / valeur(scale)) == (valeur(positif) / valeur(
            scale,
        )) * valeur(scale)) by (nonlinear_arith);
    }
    let mut r = if neg {
        String::from_str("-")
    } else {
        String::new()
    };
    proof {
        if !neg {
            assert(r@ =~= Seq::<char>::empty());
        }
    }
    r.append(big_texte(&int_part).as_str());
    if digits == 0 {
        return r;
    }
    let frac = big_texte(&frac_part);
    let n = frac.as_str().unicode_len();
    r.append(".");
    if n < digits {
        r.append(texte_zeros(digits - n).as_str());
        proof {
            let z = zeros((digits - n) as nat);
            let debut = (if neg {
                "-"@
            } else {
                Seq::<char>::empty()
            }) + texte_entier(valeur(int_part)) + "."@;
            assert(debut + z + frac@ =~= debut + (z + frac@));
        }
    }
    r.append(frac.as_str());
    r
}

/// The scaled integer of a rational.
fn rational_scaled(r: &BigRational, digits: usize) -> (v: BigInt)
    requires
        frac(*r).bien_forme(),
    ensures
        valeur(v) == echelle_rat(frac(*r), digits as nat),
{
    let scale = pow10(digits);
    let n = big_produit(rat_numer(r), &scale);
    big_quotient(&n, rat_denom(r))
}

/// atan(1/q) scaled by `scale`, by its alternating power series; a term
/// that scales to zero ends the series.
fn arctan_inv_q_scaled(q: i64, scale: &BigInt) -> (r: BigInt)
    requires
        q >= 2,
        valeur(*scale) >= 0,
    ensures
        valeur(r) == arctan_echelle(q as int, valeur(*scale)),
{
    let q = big_de_i64(q);
    let deux = big_de_i64(2);
    let mut impair = big_de_i64(1);
    let mut sign_pos = true;
    let mut q_pow = big_copie(&q);
    let mut sum = big_de_i64(0);
    loop
        invariant
            valeur(q) >= 2,
            valeur(deux) == 2,
            valeur(*scale) >= 0,
            valeur(q_pow) >= 1,
            valeur(impair) >= 1,
            valeur(sum) + serie_arctan(
                valeur(q),
                valeur(*scale),
                valeur(q_pow),
                valeur(impair),
                sign_pos,
            ) == arctan_echelle(valeur(q), valeur(*scale)),
        ensures
            valeur(sum) == arctan_echelle(valeur(q), valeur(*scale)),
        decreases valeur(*scale) / valeur(q_pow),
    {
        let d = big_produit(&q_pow, &impair);
        proof {
            assert(valeur(d) >= 1) by (nonlinear_arith)
                requires
                    valeur(d) == valeur(q_pow) * valeur(impair),
                    valeur(q_pow) >= 1,
                    valeur(impair) >= 1,
            ;
        }
        let term = big_quotient(scale, &d);
        if big_est_zero(&term) {
            break ;
        }
        proof {
            lemme_serie_decroit(valeur(q), valeur(*scale), valeur(q_pow), valeur(impair));
        }
        if sign_pos {
            sum = big_somme(&sum, &term);
        } else {
            sum = big_difference(&sum, &term);
        }
        q_pow = big_produit(&q_pow, &q);
        q_pow = big_produit(&q_pow, &q);
        impair = big_somme(&impair, &deux);
        sign_pos = !sign_pos;
    }
    sum
}

/// π scaled by `10^digits`; see [`pi_echelle`].
pub fn pi_scaled_compute(digits: usize) -> (r: BigInt)
    ensures
        valeur(r) == pi_echelle(digits as nat),
{
    let garde = pow10(DIGITS_GARDE);
    let scale = big_produit(&pow10(digits), &garde);
    proof {
        lemma_pow_adds(10, digits as nat, DIGITS_GARDE as nat);
        assert(valeur(scale) > 0) by (nonlinear_arith)
            requires
                valeur(scale) == pow(10, digits as nat) * valeur(garde),
                pow(10, digits as nat) > 0,
                valeur(garde) > 0,
        ;
    }
    let a = arctan_inv_q_scaled(5, &scale);
    let b = arctan_inv_q_scaled(239, &scale);
    let seize = big_de_i64(16);
    let quatre = big_de_i64(4);
    let pi = big_difference(&big_produit(&seize, &a), &big_produit(&quatre, &b));
    big_quotient(&pi, &garde)
}

/// The values of π already computed, by number of digits. Entries are only
/// ever added.
pub struct CachePi {
    table: HashMap<usize, BigInt>,
}

impl CachePi {
    /// Every entry is π at the number of digits of its key.
    pub closed spec fn valide(&self) -> bool {
        forall|d: usize| #[trigger]
            self.table@.contains_key(d) ==> valeur(self.table@[d]) == pi_echelle(d as nat)
    }

    /// The numbers of digits for which π is known.
    pub closed spec fn connus(&self) -> Set<usize> {
        self.table@.dom()
    }

    /// An empty cache.
    pub fn new() -> (c: CachePi)
        ensures
            c.valide(),
            c.connus() == Set::<usize>::empty(),
    {
        CachePi { table: HashMap::new() }
    }

    /// Whether π is known at this number of digits.
    pub fn connait(&self, digits: usize) -> (b: bool)
        ensures
            b == self.connus().contains(digits),
    {
        broadcast use vstd::std_specs::hash::group_hash_axioms;

        self.table.contains_key(&digits)
    }

    /// π scaled by `10^digits`: from the cache where it is known, computed
    /// and recorded where it is not.
    pub fn pi_scaled_cached(&mut self, digits: usize) -> (r: BigInt)
        requires
            old(self).valide(),
        ensures
            final(self).valide(),
            final(self).connus() == old(self).connus().insert(digits),
            valeur(r) == pi_echelle(digits as nat),
    {
        broadcast use vstd::std_specs::hash::group_hash_axioms;

        if let Some(v) = self.table.get(&digits) {
            let r = big_copie(v);
            assert(self.connus() =~= old(self).connus().insert(digits));
            return r;
        }
        let v = pi_scaled_compute(digits);
        self.table.insert(digits, big_copie(&v));
        v
    }
}

/// The scaled integer of the square root of a rational that is not
/// negative: the floor of `√(num/den) · 10^digits`.
fn rational_sqrt_scaled(r: &BigRational, digits: usize) -> (v: BigInt)
    requires
        frac(*r).bien_forme(),
        !frac(*r).est_negatif(),
    ensures
        valeur(v) == echelle_racine(frac(*r), digits as nat),
{
    let scale = pow10(digits);
    let scale2 = big_produit(&scale, &scale);
    proof {
        lemma_pow_adds(10, digits as nat, digits as nat);
        assert(valeur(scale2) > 0) by (nonlinear_arith)
            requires
                valeur(scale2) == valeur(scale) * valeur(scale),
                valeur(scale) > 0,
        ;
    }
    let target = big_produit(rat_numer(r), &scale2);
    proof {
        assert(valeur(target) >= 0) by (nonlinear_arith)
            requires
                valeur(target) == frac(*r).num * valeur(scale2),
                frac(*r).num >= 0,
                valeur(scale2) > 0,
        ;
        lemma_fundamental_div_mod(valeur(target), frac(*r).den);
        assert(valeur(target) / frac(*r).den >= 0) by (nonlinear_arith)
            requires
                valeur(target) >= 0,
                frac(*r).den > 0,
        ;
    }
    let n = big_quotient(&target, rat_denom(r));
    int_sqrt_floor(&n)
}

/// Evaluates an expression as an integer scaled by `10^digits`, with π
/// taken from `cache`; see [`lecture`]. The cache keeps what it held and
/// gains at most π at `digits`.
pub fn eval_scaled_avec_cache(expr: &Expr, digits: usize, cache: &mut CachePi) -> (r: Result<
    BigInt,
    String,
>)
    requires
        expr@.bien_forme(),
        old(cache).valide(),
    ensures
        vue_lecture(r) == lecture(expr@, digits as nat),
        final(cache).valide(),
        old(cache).connus().subset_of(final(cache).connus()),
        final(cache).connus().subset_of(old(cache).connus().insert(digits)),
    decreases expr,
{
    proof {
        reveal_with_fuel(Expr::vue, 2);
        reveal_with_fuel(Terme::bien_forme, 2);
    }
    match expr {
        Expr::Indefini => Err(String::from_str("indéfini")),
        Expr::Var(_) => Err(String::from_str("variable non évaluable (ΣLocal bloquée)")),
        Expr::Rat(q) => Ok(rational_scaled(q, digits)),
        Expr::Pi => Ok(cache.pi_scaled_cached(digits)),
        Expr::Add(a, b) => {
            let sa = match eval_scaled_avec_cache(&**a, digits, cache) {
                Ok(v) => v,
                Err(e) => {
                    return Err(e);
                },
            };
            let sb = match eval_scaled_avec_cache(&**b, digits, cache) {
                Ok(v) => v,
                Err(e) => {
                    return Err(e);
                },
            };
            Ok(big_somme(&sa, &sb))
        },
        Expr::Sub(a, b) => {
            let sa = match eval_scaled_avec_cache(&**a, digits, cache) {
                Ok(v) => v,
                Err(e) => {
                    return Err(e);
                },
            };
            let sb = match eval_scaled_avec_cache(&**b, digits, cache) {
                Ok(v) => v,
                Err(e) => {
                    return Err(e);
                },
            };
            Ok(big_difference(&sa, &sb))
        },
        Expr::Mul(a, b) => {
            let sa = match eval_scaled_avec_cache(&**a, digits, cache) {
                Ok(v) => v,
                Err(e) => {
                    return Err(e);
                },
            };
            let sb = match eval_scaled_avec_cache(&**b, digits, cache) {
                Ok(v) => v,
                Err(e) => {
                    return Err(e);
                },
            };
            let scale = pow10(digits);
            Ok(big_quotient(&big_produit(&sa, &sb), &scale))
        },
        Expr::Div(a, b) => {
            let sa = match eval_scaled_avec_cache(&**a, digits, cache) {
                Ok(v) => v,
                Err(e) => {
                    return Err(e);
                },
            };
            let sb = match eval_scaled_avec_cache(&**b, digits, cache) {
                Ok(v) => v,
                Err(e) => {
                    return Err(e);
                },
            };
            if big_est_zero(&sb) {
                return Err(String::from_str("division par zéro"));
            }
            let scale = pow10(digits);
            Ok(big_quotient(&big_produit(&sa, &scale), &sb))
        },
        Expr::PowInt(base, n) => match &**base {
            Expr::Rat(q) => match rational_pow_int(q, *n) {
                Some(p) => Ok(rational_scaled(&p, digits)),
                None => Err(String::from_str("division par zéro")),
            },
            _ => Err(String::from_str("puissance : base non rationnelle (à étendre)")),
        },
        Expr::Sqrt(x) => match &**x {
            Expr::Rat(q) => {
                if rat_est_negatif(q) {
                    return Err(String::from_str("√ : argument négatif"));
                }
                Ok(rational_sqrt_scaled(q, digits))
            },
            _ => Err(String::from_str("√ : argument non rationnel (à étendre)")),
        },
        Expr::Sin(_) | Expr::Cos(_) | Expr::Tan(_) => {
            let simp = expr.clone().simplify();
            match simp {
                Expr::Indefini => Err(String::from_str("indéfini")),
                Expr::Var(_) => Err(String::from_str("variable non évaluable (ΣLocal bloquée)")),
                Expr::Rat(q) => Ok(rational_scaled(&q, digits)),
                Expr::Pi => Ok(cache.pi_scaled_cached(digits)),
                _ => Err(String::from_str("trig : angle non reconnu (angles spéciaux seulement)")),
            }
        },
    }
}

/// Evaluates an expression as an integer scaled by `10^digits`; see
/// [`lecture`].
pub fn eval_scaled(expr: &Expr, digits: usize) -> (r: Result<BigInt, String>)
    requires
        expr@.bien_forme(),
    ensures
        vue_lecture(r) == lecture(expr@, digits as nat),
{
    let mut cache = CachePi::new();
    eval_scaled_avec_cache(expr, digits, &mut cache)
}

} // verus!

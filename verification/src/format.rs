//! Text for display: the readable form of an expression and the final
//! exact form.
use crate::entier::{big_est_un, big_est_zero, big_texte, texte_entier, valeur};
use crate::expr::{coeff_pi, Expr, Terme};
use crate::rationnel::{
    format_rat, frac, rat_denom, rat_est_entier, rat_numer, rat_quotient, texte_rat, Frac,
};
use num_bigint::BigInt;
use num_rational::BigRational;
use vstd::prelude::*;
use vstd::string::StringExecFns;

verus! {

/// `√n`.
pub open spec fn texte_racine(n: int) -> Seq<char> {
    "√"@ + texte_entier(n)
}

/// `(p/q)·√n` as `p√n/q`: the sign stays in front, a numerator of one is
/// not written, nor a denominator of one.
pub open spec fn texte_rat_racine(f: Frac, n: int) -> Seq<char> {
    if f.num == 0 {
        "0"@
    } else if f.num == 1 {
        if f.den == 1 {
            texte_racine(n)
        } else {
            texte_racine(n) + "/"@ + texte_entier(f.den)
        }
    } else if f.num == -1 {
        if f.den == 1 {
            "-"@ + texte_racine(n)
        } else {
            "-"@ + texte_racine(n) + "/"@ + texte_entier(f.den)
        }
    } else if f.den == 1 {
        texte_entier(f.num) + texte_racine(n)
    } else {
        texte_entier(f.num) + texte_racine(n) + "/"@ + texte_entier(f.den)
    }
}

/// `c·π`: `0`, `π`, `-π`, `kπ`, `π/d`, `-π/d` or `kπ/d`.
pub open spec fn texte_coeff_pi(c: Frac) -> Seq<char> {
    if c.num == 0 {
        "0"@
    } else if c.den == 1 && c.num == 1 {
        "π"@
    } else if c.den == 1 && c.num == -1 {
        "-π"@
    } else if c.den == 1 {
        texte_entier(c.num) + "π"@
    } else if c.num == 1 {
        "π/"@ + texte_entier(c.den)
    } else if c.num == -1 {
        "-π/"@ + texte_entier(c.den)
    } else {
        texte_entier(c.num) + "π/"@ + texte_entier(c.den)
    }
}

/// Whether the term is the square root of an integer.
pub open spec fn est_racine_entier(t: Terme) -> bool {
    t matches Terme::Sqrt(x) && (*x matches Terme::Rat(f) && f.est_entier())
}

/// The integer under the square root.
pub open spec fn entier_sous_racine(t: Terme) -> int
    recommends
        est_racine_entier(t),
{
    t->Sqrt_0->Rat_0.num
}

/// Whether the term is the product of a rational and the square root of an
/// integer, in either order.
pub open spec fn est_rat_fois_racine(t: Terme) -> bool {
    t matches Terme::Mul(a, b) && ((*a is Rat && est_racine_entier(*b)) || (est_racine_entier(*a)
        && *b is Rat))
}

/// The rational factor of such a product.
pub open spec fn facteur_rat(t: Terme) -> Frac
    recommends
        est_rat_fois_racine(t),
{
    if *t->Mul_0 is Rat && est_racine_entier(*t->Mul_1) {
        t->Mul_0->Rat_0
    } else {
        t->Mul_1->Rat_0
    }
}

/// The integer under the square root of such a product.
pub open spec fn facteur_racine(t: Terme) -> int
    recommends
        est_rat_fois_racine(t),
{
    if *t->Mul_0 is Rat && est_racine_entier(*t->Mul_1) {
        entier_sous_racine(*t->Mul_1)
    } else {
        entier_sous_racine(*t->Mul_0)
    }
}

/// The readable form of a term.
///
/// A rational is `n` or `n/d`; the square root of an integer is `√n`; the
/// product of a rational and such a root is `p√n/q`; a quotient by an integer
/// is written without parentheses round the integer; `0 - x` is `-x`, with
/// parentheses only where `x` is a sum or a difference.
pub open spec fn texte_joli(t: Terme) -> Seq<char>
    decreases t,
{
    match t {
        Terme::Indefini => "indéfini"@,
        Terme::Rat(f) => texte_rat(f),
        Terme::Pi => "π"@,
        Terme::Var(s) => s,
        Terme::Sqrt(x) => if est_racine_entier(t) {
            texte_racine(entier_sous_racine(t))
        } else {
            "√("@ + texte_joli(*x) + ")"@
        },
        Terme::PowInt(x, n) => "("@ + texte_joli(*x) + ")^"@ + texte_entier(n as int),
        Terme::Sin(x) => "sin("@ + texte_joli(*x) + ")"@,
        Terme::Cos(x) => "cos("@ + texte_joli(*x) + ")"@,
        Terme::Tan(x) => "tan("@ + texte_joli(*x) + ")"@,
        Terme::Mul(a, b) => if est_rat_fois_racine(t) {
            texte_rat_racine(facteur_rat(t), facteur_racine(t))
        } else {
            "("@ + texte_joli(*a) + "*"@ + texte_joli(*b) + ")"@
        },
        Terme::Div(a, b) => if (*b matches Terme::Rat(k) && k.est_entier()) {
            let k = b->Rat_0;
            if est_racine_entier(*a) {
                texte_racine(entier_sous_racine(*a)) + "/"@ + texte_entier(k.num)
            } else if est_rat_fois_racine(*a) && !k.est_zero() {
                texte_rat_racine(facteur_rat(*a).sur(k), facteur_racine(*a))
            } else {
                texte_joli(*a) + "/"@ + texte_entier(k.num)
            }
        } else {
            texte_joli(*a) + "/"@ + texte_joli(*b)
        },
        Terme::Add(a, b) => "("@ + texte_joli(*a) + "+"@ + texte_joli(*b) + ")"@,
        Terme::Sub(a, b) => if a.est_zero() {
            if *b is Add || *b is Sub {
                "-("@ + texte_joli(*b) + ")"@
            } else {
                "-"@ + texte_joli(*b)
            }
        } else {
            "("@ + texte_joli(*a) + "-"@ + texte_joli(*b) + ")"@
        },
    }
}

/// The final exact form: `indéfini`; the form `c·π` where the whole term is
/// read as a rational multiple of π; the readable form otherwise.
pub open spec fn texte_exact(t: Terme) -> Seq<char> {
    if t is Indefini {
        "indéfini"@
    } else {
        match coeff_pi(t) {
            Some(c) => texte_coeff_pi(c),
            None => texte_joli(t),
        }
    }
}

/// The plain form of a term, every operation in parentheses.
pub open spec fn texte_brut(t: Terme) -> Seq<char>
    decreases t,
{
    match t {
        Terme::Rat(f) => texte_rat(f),
        Terme::Pi => "π"@,
        Terme::Indefini => "indéfini"@,
        Terme::Var(s) => s,
        Terme::Sqrt(x) => "√("@ + texte_brut(*x) + ")"@,
        Terme::PowInt(x, n) => "("@ + texte_brut(*x) + ")^"@ + texte_entier(n as int),
        Terme::Sin(x) => "sin("@ + texte_brut(*x) + ")"@,
        Terme::Cos(x) => "cos("@ + texte_brut(*x) + ")"@,
        Terme::Tan(x) => "tan("@ + texte_brut(*x) + ")"@,
        Terme::Add(a, b) => "("@ + texte_brut(*a) + "+"@ + texte_brut(*b) + ")"@,
        Terme::Sub(a, b) => "("@ + texte_brut(*a) + "-"@ + texte_brut(*b) + ")"@,
        Terme::Mul(a, b) => "("@ + texte_brut(*a) + "*"@ + texte_brut(*b) + ")"@,
        Terme::Div(a, b) => "("@ + texte_brut(*a) + "/"@ + texte_brut(*b) + ")"@,
    }
}

/// Writes `√n`.
fn format_sqrt_of_int(n: &BigInt) -> (r: String)
    ensures
        r@ == texte_racine(valeur(*n)),
{
    let mut r = String::from_str("√");
    r.append(big_texte(n).as_str());
    r
}

/// `avant + milieu + apres`.
fn entoure(avant: &str, milieu: &str, apres: &str) -> (r: String)
    ensures
        r@ == avant@ + milieu@ + apres@,
{
    let mut r = String::from_str(avant);
    r.append(milieu);
    r.append(apres);
    r
}

/// `avant + a + milieu + b + apres`.
fn entoure2(avant: &str, a: &str, milieu: &str, b: &str, apres: &str) -> (r: String)
    ensures
        r@ == avant@ + a@ + milieu@ + b@ + apres@,
{
    let mut r = String::from_str(avant);
    r.append(a);
    r.append(milieu);
    r.append(b);
    r.append(apres);
    r
}

/// Writes `(p/q)·√n` as `p√n/q`.
fn format_mul_rat_sqrt(r: &BigRational, n: &BigInt) -> (t: String)
    ensures
        t@ == texte_rat_racine(frac(*r), valeur(*n)),
{
    let p = rat_numer(r);
    let q = rat_denom(r);
    if big_est_zero(p) {
        return String::from_str("0");
    }
    let racine = format_sqrt_of_int(n);
    let tq = big_texte(q);
    let un = crate::entier::big_de_i64(1);
    let moins_un = crate::entier::big_de_i64(-1);
    if crate::entier::big_egal(p, &un) {
        if big_est_un(q) {
            return racine;
        }
        let mut t = racine;
        t.append("/");
        t.append(tq.as_str());
        return t;
    }
    if crate::entier::big_egal(p, &moins_un) {
        let mut t = String::from_str("-");
        t.append(racine.as_str());
        if big_est_un(q) {
            return t;
        }
        t.append("/");
        t.append(tq.as_str());
        return t;
    }
    let mut t = big_texte(p);
    t.append(racine.as_str());
    if big_est_un(q) {
        return t;
    }
    t.append("/");
    t.append(tq.as_str());
    t
}

/// The integer under a square root of an integer.
fn as_sqrt_of_int(e: &Expr) -> (r: Option<&BigInt>)
    ensures
        r is Some <==> est_racine_entier(e@),
        r matches Some(n) ==> valeur(*n) == entier_sous_racine(e@),
{
    proof {
        reveal_with_fuel(Expr::vue, 3);
    }
    if let Expr::Sqrt(inner) = e {
        if let Expr::Rat(q) = &**inner {
            if rat_est_entier(q) {
                return Some(rat_numer(q));
            }
        }
    }
    None
}

/// The parts of a product of a rational and a square root of an integer.
fn as_mul_rat_sqrt(e: &Expr) -> (r: Option<(&BigRational, &BigInt)>)
    requires
        e@.bien_forme(),
    ensures
        r is Some <==> est_rat_fois_racine(e@),
        r matches Some(p) ==> frac(*p.0) == facteur_rat(e@) && valeur(*p.1) == facteur_racine(e@)
            && frac(*p.0).bien_forme(),
{
    proof {
        reveal_with_fuel(Expr::vue, 4);
        reveal_with_fuel(Terme::bien_forme, 4);
    }
    if let Expr::Mul(a, b) = e {
        if let Expr::Rat(q) = &**a {
            if let Some(n) = as_sqrt_of_int(&**b) {
                return Some((q, n));
            }
        }
        if let Some(n) = as_sqrt_of_int(&**a) {
            if let Expr::Rat(q) = &**b {
                return Some((q, n));
            }
        }
    }
    None
}

/// Writes the coefficient `c` of `c·π`: `π/2`, `3π/2`, `-2π`, ...
pub fn format_coeff_pi(coeff: &BigRational) -> (r: String)
    ensures
        r@ == texte_coeff_pi(frac(*coeff)),
{
    let n = rat_numer(coeff);
    let d = rat_denom(coeff);
    if big_est_zero(n) {
        return String::from_str("0");
    }
    let un = crate::entier::big_de_i64(1);
    let moins_un = crate::entier::big_de_i64(-1);
    let n_un = crate::entier::big_egal(n, &un);
    let n_moins_un = crate::entier::big_egal(n, &moins_un);
    if big_est_un(d) {
        if n_un {
            return String::from_str("π");
        }
        if n_moins_un {
            return String::from_str("-π");
        }
        let mut r = big_texte(n);
        r.append("π");
        return r;
    }
    let td = big_texte(d);
    if n_un {
        let mut r = String::from_str("π/");
        r.append(td.as_str());
        return r;
    }
    if n_moins_un {
        let mut r = String::from_str("-π/");
        r.append(td.as_str());
        return r;
    }
    let mut r = big_texte(n);
    r.append("π/");
    r.append(td.as_str());
    r
}

/// Writes the readable form of an expression; see [`texte_joli`].
pub fn format_expr_pretty(e: &Expr) -> (r: String)
    requires
        e@.bien_forme(),
    ensures
        r@ == texte_joli(e@),
    decreases e,
{
    proof {
        reveal_with_fuel(Expr::vue, 2);
        reveal_with_fuel(Terme::bien_forme, 2);
    }
    match e {
        Expr::Indefini => String::from_str("indéfini"),
        Expr::Rat(q) => format_rat(q),
        Expr::Pi => String::from_str("π"),
        Expr::Var(s) => s.clone(),
        Expr::Sqrt(x) => {
            if let Some(n) = as_sqrt_of_int(e) {
                return format_sqrt_of_int(n);
            }
            entoure("√(", format_expr_pretty(&**x).as_str(), ")")
        },
        Expr::PowInt(x, n) => {
            let tn = big_texte(&crate::entier::big_de_i64(*n));
            let mut r = entoure("(", format_expr_pretty(&**x).as_str(), ")^");
            r.append(tn.as_str());
            r
        },
        Expr::Sin(x) => entoure("sin(", format_expr_pretty(&**x).as_str(), ")"),
        Expr::Cos(x) => entoure("cos(", format_expr_pretty(&**x).as_str(), ")"),
        Expr::Tan(x) => entoure("tan(", format_expr_pretty(&**x).as_str(), ")"),
        Expr::Mul(a, b) => {
            if let Some((q, n)) = as_mul_rat_sqrt(e) {
                return format_mul_rat_sqrt(q, n);
            }
            entoure2(
                "(",
                format_expr_pretty(&**a).as_str(),
                "*",
                format_expr_pretty(&**b).as_str(),
                ")",
            )
        },
        Expr::Div(a, b) => {
            if let Expr::Rat(rden) = &**b {
                if rat_est_entier(rden) {
                    let k = rat_numer(rden);
                    let tk = big_texte(k);
                    if let Some(n) = as_sqrt_of_int(&**a) {
                        let mut r = format_sqrt_of_int(n);
                        r.append("/");
                        r.append(tk.as_str());
                        return r;
                    }
                    if !big_est_zero(k) {
                        if let Some((q, n)) = as_mul_rat_sqrt(&**a) {
                            let rk = rat_quotient(q, rden);
                            return format_mul_rat_sqrt(&rk, n);
                        }
                    }
                    let mut r = format_expr_pretty(&**a);
                    r.append("/");
                    r.append(tk.as_str());
                    return r;
                }
            }
            let mut r = format_expr_pretty(&**a);
            r.append("/");
            r.append(format_expr_pretty(&**b).as_str());
            r
        },
        Expr::Add(a, b) => entoure2(
            "(",
            format_expr_pretty(&**a).as_str(),
            "+",
            format_expr_pretty(&**b).as_str(),
            ")",
        ),
        Expr::Sub(a, b) => {
            if (**a).est_zero() {
                let sb = format_expr_pretty(&**b);
                match &**b {
                    Expr::Add(_, _) | Expr::Sub(_, _) => entoure("-(", sb.as_str(), ")"),
                    _ => {
                        let mut r = String::from_str("-");
                        r.append(sb.as_str());
                        r
                    },
                }
            } else {
                entoure2(
                    "(",
                    format_expr_pretty(&**a).as_str(),
                    "-",
                    format_expr_pretty(&**b).as_str(),
                    ")",
                )
            }
        },
    }
}

/// Writes the final exact form; see [`texte_exact`].
pub fn format_exact_final(expr_simplifie: &Expr) -> (r: String)
    requires
        expr_simplifie@.bien_forme(),
    ensures
        r@ == texte_exact(expr_simplifie@),
{
    if expr_simplifie.est_indefini() {
        return String::from_str("indéfini");
    }
    if let Some(c) = expr_simplifie.as_coeff_pi() {
        return format_coeff_pi(&c);
    }
    format_expr_pretty(expr_simplifie)
}

impl Expr {
    /// Writes the plain form of the expression, every operation in
    /// parentheses.
    pub fn texte(&self) -> (r: String)
        ensures
            r@ == texte_brut(self@),
        decreases self,
    {
        match self {
            Expr::Rat(q) => format_rat(q),
            Expr::Pi => String::from_str("π"),
            Expr::Indefini => String::from_str("indéfini"),
            Expr::Var(s) => s.clone(),
            Expr::Sqrt(x) => entoure("√(", (**x).texte().as_str(), ")"),
            Expr::PowInt(x, n) => {
                let tn = big_texte(&crate::entier::big_de_i64(*n));
                let mut r = entoure("(", (**x).texte().as_str(), ")^");
                r.append(tn.as_str());
                r
            },
            Expr::Sin(x) => entoure("sin(", (**x).texte().as_str(), ")"),
            Expr::Cos(x) => entoure("cos(", (**x).texte().as_str(), ")"),
            Expr::Tan(x) => entoure("tan(", (**x).texte().as_str(), ")"),
            Expr::Add(a, b) => entoure2(
                "(",
                (**a).texte().as_str(),
                "+",
                (**b).texte().as_str(),
                ")",
            ),
            Expr::Sub(a, b) => entoure2(
                "(",
                (**a).texte().as_str(),
                "-",
                (**b).texte().as_str(),
                ")",
            ),
            Expr::Mul(a, b) => entoure2(
                "(",
                (**a).texte().as_str(),
                "*",
                (**b).texte().as_str(),
                ")",
            ),
            Expr::Div(a, b) => entoure2(
                "(",
                (**a).texte().as_str(),
                "/",
                (**b).texte().as_str(),
                ")",
            ),
        }
    }
}

} // verus!

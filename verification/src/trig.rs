//! Special angles: the exact values of sin, cos and tan at the multiples of
//! π/6 and π/4.
use crate::entier::{abs, big_de_i64, big_texte, big_vers_i64, texte_entier};
use crate::expr::{
    coeff_pi_borne, coeff_pi_ext, lemme_coeff_pi_borne, noeuds_lineaires, Expr, Terme,
};
use crate::rationnel::{
    frac, lemme_modulo_denominateur, lemme_pgcd_positif, lemme_reduite_bien_forme,
    lemme_reduite_echelle, lemme_reduite_fixe, lemme_zero_bien_forme, mod_rationnel, pgcd,
    rat_de_i64s, rat_denom, rat_numer, reduite, Frac,
};
use num_rational::BigRational;
use vstd::arithmetic::div_mod::{
    lemma_fundamental_div_mod_converse, lemma_mod_mod, lemma_small_mod,
};
use vstd::prelude::*;
use vstd::string::StringExecFns;

verus! {

/// One of the three trigonometric functions.
#[derive(Clone, Copy, Debug)]
pub enum TrigFn {
    Sin,
    Cos,
    Tan,
}

/// What the table gives for an angle: an exact value or "not defined", each
/// with the line that states it.
#[derive(Clone, Debug)]
pub enum TrigOutcome {
    Valeur(Expr, String),
    Indefini(String),
}

/// The mathematical model of a [`TrigOutcome`].
pub enum Issue {
    Valeur(Terme, Seq<char>),
    Indefini(Seq<char>),
}

impl View for TrigOutcome {
    type V = Issue;

    open spec fn view(&self) -> Issue {
        match self {
            TrigOutcome::Valeur(e, p) => Issue::Valeur(e@, p@),
            TrigOutcome::Indefini(p) => Issue::Indefini(p@),
        }
    }
}

/// The model of an optional outcome.
pub open spec fn vue_issue(o: Option<TrigOutcome>) -> Option<Issue> {
    match o {
        Some(t) => Some(t@),
        None => None,
    }
}

/// The closed forms of the table.
#[derive(Clone, Copy, Debug)]
pub enum ValeurSpeciale {
    Zero,
    Un,
    MoinsUn,
    Demi,
    MoinsDemi,
    Racine2Sur2,
    MoinsRacine2Sur2,
    Racine3Sur2,
    MoinsRacine3Sur2,
    Racine3Sur3,
    MoinsRacine3Sur3,
    Racine3,
    MoinsRacine3,
    Indefini,
}

/// `√n / d`.
pub open spec fn racine_sur(n: int, d: int) -> Terme {
    Terme::Div(Box::new(Terme::Sqrt(Box::new(Terme::entier(n)))), Box::new(Terme::entier(d)))
}

impl ValeurSpeciale {
    /// The expression of the closed form.
    pub open spec fn terme(self) -> Terme {
        match self {
            ValeurSpeciale::Zero => Terme::entier(0),
            ValeurSpeciale::Un => Terme::entier(1),
            ValeurSpeciale::MoinsUn => Terme::entier(-1),
            ValeurSpeciale::Demi => Terme::Rat(Frac { num: 1, den: 2 }),
            ValeurSpeciale::MoinsDemi => Terme::Rat(Frac { num: -1, den: 2 }),
            ValeurSpeciale::Racine2Sur2 => racine_sur(2, 2),
            ValeurSpeciale::MoinsRacine2Sur2 => Terme::moins(racine_sur(2, 2)),
            ValeurSpeciale::Racine3Sur2 => racine_sur(3, 2),
            ValeurSpeciale::MoinsRacine3Sur2 => Terme::moins(racine_sur(3, 2)),
            ValeurSpeciale::Racine3Sur3 => racine_sur(3, 3),
            ValeurSpeciale::MoinsRacine3Sur3 => Terme::moins(racine_sur(3, 3)),
            ValeurSpeciale::Racine3 => Terme::Sqrt(Box::new(Terme::entier(3))),
            ValeurSpeciale::MoinsRacine3 => Terme::moins(Terme::Sqrt(Box::new(Terme::entier(3)))),
            ValeurSpeciale::Indefini => Terme::Indefini,
        }
    }

    /// The writing of the closed form in a proof line.
    pub open spec fn texte(self) -> Seq<char> {
        match self {
            ValeurSpeciale::Zero => "0"@,
            ValeurSpeciale::Un => "1"@,
            ValeurSpeciale::MoinsUn => "-1"@,
            ValeurSpeciale::Demi => "1/2"@,
            ValeurSpeciale::MoinsDemi => "-1/2"@,
            ValeurSpeciale::Racine2Sur2 => "√2/2"@,
            ValeurSpeciale::MoinsRacine2Sur2 => "-√2/2"@,
            ValeurSpeciale::Racine3Sur2 => "√3/2"@,
            ValeurSpeciale::MoinsRacine3Sur2 => "-√3/2"@,
            ValeurSpeciale::Racine3Sur3 => "√3/3"@,
            ValeurSpeciale::MoinsRacine3Sur3 => "-√3/3"@,
            ValeurSpeciale::Racine3 => "√3"@,
            ValeurSpeciale::MoinsRacine3 => "-√3"@,
            ValeurSpeciale::Indefini => "indéfini"@,
        }
    }
}

/// sin(kπ/n) for the angles of the table, `k` taken in one full turn.
pub open spec fn table_sin(k: int, n: int) -> Option<ValeurSpeciale> {
    if k == 0 {
        Some(ValeurSpeciale::Zero)
    } else if n == 6 && (k == 1 || k == 5) {
        Some(ValeurSpeciale::Demi)
    } else if n == 6 && (k == 7 || k == 11) {
        Some(ValeurSpeciale::MoinsDemi)
    } else if n == 4 && (k == 1 || k == 3) {
        Some(ValeurSpeciale::Racine2Sur2)
    } else if n == 4 && (k == 5 || k == 7) {
        Some(ValeurSpeciale::MoinsRacine2Sur2)
    } else if n == 3 && (k == 1 || k == 2) {
        Some(ValeurSpeciale::Racine3Sur2)
    } else if n == 3 && (k == 4 || k == 5) {
        Some(ValeurSpeciale::MoinsRacine3Sur2)
    } else if n == 2 && k == 1 {
        Some(ValeurSpeciale::Un)
    } else if n == 2 && k == 3 {
        Some(ValeurSpeciale::MoinsUn)
    } else if n == 1 && (k == 1 || k == 2) {
        Some(ValeurSpeciale::Zero)
    } else {
        None
    }
}

/// cos(kπ/n) for the angles of the table, `k` taken in one full turn.
pub open spec fn table_cos(k: int, n: int) -> Option<ValeurSpeciale> {
    if k == 0 || (n == 1 && k == 2) {
        Some(ValeurSpeciale::Un)
    } else if n == 1 && k == 1 {
        Some(ValeurSpeciale::MoinsUn)
    } else if n == 6 && (k == 1 || k == 11) {
        Some(ValeurSpeciale::Racine3Sur2)
    } else if n == 6 && (k == 5 || k == 7) {
        Some(ValeurSpeciale::MoinsRacine3Sur2)
    } else if n == 4 && (k == 1 || k == 7) {
        Some(ValeurSpeciale::Racine2Sur2)
    } else if n == 4 && (k == 3 || k == 5) {
        Some(ValeurSpeciale::MoinsRacine2Sur2)
    } else if n == 3 && (k == 1 || k == 5) {
        Some(ValeurSpeciale::Demi)
    } else if n == 3 && (k == 2 || k == 4) {
        Some(ValeurSpeciale::MoinsDemi)
    } else if n == 2 && (k == 1 || k == 3) {
        Some(ValeurSpeciale::Zero)
    } else {
        None
    }
}

/// tan(kπ/n) for the angles of the table; not defined at π/2 and 3π/2.
pub open spec fn table_tan(k: int, n: int) -> Option<ValeurSpeciale> {
    if k == 0 || (n == 1 && (k == 1 || k == 2)) {
        Some(ValeurSpeciale::Zero)
    } else if n == 6 && (k == 1 || k == 7) {
        Some(ValeurSpeciale::Racine3Sur3)
    } else if n == 6 && (k == 5 || k == 11) {
        Some(ValeurSpeciale::MoinsRacine3Sur3)
    } else if n == 4 && (k == 1 || k == 5) {
        Some(ValeurSpeciale::Un)
    } else if n == 4 && (k == 3 || k == 7) {
        Some(ValeurSpeciale::MoinsUn)
    } else if n == 3 && (k == 1 || k == 4) {
        Some(ValeurSpeciale::Racine3)
    } else if n == 3 && (k == 2 || k == 5) {
        Some(ValeurSpeciale::MoinsRacine3)
    } else if n == 2 && (k == 1 || k == 3) {
        Some(ValeurSpeciale::Indefini)
    } else {
        None
    }
}

impl TrigFn {
    /// The period of the function, in multiples of π.
    pub open spec fn periode(self) -> int {
        match self {
            TrigFn::Sin | TrigFn::Cos => 2,
            TrigFn::Tan => 1,
        }
    }

    /// The name of the function.
    pub open spec fn nom(self) -> Seq<char> {
        match self {
            TrigFn::Sin => "sin"@,
            TrigFn::Cos => "cos"@,
            TrigFn::Tan => "tan"@,
        }
    }

    /// The value of the function at kπ/n.
    pub open spec fn table(self, k: int, n: int) -> Option<ValeurSpeciale> {
        match self {
            TrigFn::Sin => table_sin(k, n),
            TrigFn::Cos => table_cos(k, n),
            TrigFn::Tan => table_tan(k, n),
        }
    }
}

/// The writing of the angle kπ/n.
pub open spec fn texte_angle(k: int, n: int) -> Seq<char> {
    if k == 0 {
        "0"@
    } else if n == 1 {
        if k == 1 {
            "π"@
        } else {
            texte_entier(k) + "π"@
        }
    } else if k == 1 {
        "π/"@ + texte_entier(n)
    } else {
        texte_entier(k) + "π/"@ + texte_entier(n)
    }
}

/// The proof line `f(angle) = value`.
pub open spec fn ligne_preuve(f: TrigFn, k: int, n: int, v: ValeurSpeciale) -> Seq<char> {
    f.nom() + "("@ + texte_angle(k, n) + ") = "@ + v.texte()
}

/// Whether the denominator is one that the table knows.
pub open spec fn denominateur_connu(n: int) -> bool {
    n == 1 || n == 2 || n == 3 || n == 4 || n == 6
}

/// The value of `f` at the angle `x`, where `x` is a rational multiple of π
/// that the table knows.
///
/// The coefficient of π is read by linear combination, within the bounds of
/// [`coeff_pi_borne`], reduced modulo the period of `f` into `[0, period)`,
/// and must then be `k/n` with `n` among 1, 2, 3, 4, 6. The line of proof
/// names the reduced angle.
pub open spec fn angle_special(x: Terme, f: TrigFn) -> Option<Issue> {
    match coeff_pi_borne(x) {
        None => None,
        Some(c) => {
            let r = c.modulo(f.periode());
            if !denominateur_connu(r.den) || r.num > i64::MAX {
                None
            } else {
                let k = r.num % (2 * r.den);
                match f.table(k, r.den) {
                    None => None,
                    Some(v) => Some(
                        match v {
                            ValeurSpeciale::Indefini => Issue::Indefini(
                                ligne_preuve(f, k, r.den, v),
                            ),
                            _ => Issue::Valeur(v.terme(), ligne_preuve(f, k, r.den, v)),
                        },
                    ),
                }
            }
        },
    }
}

impl ValeurSpeciale {
    /// The closed form of the opposite value.
    pub open spec fn opposee(self) -> ValeurSpeciale {
        match self {
            ValeurSpeciale::Zero => ValeurSpeciale::Zero,
            ValeurSpeciale::Un => ValeurSpeciale::MoinsUn,
            ValeurSpeciale::MoinsUn => ValeurSpeciale::Un,
            ValeurSpeciale::Demi => ValeurSpeciale::MoinsDemi,
            ValeurSpeciale::MoinsDemi => ValeurSpeciale::Demi,
            ValeurSpeciale::Racine2Sur2 => ValeurSpeciale::MoinsRacine2Sur2,
            ValeurSpeciale::MoinsRacine2Sur2 => ValeurSpeciale::Racine2Sur2,
            ValeurSpeciale::Racine3Sur2 => ValeurSpeciale::MoinsRacine3Sur2,
            ValeurSpeciale::MoinsRacine3Sur2 => ValeurSpeciale::Racine3Sur2,
            ValeurSpeciale::Racine3Sur3 => ValeurSpeciale::MoinsRacine3Sur3,
            ValeurSpeciale::MoinsRacine3Sur3 => ValeurSpeciale::Racine3Sur3,
            ValeurSpeciale::Racine3 => ValeurSpeciale::MoinsRacine3,
            ValeurSpeciale::MoinsRacine3 => ValeurSpeciale::Racine3,
            ValeurSpeciale::Indefini => ValeurSpeciale::Indefini,
        }
    }

    /// The sign of the value: -1, 0 or 1; 0 for `Indefini`.
    pub open spec fn signe(self) -> int {
        match self {
            ValeurSpeciale::Zero | ValeurSpeciale::Indefini => 0,
            ValeurSpeciale::Un
            | ValeurSpeciale::Demi
            | ValeurSpeciale::Racine2Sur2
            | ValeurSpeciale::Racine3Sur2
            | ValeurSpeciale::Racine3Sur3
            | ValeurSpeciale::Racine3 => 1,
            _ => -1,
        }
    }

    /// Twelve times the square of the value, which is an integer for every
    /// value of the table; `None` for `Indefini`.
    pub open spec fn douze_carres(self) -> Option<int> {
        match self {
            ValeurSpeciale::Zero => Some(0),
            ValeurSpeciale::Un | ValeurSpeciale::MoinsUn => Some(12),
            ValeurSpeciale::Demi | ValeurSpeciale::MoinsDemi => Some(3),
            ValeurSpeciale::Racine2Sur2 | ValeurSpeciale::MoinsRacine2Sur2 => Some(6),
            ValeurSpeciale::Racine3Sur2 | ValeurSpeciale::MoinsRacine3Sur2 => Some(9),
            ValeurSpeciale::Racine3Sur3 | ValeurSpeciale::MoinsRacine3Sur3 => Some(4),
            ValeurSpeciale::Racine3 | ValeurSpeciale::MoinsRacine3 => Some(36),
            ValeurSpeciale::Indefini => None,
        }
    }
}

/// The angle `j·π/12` in lowest terms, `k·π/n`, for the multiples of π/6 and
/// of π/4 in one full turn; `(0, 0)` for any other `j`.
pub open spec fn angle_douzieme(j: int) -> (int, int) {
    if j == 0 {
        (0, 1)
    } else if j == 2 {
        (1, 6)
    } else if j == 3 {
        (1, 4)
    } else if j == 4 {
        (1, 3)
    } else if j == 6 {
        (1, 2)
    } else if j == 8 {
        (2, 3)
    } else if j == 9 {
        (3, 4)
    } else if j == 10 {
        (5, 6)
    } else if j == 12 {
        (1, 1)
    } else if j == 14 {
        (7, 6)
    } else if j == 15 {
        (5, 4)
    } else if j == 16 {
        (4, 3)
    } else if j == 18 {
        (3, 2)
    } else if j == 20 {
        (5, 3)
    } else if j == 21 {
        (7, 4)
    } else if j == 22 {
        (11, 6)
    } else {
        (0, 0)
    }
}

/// Whether `j·π/12` is an angle of the table: a multiple of π/6 or of π/4.
pub open spec fn angle_de_table(j: int) -> bool {
    0 <= j < 24 && (j % 2 == 0 || j % 3 == 0)
}

impl TrigFn {
    /// The value of the function at `j·π/12`.
    pub open spec fn en(self, j: int) -> Option<ValeurSpeciale> {
        self.table(angle_douzieme(j).0, angle_douzieme(j).1)
    }
}

/// The table knows every multiple of π/6 and of π/4, and on these angles it
/// agrees with the identities that the rewriter applies: parity, shift by π,
/// shift by π/2, reflection, the quotient sin/cos and sin² + cos² = 1.
pub proof fn lemme_table_identites(j: int)
    requires
        angle_de_table(j),
    ensures
        TrigFn::Sin.en(j) is Some,
        TrigFn::Cos.en(j) is Some,
        TrigFn::Tan.en(j) is Some,
        // parity
        TrigFn::Sin.en((24 - j) % 24) == Some(TrigFn::Sin.en(j)->0.opposee()),
        TrigFn::Cos.en((24 - j) % 24) == TrigFn::Cos.en(j),
        TrigFn::Tan.en((24 - j) % 24) == Some(TrigFn::Tan.en(j)->0.opposee()),
        // shift by π
        TrigFn::Sin.en((j + 12) % 24) == Some(TrigFn::Sin.en(j)->0.opposee()),
        TrigFn::Cos.en((j + 12) % 24) == Some(TrigFn::Cos.en(j)->0.opposee()),
        TrigFn::Tan.en((j + 12) % 24) == TrigFn::Tan.en(j),
        // shift by π/2
        TrigFn::Sin.en((j + 6) % 24) == TrigFn::Cos.en(j),
        TrigFn::Cos.en((j + 6) % 24) == Some(TrigFn::Sin.en(j)->0.opposee()),
        // reflection
        TrigFn::Sin.en((36 - j) % 24) == TrigFn::Sin.en(j),
        TrigFn::Cos.en((36 - j) % 24) == Some(TrigFn::Cos.en(j)->0.opposee()),
        // sin² + cos² = 1
        TrigFn::Sin.en(j)->0.douze_carres()->0 + TrigFn::Cos.en(j)->0.douze_carres()->0 == 12,
        !(TrigFn::Sin.en(j)->0 is Indefini),
        !(TrigFn::Cos.en(j)->0 is Indefini),
        // tan = sin / cos, in size and in sign, and is not defined where cos
        // is zero
        TrigFn::Tan.en(j)->0 is Indefini <==> TrigFn::Cos.en(j)->0 is Zero,
        !(TrigFn::Tan.en(j)->0 is Indefini) ==> TrigFn::Tan.en(j)->0.douze_carres()->0
            * TrigFn::Cos.en(j)->0.douze_carres()->0 == 12 * TrigFn::Sin.en(j)->0.douze_carres()->0,
        !(TrigFn::Tan.en(j)->0 is Indefini) ==> TrigFn::Tan.en(j)->0.signe() * TrigFn::Cos.en(
            j,
        )->0.signe() == TrigFn::Sin.en(j)->0.signe(),
{
}

/// What the table gives for `f` at `j·π/12`, with its line of proof.
pub open spec fn issue_table(f: TrigFn, j: int) -> Issue {
    let (k, n) = angle_douzieme(j);
    let v = f.en(j)->0;
    if v is Indefini {
        Issue::Indefini(ligne_preuve(f, k, n, v))
    } else {
        Issue::Valeur(v.terme(), ligne_preuve(f, k, n, v))
    }
}

/// `j/12` in lowest terms is the fraction that [`angle_douzieme`] gives.
proof fn lemme_douzieme(j: int)
    requires
        angle_de_table(j),
    ensures
        reduite(j, 12) == (Frac { num: angle_douzieme(j).0, den: angle_douzieme(j).1 }),
        reduite(j, 12).bien_forme(),
        denominateur_connu(angle_douzieme(j).1),
        0 <= angle_douzieme(j).0 < 2 * angle_douzieme(j).1,
{
    lemme_reduite_bien_forme(j, 12);
    if j == 0 {
        assert(pgcd(12, 0) == 12);
        assert(pgcd(0, 12) == pgcd(12, 0nat % 12nat));
        assert(pgcd(0, 12) == 12);
        assert(0int / 12 == 0 && 12int / 12 == 1);
    }
    if j == 2 {
        assert(pgcd(2, 0) == 2);
        assert(pgcd(12, 2) == pgcd(2, 12nat % 2nat));
        assert(pgcd(2, 12) == pgcd(12, 2nat % 12nat));
        assert(pgcd(2, 12) == 2);
        assert(2int / 2 == 1 && 12int / 2 == 6);
    }
    if j == 3 {
        assert(pgcd(3, 0) == 3);
        assert(pgcd(12, 3) == pgcd(3, 12nat % 3nat));
        assert(pgcd(3, 12) == pgcd(12, 3nat % 12nat));
        assert(pgcd(3, 12) == 3);
        assert(3int / 3 == 1 && 12int / 3 == 4);
    }
    if j == 4 {
        assert(pgcd(4, 0) == 4);
        assert(pgcd(12, 4) == pgcd(4, 12nat % 4nat));
        assert(pgcd(4, 12) == pgcd(12, 4nat % 12nat));
        assert(pgcd(4, 12) == 4);
        assert(4int / 4 == 1 && 12int / 4 == 3);
    }
    if j == 6 {
        assert(pgcd(6, 0) == 6);
        assert(pgcd(12, 6) == pgcd(6, 12nat % 6nat));
        assert(pgcd(6, 12) == pgcd(12, 6nat % 12nat));
        assert(pgcd(6, 12) == 6);
        assert(6int / 6 == 1 && 12int / 6 == 2);
    }
    if j == 8 {
        assert(pgcd(4, 0) == 4);
        assert(pgcd(8, 4) == pgcd(4, 8nat % 4nat));
        assert(pgcd(12, 8) == pgcd(8, 12nat % 8nat));
        assert(pgcd(8, 12) == pgcd(12, 8nat % 12nat));
        assert(pgcd(8, 12) == 4);
        assert(8int / 4 == 2 && 12int / 4 == 3);
    }
    if j == 9 {
        assert(pgcd(3, 0) == 3);
        assert(pgcd(9, 3) == pgcd(3, 9nat % 3nat));
        assert(pgcd(12, 9) == pgcd(9, 12nat % 9nat));
        assert(pgcd(9, 12) == pgcd(12, 9nat % 12nat));
        assert(pgcd(9, 12) == 3);
        assert(9int / 3 == 3 && 12int / 3 == 4);
    }
    if j == 10 {
        assert(pgcd(2, 0) == 2);
        assert(pgcd(10, 2) == pgcd(2, 10nat % 2nat));
        assert(pgcd(12, 10) == pgcd(10, 12nat % 10nat));
        assert(pgcd(10, 12) == pgcd(12, 10nat % 12nat));
        assert(pgcd(10, 12) == 2);
        assert(10int / 2 == 5 && 12int / 2 == 6);
    }
    if j == 12 {
        assert(pgcd(12, 0) == 12);
        assert(pgcd(12, 12) == pgcd(12, 12nat % 12nat));
        assert(pgcd(12, 12) == 12);
        assert(12int / 12 == 1 && 12int / 12 == 1);
    }
    if j == 14 {
        assert(pgcd(2, 0) == 2);
        assert(pgcd(12, 2) == pgcd(2, 12nat % 2nat));
        assert(pgcd(14, 12) == pgcd(12, 14nat % 12nat));
        assert(pgcd(14, 12) == 2);
        assert(14int / 2 == 7 && 12int / 2 == 6);
    }
    if j == 15 {
        assert(pgcd(3, 0) == 3);
        assert(pgcd(12, 3) == pgcd(3, 12nat % 3nat));
        assert(pgcd(15, 12) == pgcd(12, 15nat % 12nat));
        assert(pgcd(15, 12) == 3);
        assert(15int / 3 == 5 && 12int / 3 == 4);
    }
    if j == 16 {
        assert(pgcd(4, 0) == 4);
        assert(pgcd(12, 4) == pgcd(4, 12nat % 4nat));
        assert(pgcd(16, 12) == pgcd(12, 16nat % 12nat));
        assert(pgcd(16, 12) == 4);
        assert(16int / 4 == 4 && 12int / 4 == 3);
    }
    if j == 18 {
        assert(pgcd(6, 0) == 6);
        assert(pgcd(12, 6) == pgcd(6, 12nat % 6nat));
        assert(pgcd(18, 12) == pgcd(12, 18nat % 12nat));
        assert(pgcd(18, 12) == 6);
        assert(18int / 6 == 3 && 12int / 6 == 2);
    }
    if j == 20 {
        assert(pgcd(4, 0) == 4);
        assert(pgcd(8, 4) == pgcd(4, 8nat % 4nat));
        assert(pgcd(12, 8) == pgcd(8, 12nat % 8nat));
        assert(pgcd(20, 12) == pgcd(12, 20nat % 12nat));
        assert(pgcd(20, 12) == 4);
        assert(20int / 4 == 5 && 12int / 4 == 3);
    }
    if j == 21 {
        assert(pgcd(3, 0) == 3);
        assert(pgcd(9, 3) == pgcd(3, 9nat % 3nat));
        assert(pgcd(12, 9) == pgcd(9, 12nat % 9nat));
        assert(pgcd(21, 12) == pgcd(12, 21nat % 12nat));
        assert(pgcd(21, 12) == 3);
        assert(21int / 3 == 7 && 12int / 3 == 4);
    }
    if j == 22 {
        assert(pgcd(2, 0) == 2);
        assert(pgcd(10, 2) == pgcd(2, 10nat % 2nat));
        assert(pgcd(12, 10) == pgcd(10, 12nat % 10nat));
        assert(pgcd(22, 12) == pgcd(12, 22nat % 12nat));
        assert(pgcd(22, 12) == 2);
        assert(22int / 2 == 11 && 12int / 2 == 6);
    }
}

/// The table gives the same tangent at an angle and at the angle reduced
/// modulo π.
proof fn lemme_tangente_periode(j: int)
    requires
        angle_de_table(j),
    ensures
        angle_de_table(j % 12),
        TrigFn::Tan.en(j % 12) == TrigFn::Tan.en(j),
{
    lemme_table_identites(j);
    if j >= 12 {
        lemme_table_identites(j - 12);
        assert((j - 12 + 12) % 24 == j);
    }
}

/// The coefficient that the resolver reads in `q·π` is `q`.
pub proof fn lemme_coeff_multiple(q: Frac)
    requires
        q.bien_forme(),
    ensures
        coeff_pi_borne(Terme::Mul(Box::new(Terme::Rat(q)), Box::new(Terme::Pi))) == Some(q),
{
    let x = Terme::Mul(Box::new(Terme::Rat(q)), Box::new(Terme::Pi));
    reveal_with_fuel(noeuds_lineaires, 2);
    reveal_with_fuel(coeff_pi_ext, 2);
    lemme_coeff_pi_borne(x);
    lemme_reduite_fixe(q);
    assert(1 * q.num == q.num && 1 * q.den == q.den);
}

/// The resolver on a rational multiple of π. Where the coefficient `q` that
/// is read in `x`, reduced modulo the period of the function, is `j/12` for
/// an angle of the table, the resolver gives the value of the table at
/// `j·π/12`, with the line of proof of that angle.
pub proof fn lemme_resolveur_reduit(x: Terme, q: Frac, f: TrigFn, j: int)
    requires
        coeff_pi_borne(x) == Some(q),
        angle_de_table(j),
        q.modulo(f.periode()) == reduite(j, 12),
    ensures
        angle_special(x, f) == Some(issue_table(f, j)),
{
    lemme_table_identites(j);
    lemme_douzieme(j);
    let r = q.modulo(f.periode());
    assert(r.num % (2 * r.den) == r.num) by (nonlinear_arith)
        requires
            0 <= r.num < 2 * r.den,
    ;
    assert(f.table(r.num, r.den) == f.en(j));
}

/// How many twelfths one part of a denominator that the table knows is;
/// zero for any other denominator.
pub open spec fn douziemes(d: int) -> int {
    if d == 1 {
        12
    } else if d == 2 {
        6
    } else if d == 3 {
        4
    } else if d == 4 {
        3
    } else if d == 6 {
        2
    } else {
        0
    }
}

/// The angle `q·π` reduced modulo `p·π`, counted in twelfths of π, for a
/// `q` whose denominator the table knows.
pub open spec fn angle_reduit(q: Frac, p: int) -> int {
    (q.num % (p * q.den)) * douziemes(q.den)
}

/// For `m · d == 12`: `n mod d`, in parts of `m`, is `n mod 2d` in parts of
/// `m`, taken modulo twelve.
proof fn lemme_douzieme_reduit(n: int, d: int, m: int)
    requires
        d > 0,
        m > 0,
        m * d == 12,
    ensures
        (n % d) * m == ((n % (d * 2)) * m) % 12,
{
    lemma_mod_mod(n, d, 2);
    let r = n % (d * 2);
    assert(0 <= r < d * 2);
    if r < d {
        lemma_small_mod(r as nat, d as nat);
        assert(0 <= r * m < 12) by (nonlinear_arith)
            requires
                0 <= r < d,
                m > 0,
                m * d == 12,
        ;
        lemma_small_mod((r * m) as nat, 12);
    } else {
        lemma_fundamental_div_mod_converse(r, d, 1, r - d);
        assert(0 <= r * m - 12 < 12 && (r - d) * m == r * m - 12) by (nonlinear_arith)
            requires
                d <= r < d * 2,
                m > 0,
                m * d == 12,
        ;
        lemma_fundamental_div_mod_converse(r * m, 12, 1, r * m - 12);
    }
}

/// An angle reduced modulo π is the angle reduced modulo 2π, reduced once
/// more.
proof fn lemme_reduit_modulo(q: Frac)
    requires
        denominateur_connu(q.den),
    ensures
        angle_reduit(q, 1) == angle_reduit(q, 2) % 12,
{
    let d = q.den;
    assert(1 * d == d && 2 * d == d * 2) by (nonlinear_arith);
    lemme_douzieme_reduit(q.num, d, douziemes(d));
}

/// A multiple of π whose denominator the table knows, reduced modulo π or
/// 2π, is an angle of the table.
proof fn lemme_reduction_table(q: Frac, p: int)
    requires
        q.bien_forme(),
        denominateur_connu(q.den),
        p == 1 || p == 2,
    ensures
        angle_de_table(angle_reduit(q, p)),
        q.modulo(p) == reduite(angle_reduit(q, p), 12),
{
    lemme_modulo_denominateur(q, p);
    let d = q.den;
    let m = douziemes(d);
    let a = q.num % (p * d);
    assert(p * d <= d + d) by (nonlinear_arith)
        requires
            p == 1 || p == 2,
            d > 0,
    ;
    assert(m * d == 12 && m >= 1);
    lemme_reduite_echelle(m, a, d);
    lemme_reduite_fixe(Frac { num: a, den: d });
    assert(m * a == angle_reduit(q, p) && m * a < 24) by (nonlinear_arith)
        requires
            angle_reduit(q, p) == a * m,
            0 <= a < d + d,
            m * d == 12,
            m >= 1,
    ;
}

/// sin² + cos² = 1 and tan = sin / cos on what the resolver gives. At every
/// tree `x` that is read as `q·π` with a denominator of `q` among 1, 2, 3, 4
/// and 6, the resolver gives for the sine and the cosine the values of the
/// table at the angle reduced modulo 2π, whose squares add up to one. For the
/// tangent it gives "not defined" exactly where that cosine is zero, and
/// elsewhere the value that, times the cosine, is the sine, in size and in
/// sign.
pub proof fn lemme_resolveur_identites(x: Terme, q: Frac)
    requires
        coeff_pi_borne(x) == Some(q),
        q.bien_forme(),
        denominateur_connu(q.den),
    ensures
        ({
            let j = angle_reduit(q, 2);
            let s = TrigFn::Sin.en(j)->0;
            let c = TrigFn::Cos.en(j)->0;
            let t = TrigFn::Tan.en(j)->0;
            &&& angle_de_table(j)
            &&& angle_special(x, TrigFn::Sin) == Some(issue_table(TrigFn::Sin, j))
            &&& angle_special(x, TrigFn::Cos) == Some(issue_table(TrigFn::Cos, j))
            &&& angle_special(x, TrigFn::Tan) == Some(issue_table(TrigFn::Tan, j % 12))
            &&& issue_table(TrigFn::Sin, j) matches Issue::Valeur(e, _) && e == s.terme()
            &&& issue_table(TrigFn::Cos, j) matches Issue::Valeur(e, _) && e == c.terme()
            &&& s.douze_carres()->0 + c.douze_carres()->0 == 12
            &&& TrigFn::Tan.en(j % 12) == Some(t)
            &&& issue_table(TrigFn::Tan, j % 12) is Indefini <==> c is Zero
            &&& !(c is Zero) ==> (issue_table(TrigFn::Tan, j % 12) matches Issue::Valeur(e, _) && e
                == t.terme()) && t.douze_carres()->0 * c.douze_carres()->0 == 12
                * s.douze_carres()->0 && t.signe() * c.signe() == s.signe()
        }),
{
    let j = angle_reduit(q, 2);
    lemme_reduction_table(q, 2);
    lemme_reduction_table(q, 1);
    lemme_reduit_modulo(q);
    lemme_table_identites(j);
    lemme_tangente_periode(j);
    lemme_resolveur_reduit(x, q, TrigFn::Sin, j);
    lemme_resolveur_reduit(x, q, TrigFn::Cos, j);
    lemme_resolveur_reduit(x, q, TrigFn::Tan, j % 12);
}

/// The greatest common divisor of two numbers that are not negative.
pub fn gcd_i64(a: i64, b: i64) -> (g: i64)
    requires
        a >= 0,
        b >= 0,
    ensures
        g == pgcd(a as nat, b as nat),
        g >= 0,
{
    let mut x = a;
    let mut y = b;
    while y != 0
        invariant
            x >= 0,
            y >= 0,
            pgcd(x as nat, y as nat) == pgcd(a as nat, b as nat),
        decreases y,
    {
        let t = x % y;
        x = y;
        y = t;
    }
    x
}

/// Writes the angle kπ/n.
pub fn format_angle_kn_pi(k: i64, n: i64) -> (r: String)
    ensures
        r@ == texte_angle(k as int, n as int),
{
    if k == 0 {
        return String::from_str("0");
    }
    if n == 1 {
        if k == 1 {
            return String::from_str("π");
        }
        let mut r = big_texte(&big_de_i64(k));
        r.append("π");
        return r;
    }
    let tn = big_texte(&big_de_i64(n));
    if k == 1 {
        let mut r = String::from_str("π/");
        r.append(tn.as_str());
        return r;
    }
    let mut r = big_texte(&big_de_i64(k));
    r.append("π/");
    r.append(tn.as_str());
    r
}

/// A rational in `[0, ∞)` as `k/n` with machine integers, where `n` is one of
/// 1, 2, 3, 4, 6.
fn rational_to_small_kn(r: &BigRational) -> (kn: Option<(i64, i64)>)
    requires
        frac(*r).bien_forme(),
        frac(*r).num >= 0,
    ensures
        kn is Some <==> denominateur_connu(frac(*r).den) && frac(*r).num <= i64::MAX,
        kn matches Some(p) ==> p.0 == frac(*r).num && p.1 == frac(*r).den,
{
    let denom = match big_vers_i64(rat_denom(r)) {
        Some(d) => d,
        None => {
            return None;
        },
    };
    let numer = match big_vers_i64(rat_numer(r)) {
        Some(n) => n,
        None => {
            return None;
        },
    };
    let g = gcd_i64(numer, denom);
    let k = numer / g;
    let n = denom / g;
    if n == 1 || n == 2 || n == 3 || n == 4 || n == 6 {
        Some((k, n))
    } else {
        None
    }
}

/// The value of `f` at kπ/n in the table.
fn cherche_table(f: TrigFn, k: i64, n: i64) -> (v: Option<ValeurSpeciale>)
    ensures
        v == f.table(k as int, n as int),
{
    match f {
        TrigFn::Sin => {
            if k == 0 {
                Some(ValeurSpeciale::Zero)
            } else if n == 6 && (k == 1 || k == 5) {
                Some(ValeurSpeciale::Demi)
            } else if n == 6 && (k == 7 || k == 11) {
                Some(ValeurSpeciale::MoinsDemi)
            } else if n == 4 && (k == 1 || k == 3) {
                Some(ValeurSpeciale::Racine2Sur2)
            } else if n == 4 && (k == 5 || k == 7) {
                Some(ValeurSpeciale::MoinsRacine2Sur2)
            } else if n == 3 && (k == 1 || k == 2) {
                Some(ValeurSpeciale::Racine3Sur2)
            } else if n == 3 && (k == 4 || k == 5) {
                Some(ValeurSpeciale::MoinsRacine3Sur2)
            } else if n == 2 && k == 1 {
                Some(ValeurSpeciale::Un)
            } else if n == 2 && k == 3 {
                Some(ValeurSpeciale::MoinsUn)
            } else if n == 1 && (k == 1 || k == 2) {
                Some(ValeurSpeciale::Zero)
            } else {
                None
            }
        },
        TrigFn::Cos => {
            if k == 0 || (n == 1 && k == 2) {
                Some(ValeurSpeciale::Un)
            } else if n == 1 && k == 1 {
                Some(ValeurSpeciale::MoinsUn)
            } else if n == 6 && (k == 1 || k == 11) {
                Some(ValeurSpeciale::Racine3Sur2)
            } else if n == 6 && (k == 5 || k == 7) {
                Some(ValeurSpeciale::MoinsRacine3Sur2)
            } else if n == 4 && (k == 1 || k == 7) {
                Some(ValeurSpeciale::Racine2Sur2)
            } else if n == 4 && (k == 3 || k == 5) {
                Some(ValeurSpeciale::MoinsRacine2Sur2)
            } else if n == 3 && (k == 1 || k == 5) {
                Some(ValeurSpeciale::Demi)
            } else if n == 3 && (k == 2 || k == 4) {
                Some(ValeurSpeciale::MoinsDemi)
            } else if n == 2 && (k == 1 || k == 3) {
                Some(ValeurSpeciale::Zero)
            } else {
                None
            }
        },
        TrigFn::Tan => {
            if k == 0 || (n == 1 && (k == 1 || k == 2)) {
                Some(ValeurSpeciale::Zero)
            } else if n == 6 && (k == 1 || k == 7) {
                Some(ValeurSpeciale::Racine3Sur3)
            } else if n == 6 && (k == 5 || k == 11) {
                Some(ValeurSpeciale::MoinsRacine3Sur3)
            } else if n == 4 && (k == 1 || k == 5) {
                Some(ValeurSpeciale::Un)
            } else if n == 4 && (k == 3 || k == 7) {
                Some(ValeurSpeciale::MoinsUn)
            } else if n == 3 && (k == 1 || k == 4) {
                Some(ValeurSpeciale::Racine3)
            } else if n == 3 && (k == 2 || k == 5) {
                Some(ValeurSpeciale::MoinsRacine3)
            } else if n == 2 && (k == 1 || k == 3) {
                Some(ValeurSpeciale::Indefini)
            } else {
                None
            }
        },
    }
}

/// One half and its opposite are in lowest terms.
proof fn lemme_demi()
    ensures
        reduite(1, 2) == (Frac { num: 1, den: 2 }),
        reduite(-1, 2) == (Frac { num: -1, den: 2 }),
{
    assert(pgcd(1, 0) == 1);
    assert(pgcd(2, 1) == pgcd(1, 2nat % 1nat));
    assert(pgcd(1, 2) == pgcd(2, 1nat % 2nat));
    assert(pgcd(1, 2) == 1);
    assert(abs(-1) == 1 && abs(1) == 1 && abs(2) == 2);
    assert(pgcd(abs(1) as nat, abs(2) as nat) == 1);
    assert(pgcd(abs(-1) as nat, abs(2) as nat) == 1);
}

/// `√n / d`.
fn racine_de(n: i64, d: i64) -> (e: Expr)
    ensures
        e@ == racine_sur(n as int, d as int),
        e@.bien_forme(),
{
    let e = Expr::Div(Box::new(Expr::Sqrt(Box::new(Expr::entier(n)))), Box::new(Expr::entier(d)));
    proof {
        reveal_with_fuel(Expr::vue, 3);
        reveal_with_fuel(Terme::bien_forme, 3);
    }
    e
}

/// The expression of a closed form.
fn construit(v: ValeurSpeciale) -> (e: Expr)
    ensures
        e@ == v.terme(),
        e@.bien_forme(),
{
    proof {
        lemme_demi();
        reveal_with_fuel(Expr::vue, 3);
        reveal_with_fuel(Terme::bien_forme, 3);
    }
    match v {
        ValeurSpeciale::Zero => Expr::entier(0),
        ValeurSpeciale::Un => Expr::entier(1),
        ValeurSpeciale::MoinsUn => Expr::entier(-1),
        ValeurSpeciale::Demi => Expr::Rat(rat_de_i64s(1, 2)),
        ValeurSpeciale::MoinsDemi => Expr::Rat(rat_de_i64s(-1, 2)),
        ValeurSpeciale::Racine2Sur2 => racine_de(2, 2),
        ValeurSpeciale::MoinsRacine2Sur2 => Expr::moins(racine_de(2, 2)),
        ValeurSpeciale::Racine3Sur2 => racine_de(3, 2),
        ValeurSpeciale::MoinsRacine3Sur2 => Expr::moins(racine_de(3, 2)),
        ValeurSpeciale::Racine3Sur3 => racine_de(3, 3),
        ValeurSpeciale::MoinsRacine3Sur3 => Expr::moins(racine_de(3, 3)),
        ValeurSpeciale::Racine3 => Expr::Sqrt(Box::new(Expr::entier(3))),
        ValeurSpeciale::MoinsRacine3 => Expr::moins(Expr::Sqrt(Box::new(Expr::entier(3)))),
        ValeurSpeciale::Indefini => Expr::Indefini,
    }
}

/// The writing of a closed form.
fn texte_valeur(v: ValeurSpeciale) -> (t: &'static str)
    ensures
        t@ == v.texte(),
{
    match v {
        ValeurSpeciale::Zero => "0",
        ValeurSpeciale::Un => "1",
        ValeurSpeciale::MoinsUn => "-1",
        ValeurSpeciale::Demi => "1/2",
        ValeurSpeciale::MoinsDemi => "-1/2",
        ValeurSpeciale::Racine2Sur2 => "√2/2",
        ValeurSpeciale::MoinsRacine2Sur2 => "-√2/2",
        ValeurSpeciale::Racine3Sur2 => "√3/2",
        ValeurSpeciale::MoinsRacine3Sur2 => "-√3/2",
        ValeurSpeciale::Racine3Sur3 => "√3/3",
        ValeurSpeciale::MoinsRacine3Sur3 => "-√3/3",
        ValeurSpeciale::Racine3 => "√3",
        ValeurSpeciale::MoinsRacine3 => "-√3",
        ValeurSpeciale::Indefini => "indéfini",
    }
}

/// The name of a function.
fn nom_fonction(f: TrigFn) -> (t: &'static str)
    ensures
        t@ == f.nom(),
{
    match f {
        TrigFn::Sin => "sin",
        TrigFn::Cos => "cos",
        TrigFn::Tan => "tan",
    }
}

/// Recognises the special angles: the value of `f` at `x` where `x` is a
/// rational multiple of π that the table knows, with its line of proof;
/// `None` for any other argument. See [`angle_special`].
pub fn trig_special(x: &Expr, f: TrigFn) -> (r: Option<TrigOutcome>)
    requires
        x@.bien_forme(),
    ensures
        vue_issue(r) == angle_special(x@, f),
        r matches Some(TrigOutcome::Valeur(e, _)) ==> e@.bien_forme(),
{
    let coeff = match x.as_coeff_pi_ext() {
        Some(c) => c,
        None => {
            return None;
        },
    };
    let periode: i64 = match f {
        TrigFn::Sin | TrigFn::Cos => 2,
        TrigFn::Tan => 1,
    };
    let coeff_reduit = mod_rationnel(&coeff, periode);
    proof {
        let c = frac(coeff);
        if c.num != 0 {
            let m = periode * c.den;
            assert(m > 0) by (nonlinear_arith)
                requires
                    m == periode * c.den,
                    periode > 0,
                    c.den > 0,
            ;
            let a = c.num % m;
            assert(a >= 0);
            lemme_pgcd_positif(abs(a) as nat, abs(c.den) as nat);
            let g = pgcd(abs(a) as nat, abs(c.den) as nat) as int;
            assert(a / g >= 0) by (nonlinear_arith)
                requires
                    a >= 0,
                    g > 0,
            ;
        }
    }
    let (k, n) = match rational_to_small_kn(&coeff_reduit) {
        Some(kn) => kn,
        None => {
            return None;
        },
    };
    let k_mod = k % (2 * n);
    let v = match cherche_table(f, k_mod, n) {
        Some(v) => v,
        None => {
            return None;
        },
    };
    let angle = format_angle_kn_pi(k_mod, n);
    let mut preuve = String::from_str(nom_fonction(f));
    preuve.append("(");
    preuve.append(angle.as_str());
    preuve.append(") = ");
    preuve.append(texte_valeur(v));
    match v {
        ValeurSpeciale::Indefini => Some(TrigOutcome::Indefini(preuve)),
        _ => Some(TrigOutcome::Valeur(construit(v), preuve)),
    }
}

} // verus!

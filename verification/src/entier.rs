//! Arbitrary-precision integers.
//!
//! The integers are `num_bigint::BigInt` values. Verus cannot look inside one,
//! so this module gives the value a name, [`valeur`], and states over that
//! name what each operation of `num_bigint` used by the kernel returns. These
//! statements are trusted. The integer algorithms built on
//! them (exact powers, integer square roots) are proved.
use num_bigint::BigInt;
use num_traits::{One, Signed, ToPrimitive, Zero};
use vstd::arithmetic::mul::lemma_mul_is_associative;
use vstd::arithmetic::power::{
    lemma_pow0, lemma_pow1, lemma_pow_adds, lemma_pow_multiplies, lemma_square_is_pow2, pow,
};
use vstd::arithmetic::power2::{lemma_pow2_pos, pow2};
use vstd::prelude::*;

verus! {

#[verifier::external_type_specification]
#[verifier::external_body]
pub struct ExBigInt(BigInt);

/// The mathematical integer that a `BigInt` holds.
pub uninterp spec fn valeur(b: BigInt) -> int;

/// Absolute value.
pub open spec fn abs(a: int) -> int {
    if a < 0 {
        -a
    } else {
        a
    }
}

/// Quotient of the division that truncates toward zero, as `/` computes it on
/// machine integers and on `BigInt`.
pub open spec fn quotient(a: int, b: int) -> int
    recommends
        b != 0,
{
    if (a >= 0) == (b > 0) {
        abs(a) / abs(b)
    } else {
        -(abs(a) / abs(b))
    }
}

/// Remainder of the truncating division: it has the sign of the dividend.
pub open spec fn reste(a: int, b: int) -> int
    recommends
        b != 0,
{
    a - b * quotient(a, b)
}

/// The decimal digit `d` as a character.
pub open spec fn chiffre(d: int) -> char
    recommends
        0 <= d <= 9,
{
    if d == 0 {
        '0'
    } else if d == 1 {
        '1'
    } else if d == 2 {
        '2'
    } else if d == 3 {
        '3'
    } else if d == 4 {
        '4'
    } else if d == 5 {
        '5'
    } else if d == 6 {
        '6'
    } else if d == 7 {
        '7'
    } else if d == 8 {
        '8'
    } else {
        '9'
    }
}

/// Whether `c` is one of `'0'..='9'`.
pub open spec fn est_chiffre(c: char) -> bool {
    '0' <= c && c <= '9'
}

/// The value of a decimal digit character.
pub open spec fn valeur_chiffre(c: char) -> int
    recommends
        est_chiffre(c),
{
    c as int - '0' as int
}

/// Decimal writing of a natural number, without leading zeros.
pub open spec fn texte_naturel(n: nat) -> Seq<char>
    decreases n,
{
    if n < 10 {
        seq![chiffre(n as int)]
    } else {
        texte_naturel(n / 10).push(chiffre((n % 10) as int))
    }
}

/// Decimal writing of an integer, with a leading `-` when it is negative.
pub open spec fn texte_entier(i: int) -> Seq<char> {
    if i < 0 {
        seq!['-'] + texte_naturel((-i) as nat)
    } else {
        texte_naturel(i as nat)
    }
}

/// The number that a sequence of decimal digits writes (leading zeros allowed).
pub open spec fn nombre_lu(s: Seq<char>) -> nat
    decreases s.len(),
{
    if s.len() == 0 {
        0
    } else {
        (nombre_lu(s.drop_last()) * 10 + valeur_chiffre(s.last())) as nat
    }
}

/// Whether every character of `s` is a decimal digit.
pub open spec fn tous_chiffres(s: Seq<char>) -> bool {
    forall|i: int| 0 <= i < s.len() ==> est_chiffre(#[trigger] s[i])
}

/// `BigInt::from(i64)`: the big integer equal to `n`.
#[verifier::external_body]
pub(crate) fn big_de_i64(n: i64) -> (r: BigInt)
    ensures
        valeur(r) == n,
{
    BigInt::from(n)
}

/// `BigInt::clone`: a copy with the same value.
#[verifier::external_body]
pub(crate) fn big_copie(a: &BigInt) -> (r: BigInt)
    ensures
        valeur(r) == valeur(*a),
{
    a.clone()
}

/// `&BigInt + &BigInt`: the exact sum.
#[verifier::external_body]
pub(crate) fn big_somme(a: &BigInt, b: &BigInt) -> (r: BigInt)
    ensures
        valeur(r) == valeur(*a) + valeur(*b),
{
    a + b
}

/// `&BigInt - &BigInt`: the exact difference.
#[verifier::external_body]
pub(crate) fn big_difference(a: &BigInt, b: &BigInt) -> (r: BigInt)
    ensures
        valeur(r) == valeur(*a) - valeur(*b),
{
    a - b
}

/// `&BigInt * &BigInt`: the exact product.
#[verifier::external_body]
pub(crate) fn big_produit(a: &BigInt, b: &BigInt) -> (r: BigInt)
    ensures
        valeur(r) == valeur(*a) * valeur(*b),
{
    a * b
}

/// `&BigInt / &BigInt`: the quotient truncated toward zero. The division
/// panics on a zero divisor, which the precondition excludes.
#[verifier::external_body]
pub(crate) fn big_quotient(a: &BigInt, b: &BigInt) -> (r: BigInt)
    requires
        valeur(*b) != 0,
    ensures
        valeur(r) == quotient(valeur(*a), valeur(*b)),
{
    a / b
}

/// `&BigInt % &BigInt`: the remainder of the truncating division, with the
/// sign of the dividend. It panics on a zero divisor, which the precondition
/// excludes.
#[verifier::external_body]
pub(crate) fn big_reste(a: &BigInt, b: &BigInt) -> (r: BigInt)
    requires
        valeur(*b) != 0,
    ensures
        valeur(r) == reste(valeur(*a), valeur(*b)),
{
    a % b
}

/// `-&BigInt`: the opposite.
#[verifier::external_body]
pub(crate) fn big_oppose(a: &BigInt) -> (r: BigInt)
    ensures
        valeur(r) == -valeur(*a),
{
    -a
}

/// `BigInt == BigInt`: equality of the values.
#[verifier::external_body]
pub(crate) fn big_egal(a: &BigInt, b: &BigInt) -> (r: bool)
    ensures
        r == (valeur(*a) == valeur(*b)),
{
    a == b
}

/// `BigInt < BigInt`: strict order of the values.
#[verifier::external_body]
pub(crate) fn big_inferieur(a: &BigInt, b: &BigInt) -> (r: bool)
    ensures
        r == (valeur(*a) < valeur(*b)),
{
    a < b
}

/// `Zero::is_zero` of `BigInt`.
#[verifier::external_body]
pub(crate) fn big_est_zero(a: &BigInt) -> (r: bool)
    ensures
        r == (valeur(*a) == 0),
{
    a.is_zero()
}

/// `One::is_one` of `BigInt`.
#[verifier::external_body]
pub(crate) fn big_est_un(a: &BigInt) -> (r: bool)
    ensures
        r == (valeur(*a) == 1),
{
    a.is_one()
}

/// `Signed::is_negative` of `BigInt`: strictly below zero.
#[verifier::external_body]
pub(crate) fn big_est_negatif(a: &BigInt) -> (r: bool)
    ensures
        r == (valeur(*a) < 0),
{
    a.is_negative()
}

/// `BigInt::pow`: the exact power.
#[verifier::external_body]
pub(crate) fn big_puissance(a: &BigInt, e: u32) -> (r: BigInt)
    ensures
        valeur(r) == pow(valeur(*a), e as nat),
{
    a.pow(e)
}

/// `BigInt::bits`: the least number of bits that write the absolute value;
/// zero for zero.
#[verifier::external_body]
pub(crate) fn big_bits(a: &BigInt) -> (r: u64)
    ensures
        valeur(*a) == 0 ==> r == 0,
        valeur(*a) != 0 ==> r >= 1 && pow2((r - 1) as nat) <= abs(valeur(*a)) < pow2(r as nat),
{
    a.bits()
}

/// `BigInt << u64`: the value times two to the power `n`.
#[verifier::external_body]
pub(crate) fn big_decale_gauche(a: &BigInt, n: u64) -> (r: BigInt)
    ensures
        valeur(r) == valeur(*a) * pow2(n as nat),
{
    a << n
}

/// `ToPrimitive::to_i64` of `BigInt`: the value as an `i64` where it fits,
/// `None` where it does not.
#[verifier::external_body]
pub(crate) fn big_vers_i64(a: &BigInt) -> (r: Option<i64>)
    ensures
        match r {
            Some(n) => n == valeur(*a),
            None => valeur(*a) < i64::MIN || valeur(*a) > i64::MAX,
        },
{
    a.to_i64()
}

/// `BigInt::to_string`: the decimal writing, `-` first for a negative value,
/// no leading zeros.
#[verifier::external_body]
pub(crate) fn big_texte(a: &BigInt) -> (r: String)
    ensures
        r@ == texte_entier(valeur(*a)),
{
    a.to_string()
}

/// `BigInt::parse_bytes` in radix 10, on a text made of decimal digits, at
/// least one: the number that the digits write.
#[verifier::external_body]
pub(crate) fn big_lu(chiffres: &str) -> (r: Option<BigInt>)
    requires
        chiffres@.len() > 0,
        tous_chiffres(chiffres@),
    ensures
        r is Some,
        valeur(r.unwrap()) == nombre_lu(chiffres@),
{
    BigInt::parse_bytes(chiffres.as_bytes(), 10)
}

/// Whether `r` is the floor of the square root of `n`.
pub open spec fn est_racine(n: int, r: int) -> bool {
    r >= 0 && r * r <= n && n < (r + 1) * (r + 1)
}

/// The floor of the square root of `n`, for `n >= 0`.
pub open spec fn racine(n: int) -> int
    recommends
        n >= 0,
{
    choose|r: int| est_racine(n, r)
}

/// Whether `n` is the square of an integer.
pub open spec fn est_carre(n: int) -> bool {
    n >= 0 && racine(n) * racine(n) == n
}

/// A number has at most one floor square root.
pub proof fn lemme_racine_unique(n: int, a: int, b: int)
    requires
        est_racine(n, a),
        est_racine(n, b),
    ensures
        a == b,
{
    if a < b {
        assert((a + 1) * (a + 1) <= b * b) by (nonlinear_arith)
            requires
                0 <= a + 1 <= b,
        ;
    }
    if b < a {
        assert((b + 1) * (b + 1) <= a * a) by (nonlinear_arith)
            requires
                0 <= b + 1 <= a,
        ;
    }
}

/// Any floor square root found is the one that [`racine`] names.
pub proof fn lemme_racine(n: int, r: int)
    requires
        est_racine(n, r),
    ensures
        racine(n) == r,
{
    lemme_racine_unique(n, r, racine(n));
}

/// One step of square-and-multiply.
proof fn lemme_puissance_binaire(b: int, e: nat)
    requires
        e > 0,
    ensures
        e % 2 == 1 ==> pow(b, e) == b * pow(b * b, e / 2),
        e % 2 == 0 ==> pow(b, e) == pow(b * b, e / 2),
{
    let k = e / 2;
    lemma_square_is_pow2(b);
    lemma_pow_multiplies(b, 2, k);
    assert(pow(b * b, k) == pow(b, 2 * k));
    if e % 2 == 1 {
        lemma_pow_adds(b, 1, 2 * k);
        lemma_pow1(b);
        assert(e == 1 + 2 * k);
    } else {
        assert(e == 2 * k);
    }
}

/// `base` to the power `exp`, by square-and-multiply.
pub fn big_puissance_rapide(base: &BigInt, exp: u64) -> (r: BigInt)
    ensures
        valeur(r) == pow(valeur(*base), exp as nat),
{
    let mut e: u64 = exp;
    let mut acc = big_de_i64(1);
    let mut b = big_copie(base);
    while e > 0
        invariant
            valeur(acc) * pow(valeur(b), e as nat) == pow(valeur(*base), exp as nat),
        decreases e,
    {
        proof {
            lemme_puissance_binaire(valeur(b), e as nat);
            lemma_mul_is_associative(valeur(acc), valeur(b), pow(valeur(b) * valeur(b), (e / 2) as nat));
            lemma_pow0(valeur(b));
            lemma_pow0(valeur(b) * valeur(b));
        }
        if e % 2 == 1 {
            acc = big_produit(&acc, &b);
        }
        e = e / 2;
        if e > 0 {
            b = big_produit(&b, &b);
        }
    }
    proof {
        lemma_pow0(valeur(b));
    }
    acc
}

/// Ten to the power `n`.
pub fn pow10(n: usize) -> (r: BigInt)
    ensures
        valeur(r) == pow(10, n as nat),
        valeur(r) > 0,
{
    proof {
        vstd::arithmetic::power::lemma_pow_positive(10, n as nat);
    }
    let dix = big_de_i64(10);
    if n <= 0xffff_ffff {
        big_puissance(&dix, n as u32)
    } else {
        big_puissance_rapide(&dix, n as u64)
    }
}

/// A power of two above the square root of `x`, from which Newton's
/// iteration descends.
fn approx_sqrt_start(x: &BigInt) -> (r: BigInt)
    requires
        valeur(*x) >= 0,
    ensures
        valeur(r) >= 1,
        valeur(r) * valeur(r) > valeur(*x),
{
    let bits = big_bits(x);
    let half: u64 = bits / 2 + bits % 2;
    proof {
        let h = half as nat;
        lemma_pow2_pos(h);
        vstd::arithmetic::power2::lemma_pow2_adds(h, h);
        if bits < 2 * half {
            vstd::arithmetic::power2::lemma_pow2_strictly_increases(bits as nat, 2 * h);
        }
        lemma_pow2_pos(bits as nat);
    }
    let un = big_de_i64(1);
    big_decale_gauche(&un, half)
}

/// The floor of the square root of `x`; zero when `x` is negative.
pub fn int_sqrt_floor(x: &BigInt) -> (r: BigInt)
    ensures
        valeur(*x) >= 0 ==> est_racine(valeur(*x), valeur(r)) && valeur(r) == racine(valeur(*x)),
        valeur(*x) < 0 ==> valeur(r) == 0,
{
    if big_est_zero(x) || big_est_negatif(x) {
        let z = big_de_i64(0);
        proof {
            if valeur(*x) == 0 {
                lemme_racine(0, 0);
            }
        }
        return z;
    }
    let un = big_de_i64(1);
    let deux = big_de_i64(2);
    let mut y = approx_sqrt_start(x);
    loop
        invariant
            valeur(*x) >= 1,
            valeur(y) >= 1,
            valeur(un) == 1,
            valeur(deux) == 2,
        decreases valeur(y),
    {
        let q = big_quotient(x, &y);
        let s = big_somme(&y, &q);
        assert(valeur(q) == valeur(*x) / valeur(y));
        assert(valeur(q) >= 0) by (nonlinear_arith)
            requires
                valeur(q) == valeur(*x) / valeur(y),
                valeur(*x) >= 1,
                valeur(y) >= 1,
        ;
        let y_next = big_quotient(&s, &deux);
        assert(valeur(y_next) == valeur(s) / 2);
        if !big_inferieur(&y_next, &y) {
            let mut z = y_next;
            loop
                invariant
                    valeur(*x) >= 1,
                    valeur(z) >= 0,
                    valeur(un) == 1,
                ensures
                    valeur(*x) < (valeur(z) + 1) * (valeur(z) + 1),
                decreases valeur(*x) - valeur(z),
            {
                let z1 = big_somme(&z, &un);
                let c = big_produit(&z1, &z1);
                if big_inferieur(x, &c) {
                    break ;
                }
                assert(valeur(z1) <= valeur(*x)) by (nonlinear_arith)
                    requires
                        valeur(z1) * valeur(z1) <= valeur(*x),
                        valeur(z1) >= 1,
                ;
                z = z1;
            }
            loop
                invariant
                    valeur(*x) >= 1,
                    valeur(z) >= 0,
                    valeur(un) == 1,
                    valeur(*x) < (valeur(z) + 1) * (valeur(z) + 1),
                ensures
                    valeur(z) * valeur(z) <= valeur(*x),
                decreases valeur(z),
            {
                let c = big_produit(&z, &z);
                if !big_inferieur(x, &c) {
                    break ;
                }
                z = big_difference(&z, &un);
            }
            proof {
                lemme_racine(valeur(*x), valeur(z));
            }
            return z;
        }
        assert(valeur(y_next) >= 1) by {
            let yv = valeur(y);
            let qv = valeur(q);
            if yv == 1 {
                assert(qv == valeur(*x)) by (nonlinear_arith)
                    requires
                        qv == valeur(*x) / yv,
                        yv == 1,
                ;
            }
        }
        y = y_next;
    }
}

/// The square root of `x` where `x` is a perfect square.
pub fn int_sqrt_exact(x: &BigInt) -> (r: Option<BigInt>)
    ensures
        r is Some <==> est_carre(valeur(*x)),
        r matches Some(s) ==> valeur(s) == racine(valeur(*x)),
{
    if big_est_negatif(x) {
        return None;
    }
    let s = int_sqrt_floor(x);
    let c = big_produit(&s, &s);
    if big_egal(&c, x) {
        Some(s)
    } else {
        None
    }
}

} // verus!

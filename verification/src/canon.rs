//! The canonical form: sums and products flattened, signs pulled out,
//! rationals folded, terms and factors in one fixed order, squares taken out
//! of square roots.
use crate::entier::{
    big_copie, big_de_i64, big_egal, big_est_un, big_est_zero, big_inferieur, big_produit,
    big_quotient, big_reste, big_somme, big_texte, texte_entier, valeur,
};
use crate::expr::{Expr, Terme};
use crate::rationnel::{
    frac, lemme_oppose, rat_de_i64, rat_denom, rat_entier, rat_est_entier, rat_est_negatif,
    rat_est_positif, rat_est_un, rat_est_zero, rat_numer, rat_oppose, rat_produit, rat_somme, Frac,
};
use crate::rpn::{pile_bien_formee, vue_pile};
use crate::texte::caracteres;
use vstd::arithmetic::div_mod::lemma_fundamental_div_mod;
use vstd::prelude::*;
use vstd::string::StringExecFns;

verus! {

/// The opposite: of a rational, the rational of the other sign; of anything
/// else, `0 - t`.
pub open spec fn oppose(t: Terme) -> Terme {
    match t {
        Terme::Rat(f) => Terme::Rat(f.oppose()),
        _ => Terme::moins(t),
    }
}

/// Whether the term is written as a negative: a rational below zero, or
/// `0 - y`.
pub open spec fn est_negatif(t: Terme) -> bool {
    match t {
        Terme::Rat(f) => f.est_negatif(),
        Terme::Sub(a, _) => a.est_zero(),
        _ => false,
    }
}

/// The term without its sign: `y` for the negative rational `-y` and for
/// `0 - y`, the term itself otherwise.
pub open spec fn valeur_absolue(t: Terme) -> Terme {
    match t {
        Terme::Rat(f) => if f.est_negatif() {
            Terme::Rat(f.oppose())
        } else {
            t
        },
        Terme::Sub(a, b) => if a.est_zero() {
            *b
        } else {
            t
        },
        _ => t,
    }
}

/// The rank of a term by its kind, the first key of the order.
pub open spec fn rang(t: Terme) -> int {
    match t {
        Terme::Rat(_) => 0,
        Terme::Var(_) => 1,
        Terme::Sqrt(_) => 2,
        Terme::Pi => 3,
        Terme::PowInt(_, _) => 4,
        Terme::Sin(_) | Terme::Cos(_) | Terme::Tan(_) => 5,
        Terme::Mul(_, _) | Terme::Div(_, _) => 6,
        Terme::Add(_, _) | Terme::Sub(_, _) => 7,
        Terme::Indefini => 255,
    }
}

/// The serialisation `NOM(a)` of a node with one operand.
pub open spec fn cle_unaire(nom: Seq<char>, a: Seq<char>) -> Seq<char> {
    nom + "("@ + a + ")"@
}

/// The serialisation `NOM(a,b)` of a node with two operands.
pub open spec fn cle_binaire(nom: Seq<char>, a: Seq<char>, b: Seq<char>) -> Seq<char> {
    nom + "("@ + a + ","@ + b + ")"@
}

/// The serialisation of a term, the second key of the order.
pub open spec fn cle(t: Terme) -> Seq<char>
    decreases t,
{
    match t {
        Terme::Rat(f) => "R"@ + texte_entier(f.num) + "/"@ + texte_entier(f.den),
        Terme::Var(s) => cle_unaire("VAR"@, s),
        Terme::Pi => "PI"@,
        Terme::Indefini => "INDEF"@,
        Terme::Sqrt(x) => cle_unaire("SQRT"@, cle(*x)),
        Terme::PowInt(x, n) => cle_binaire("POW"@, cle(*x), texte_entier(n as int)),
        Terme::Sin(x) => cle_unaire("SIN"@, cle(*x)),
        Terme::Cos(x) => cle_unaire("COS"@, cle(*x)),
        Terme::Tan(x) => cle_unaire("TAN"@, cle(*x)),
        Terme::Add(a, b) => cle_binaire("ADD"@, cle(*a), cle(*b)),
        Terme::Sub(a, b) => cle_binaire("SUB"@, cle(*a), cle(*b)),
        Terme::Mul(a, b) => cle_binaire("MUL"@, cle(*a), cle(*b)),
        Terme::Div(a, b) => cle_binaire("DIV"@, cle(*a), cle(*b)),
    }
}

/// Strict lexicographic order of two texts, character by character.
pub open spec fn lex_inferieur(a: Seq<char>, b: Seq<char>) -> bool
    decreases a.len(),
{
    if b.len() == 0 {
        false
    } else if a.len() == 0 {
        true
    } else if a[0] != b[0] {
        a[0] < b[0]
    } else {
        lex_inferieur(a.drop_first(), b.drop_first())
    }
}

/// The order of terms and factors: by rank, then by serialisation.
pub open spec fn precede(a: Terme, b: Terme) -> bool {
    rang(a) < rang(b) || (rang(a) == rang(b) && lex_inferieur(cle(a), cle(b)))
}

/// Where `x` enters the sequence `s`: before the first element that it
/// precedes, at the end if there is none.
pub open spec fn position_insertion(s: Seq<Terme>, x: Terme) -> nat
    decreases s.len(),
{
    if s.len() == 0 || precede(x, s[0]) {
        0
    } else {
        1 + position_insertion(s.drop_first(), x)
    }
}

/// The sequence in the order of [`precede`]; elements that neither precede
/// the other keep the order in which they came.
pub open spec fn tri(s: Seq<Terme>) -> Seq<Terme>
    decreases s.len(),
{
    if s.len() == 0 {
        s
    } else {
        let debut = tri(s.drop_last());
        debut.insert(position_insertion(debut, s.last()) as int, s.last())
    }
}

/// The lexicographic order is transitive.
pub proof fn lemme_lex_transitif(a: Seq<char>, b: Seq<char>, c: Seq<char>)
    requires
        lex_inferieur(a, b),
        lex_inferieur(b, c),
    ensures
        lex_inferieur(a, c),
    decreases a.len(),
{
    if a.len() > 0 && a[0] == b[0] && b[0] == c[0] {
        lemme_lex_transitif(a.drop_first(), b.drop_first(), c.drop_first());
    }
}

/// No text is below itself.
pub proof fn lemme_lex_irreflexif(a: Seq<char>)
    ensures
        !lex_inferieur(a, a),
    decreases a.len(),
{
    if a.len() > 0 {
        lemme_lex_irreflexif(a.drop_first());
    }
}

/// The order of the terms is transitive.
pub proof fn lemme_precede_transitif(a: Terme, b: Terme, c: Terme)
    requires
        precede(a, b),
        precede(b, c),
    ensures
        precede(a, c),
{
    if rang(a) == rang(b) && rang(b) == rang(c) {
        lemme_lex_transitif(cle(a), cle(b), cle(c));
    }
}

/// No term precedes itself.
pub proof fn lemme_precede_irreflexif(a: Terme)
    ensures
        !precede(a, a),
{
    lemme_lex_irreflexif(cle(a));
}

/// Whether no element of the sequence precedes an earlier one.
pub open spec fn est_trie(s: Seq<Terme>) -> bool {
    forall|i: int, j: int| 0 <= i < j < s.len() ==> !precede(#[trigger] s[j], #[trigger] s[i])
}

/// Before the position of insertion nothing is preceded by `x`; at the
/// position, if it is inside, stands an element that `x` precedes.
pub proof fn lemme_position_insertion(s: Seq<Terme>, x: Terme)
    ensures
        position_insertion(s, x) <= s.len(),
        forall|i: int| 0 <= i < position_insertion(s, x) ==> !precede(x, #[trigger] s[i]),
        position_insertion(s, x) < s.len() ==> precede(x, s[position_insertion(s, x) as int]),
    decreases s.len(),
{
    if s.len() > 0 && !precede(x, s[0]) {
        let r = s.drop_first();
        lemme_position_insertion(r, x);
        let p = position_insertion(r, x) as int;
        assert forall|i: int| 0 <= i < p + 1 implies !precede(x, #[trigger] s[i]) by {
            if i > 0 {
                assert(s[i] == r[i - 1]);
            }
        }
        if p < r.len() {
            assert(s[p + 1] == r[p]);
        }
    }
}

/// An element inserted at its position leaves a sorted sequence sorted.
pub proof fn lemme_insertion_triee(s: Seq<Terme>, x: Terme)
    requires
        est_trie(s),
    ensures
        est_trie(s.insert(position_insertion(s, x) as int, x)),
{
    lemme_position_insertion(s, x);
    let p = position_insertion(s, x) as int;
    let r = s.insert(p, x);
    assert forall|i: int, j: int| 0 <= i < j < r.len() implies !precede(
        #[trigger] r[j],
        #[trigger] r[i],
    ) by {
        if j < p {
            assert(r[i] == s[i] && r[j] == s[j]);
        } else if j == p {
            assert(r[i] == s[i]);
        } else if i < p {
            assert(r[i] == s[i] && r[j] == s[j - 1]);
        } else if i == p {
            // x precedes s[p]; were s[j - 1] before x, it would precede s[p].
            assert(r[j] == s[j - 1]);
            if precede(s[j - 1], x) {
                lemme_precede_transitif(s[j - 1], x, s[p]);
                if j - 1 == p {
                    lemme_precede_irreflexif(s[p]);
                }
            }
        } else {
            assert(r[i] == s[i - 1] && r[j] == s[j - 1]);
        }
    }
}

/// Sorting gives a sorted sequence.
pub proof fn lemme_tri_trie(s: Seq<Terme>)
    ensures
        est_trie(tri(s)),
    decreases s.len(),
{
    if s.len() > 0 {
        lemme_tri_trie(s.drop_last());
        lemme_insertion_triee(tri(s.drop_last()), s.last());
    }
}

/// Sorting leaves a sorted sequence as it is.
pub proof fn lemme_tri_fixe(s: Seq<Terme>)
    requires
        est_trie(s),
    ensures
        tri(s) == s,
    decreases s.len(),
{
    if s.len() > 0 {
        let d = s.drop_last();
        assert(est_trie(d)) by {
            assert forall|i: int, j: int| 0 <= i < j < d.len() implies !precede(
                #[trigger] d[j],
                #[trigger] d[i],
            ) by {
                assert(d[i] == s[i] && d[j] == s[j]);
            }
        }
        lemme_tri_fixe(d);
        lemme_position_insertion(d, s.last());
        let p = position_insertion(d, s.last());
        if p < d.len() {
            assert(d[p as int] == s[p as int]);
            assert(!precede(s[s.len() - 1], s[p as int]));
        }
        assert(d.insert(d.len() as int, s.last()) =~= s);
    }
}

/// Sorting twice is sorting once.
pub proof fn lemme_tri_idempotent(s: Seq<Terme>)
    ensures
        tri(tri(s)) == tri(s),
{
    lemme_tri_trie(s);
    lemme_tri_fixe(tri(s));
}

/// Sorting keeps the elements, each as many times as it came.
pub proof fn lemme_tri_permutation(s: Seq<Terme>)
    ensures
        tri(s).to_multiset() == s.to_multiset(),
    decreases s.len(),
{
    broadcast use vstd::seq_lib::group_to_multiset_ensures;

    if s.len() > 0 {
        let d = s.drop_last();
        lemme_tri_permutation(d);
        lemme_position(tri(d), s.last());
        assert(s =~= d.push(s.last()));
        vstd::seq_lib::to_multiset_insert(
            tri(d),
            position_insertion(tri(d), s.last()) as int,
            s.last(),
        );
        vstd::seq_lib::to_multiset_build(d, s.last());
    } else {
        assert(tri(s) =~= s);
    }
}

/// The two keys of a term.
struct Cle {
    rang: u8,
    texte: Vec<char>,
}

impl Cle {
    /// Whether these are the two keys of the term `t`.
    spec fn est_de(self, t: Terme) -> bool {
        self.rang == rang(t) && self.texte@ == cle(t)
    }
}

/// The rank of an expression by its kind.
fn rang_de(e: &Expr) -> (r: u8)
    ensures
        r == rang(e@),
{
    match e {
        Expr::Rat(_) => 0,
        Expr::Var(_) => 1,
        Expr::Sqrt(_) => 2,
        Expr::Pi => 3,
        Expr::PowInt(_, _) => 4,
        Expr::Sin(_) | Expr::Cos(_) | Expr::Tan(_) => 5,
        Expr::Mul(_, _) | Expr::Div(_, _) => 6,
        Expr::Add(_, _) | Expr::Sub(_, _) => 7,
        Expr::Indefini => 255,
    }
}

/// Writes `NOM(a)`.
fn texte_unaire(nom: &str, a: &str) -> (r: String)
    ensures
        r@ == cle_unaire(nom@, a@),
{
    let mut r = String::from_str(nom);
    r.append("(");
    r.append(a);
    r.append(")");
    r
}

/// Writes `NOM(a,b)`.
fn texte_binaire(nom: &str, a: &str, b: &str) -> (r: String)
    ensures
        r@ == cle_binaire(nom@, a@, b@),
{
    let mut r = String::from_str(nom);
    r.append("(");
    r.append(a);
    r.append(",");
    r.append(b);
    r.append(")");
    r
}

/// The serialisation of an expression.
fn key_string(e: &Expr) -> (r: String)
    ensures
        r@ == cle(e@),
    decreases e,
{
    match e {
        Expr::Rat(q) => {
            let n = big_texte(rat_numer(q));
            let d = big_texte(rat_denom(q));
            let mut r = String::from_str("R");
            r.append(n.as_str());
            r.append("/");
            r.append(d.as_str());
            r
        },
        Expr::Var(s) => texte_unaire("VAR", s.as_str()),
        Expr::Pi => String::from_str("PI"),
        Expr::Indefini => String::from_str("INDEF"),
        Expr::Sqrt(x) => texte_unaire("SQRT", key_string(&**x).as_str()),
        Expr::PowInt(x, n) => {
            let tn = big_texte(&big_de_i64(*n));
            texte_binaire("POW", key_string(&**x).as_str(), tn.as_str())
        },
        Expr::Sin(x) => texte_unaire("SIN", key_string(&**x).as_str()),
        Expr::Cos(x) => texte_unaire("COS", key_string(&**x).as_str()),
        Expr::Tan(x) => texte_unaire("TAN", key_string(&**x).as_str()),
        Expr::Add(a, b) => texte_binaire(
            "ADD",
            key_string(&**a).as_str(),
            key_string(&**b).as_str(),
        ),
        Expr::Sub(a, b) => texte_binaire(
            "SUB",
            key_string(&**a).as_str(),
            key_string(&**b).as_str(),
        ),
        Expr::Mul(a, b) => texte_binaire(
            "MUL",
            key_string(&**a).as_str(),
            key_string(&**b).as_str(),
        ),
        Expr::Div(a, b) => texte_binaire(
            "DIV",
            key_string(&**a).as_str(),
            key_string(&**b).as_str(),
        ),
    }
}

/// The two keys of an expression.
fn cle_de(e: &Expr) -> (c: Cle)
    ensures
        c.est_de(e@),
{
    let k = key_string(e);
    Cle { rang: rang_de(e), texte: caracteres(k.as_str()) }
}

/// Strict lexicographic order of two texts.
fn texte_inferieur(a: &Vec<char>, b: &Vec<char>) -> (r: bool)
    ensures
        r == lex_inferieur(a@, b@),
{
    let mut i: usize = 0;
    proof {
        assert(a@.skip(0) =~= a@);
        assert(b@.skip(0) =~= b@);
    }
    while i < a.len() && i < b.len()
        invariant
            i <= a.len(),
            i <= b.len(),
            lex_inferieur(a@, b@) == lex_inferieur(a@.skip(i as int), b@.skip(i as int)),
        decreases a.len() - i,
    {
        proof {
            assert(a@.skip(i as int)[0] == a@[i as int]);
            assert(b@.skip(i as int)[0] == b@[i as int]);
            assert(a@.skip(i as int).drop_first() =~= a@.skip(i + 1));
            assert(b@.skip(i as int).drop_first() =~= b@.skip(i + 1));
        }
        if a[i] != b[i] {
            return a[i] < b[i];
        }
        i += 1;
    }
    i < b.len()
}

/// Whether the term of key `a` precedes the term of key `b`.
fn cle_precede(a: &Cle, b: &Cle) -> (r: bool)
    ensures
        forall|x: Terme, y: Terme| a.est_de(x) && b.est_de(y) ==> r == precede(x, y),
{
    a.rang < b.rang || (a.rang == b.rang && texte_inferieur(&a.texte, &b.texte))
}

/// Whether the keys are those of the terms, one for one.
spec fn cles_de(cles: Seq<Cle>, s: Seq<Terme>) -> bool {
    cles.len() == s.len() && forall|i: int| 0 <= i < s.len() ==> (#[trigger] cles[i]).est_de(s[i])
}

/// Sorts the expressions in the order of [`precede`], stably.
fn trie(v: Vec<Expr>) -> (r: Vec<Expr>)
    ensures
        vue_pile(r@) == tri(vue_pile(v@)),
        pile_bien_formee(vue_pile(v@)) ==> pile_bien_formee(vue_pile(r@)),
{
    let mut res: Vec<Expr> = Vec::new();
    let mut cles: Vec<Cle> = Vec::new();
    let ghost tous = vue_pile(v@);
    let mut i: usize = 0;
    proof {
        assert(tous.take(0) =~= Seq::<Terme>::empty());
        assert(vue_pile(res@) =~= Seq::<Terme>::empty());
    }
    while i < v.len()
        invariant
            i <= v.len(),
            tous == vue_pile(v@),
            vue_pile(res@) == tri(tous.take(i as int)),
            cles_de(cles@, vue_pile(res@)),
            pile_bien_formee(tous) ==> pile_bien_formee(vue_pile(res@)),
        decreases v.len() - i,
    {
        let x = v[i].clone();
        let kx = cle_de(&x);
        let ghost s = vue_pile(res@);
        let mut p: usize = 0;
        proof {
            assert(s.skip(0) =~= s);
        }
        while p < cles.len() && !cle_precede(&kx, &cles[p])
            invariant
                p <= cles.len(),
                cles_de(cles@, s),
                kx.est_de(x@),
                position_insertion(s, x@) == p + position_insertion(s.skip(p as int), x@),
            decreases cles.len() - p,
        {
            proof {
                assert(s.skip(p as int)[0] == s[p as int]);
                assert(s.skip(p as int).drop_first() =~= s.skip(p + 1));
            }
            p += 1;
        }
        proof {
            if p < cles.len() {
                assert(s.skip(p as int)[0] == s[p as int]);
            }
            assert(position_insertion(s, x@) == p);
            assert(tous.take(i + 1).drop_last() =~= tous.take(i as int));
            assert(tous.take(i + 1).last() == x@);
        }
        res.insert(p, x);
        cles.insert(p, kx);
        proof {
            assert(vue_pile(res@) =~= s.insert(p as int, x@));
        }
        i += 1;
    }
    proof {
        assert(tous.take(v@.len() as int) =~= tous);
    }
    res
}

/// The terms of a chain of sums and differences, each with its sign
/// pushed into it.
pub open spec fn termes_somme(t: Terme) -> Seq<Terme>
    decreases t,
{
    match t {
        Terme::Add(a, b) => termes_somme(*a) + termes_somme(*b),
        Terme::Sub(a, b) => termes_somme(*a).push(oppose(*b)),
        _ => seq![t],
    }
}

/// The sum of the rationals of a sequence, taken from the left.
pub open spec fn somme_rationnels(s: Seq<Terme>) -> Frac
    decreases s.len(),
{
    if s.len() == 0 {
        Frac::entier(0)
    } else {
        match s.last() {
            Terme::Rat(f) => somme_rationnels(s.drop_last()).plus(f),
            _ => somme_rationnels(s.drop_last()),
        }
    }
}

/// The sequence without its rationals.
pub open spec fn sans_rationnels(s: Seq<Terme>) -> Seq<Terme>
    decreases s.len(),
{
    if s.len() == 0 {
        s
    } else if s.last() is Rat {
        sans_rationnels(s.drop_last())
    } else {
        sans_rationnels(s.drop_last()).push(s.last())
    }
}

/// One more term on a sum: a term written as a negative is subtracted.
pub open spec fn ajoute_terme(acc: Terme, t: Terme) -> Terme {
    if est_negatif(t) {
        Terme::Sub(Box::new(acc), Box::new(valeur_absolue(t)))
    } else {
        Terme::Add(Box::new(acc), Box::new(t))
    }
}

/// The sum of the terms of a sequence that is not empty, built from the
/// left.
pub open spec fn reconstruit_somme(v: Seq<Terme>) -> Terme
    decreases v.len(),
{
    if v.len() <= 1 {
        v[0]
    } else {
        ajoute_terme(reconstruit_somme(v.drop_last()), v.last())
    }
}

/// The terms of a canonical sum before they are put in order: the terms that
/// are not rational, then the sum of the rationals unless it is zero.
pub open spec fn termes_regroupes(termes: Seq<Terme>) -> Seq<Terme> {
    let r = somme_rationnels(termes);
    if r.est_zero() {
        sans_rationnels(termes)
    } else {
        sans_rationnels(termes).push(Terme::Rat(r))
    }
}

/// The canonical form of a sum or difference whose operands are canonical.
pub open spec fn canon_somme(t: Terme) -> Terme {
    let v = termes_regroupes(termes_somme(t));
    if v.len() == 0 {
        Terme::entier(0)
    } else {
        reconstruit_somme(tri(v))
    }
}

/// The factors of a chain of products. A negation `0 - y` within the chain
/// is the factor `-1` before the factors of `y`, so that no factor is
/// itself a product or a negation.
pub open spec fn facteurs(t: Terme) -> Seq<Terme>
    decreases t,
{
    match t {
        Terme::Mul(a, b) => facteurs(*a) + facteurs(*b),
        Terme::Sub(a, y) => if a.est_zero() {
            seq![Terme::entier(-1)] + facteurs(*y)
        } else {
            seq![t]
        },
        _ => seq![t],
    }
}

/// Whether one of the terms is `Indefini`.
pub open spec fn un_indefini(s: Seq<Terme>) -> bool {
    exists|i: int| 0 <= i < s.len() && s[i] is Indefini
}

/// Whether one of the terms is the rational zero.
pub open spec fn un_zero(s: Seq<Terme>) -> bool {
    exists|i: int| 0 <= i < s.len() && (#[trigger] s[i]).est_zero()
}

/// Whether an odd number of the factors are written as negatives.
pub open spec fn signe_negatif(s: Seq<Terme>) -> bool
    decreases s.len(),
{
    if s.len() == 0 {
        false
    } else {
        signe_negatif(s.drop_last()) != est_negatif(s.last())
    }
}

/// The product of the absolute values of the rational factors, taken from
/// the left; a factor one is passed over.
pub open spec fn produit_rationnels(s: Seq<Terme>) -> Frac
    decreases s.len(),
{
    if s.len() == 0 {
        Frac::entier(1)
    } else {
        match valeur_absolue(s.last()) {
            Terme::Rat(f) => if f.est_un() {
                produit_rationnels(s.drop_last())
            } else {
                produit_rationnels(s.drop_last()).fois(f)
            },
            _ => produit_rationnels(s.drop_last()),
        }
    }
}

/// The absolute values of the factors that are not rational.
pub open spec fn autres_facteurs(s: Seq<Terme>) -> Seq<Terme>
    decreases s.len(),
{
    if s.len() == 0 {
        s
    } else if valeur_absolue(s.last()) is Rat {
        autres_facteurs(s.drop_last())
    } else {
        autres_facteurs(s.drop_last()).push(valeur_absolue(s.last()))
    }
}

/// The product of the factors of a sequence that is not empty, built from
/// the left.
pub open spec fn reconstruit_produit(v: Seq<Terme>) -> Terme
    decreases v.len(),
{
    if v.len() <= 1 {
        v[0]
    } else {
        Terme::Mul(Box::new(reconstruit_produit(v.drop_last())), Box::new(v.last()))
    }
}

/// The coefficient of a canonical product: the product of the rational
/// factors, with the sign of the whole.
pub open spec fn coefficient(fs: Seq<Terme>) -> Frac {
    if signe_negatif(fs) {
        produit_rationnels(fs).oppose()
    } else {
        produit_rationnels(fs)
    }
}

/// The factors of a canonical product before they are put in order: the
/// factors that are not rational, then the coefficient unless it is one.
pub open spec fn facteurs_regroupes(fs: Seq<Terme>) -> Seq<Terme> {
    if coefficient(fs).est_un() {
        autres_facteurs(fs)
    } else {
        autres_facteurs(fs).push(Terme::Rat(coefficient(fs)))
    }
}

/// The canonical form of a product whose operands are canonical.
pub open spec fn canon_produit(t: Terme) -> Terme {
    let fs = facteurs(t);
    if un_indefini(fs) {
        Terme::Indefini
    } else if un_zero(fs) || produit_rationnels(fs).est_zero() {
        Terme::entier(0)
    } else {
        let v = facteurs_regroupes(fs);
        if v.len() == 0 {
            Terme::entier(1)
        } else {
            reconstruit_produit(tri(v))
        }
    }
}

/// The opposite of an expression.
fn neg(e: Expr) -> (r: Expr)
    requires
        e@.bien_forme(),
    ensures
        r@ == oppose(e@),
        r@.bien_forme(),
{
    match e {
        Expr::Rat(q) => {
            proof {
                lemme_oppose(frac(q));
            }
            Expr::Rat(rat_oppose(&q))
        },
        autre => Expr::moins(autre),
    }
}

/// The sign of an expression and the expression without it.
fn split_signe(e: Expr) -> (r: (bool, Expr))
    requires
        e@.bien_forme(),
    ensures
        r.0 == est_negatif(e@),
        r.1@ == valeur_absolue(e@),
        r.1@.bien_forme(),
{
    match e {
        Expr::Rat(q) => {
            if rat_est_negatif(&q) {
                proof {
                    lemme_oppose(frac(q));
                }
                (true, Expr::Rat(rat_oppose(&q)))
            } else {
                (false, Expr::Rat(q))
            }
        },
        Expr::Sub(a, b) => {
            if (*a).est_zero() {
                (true, *b)
            } else {
                (false, Expr::Sub(a, b))
            }
        },
        autre => (false, autre),
    }
}

/// Appends to `out` the terms of a chain of sums and differences, each with
/// its sign pushed into it.
fn collect_addsub(e: Expr, out: &mut Vec<Expr>)
    requires
        e@.bien_forme(),
        pile_bien_formee(vue_pile(old(out)@)),
    ensures
        vue_pile(final(out)@) == vue_pile(old(out)@) + termes_somme(e@),
        pile_bien_formee(vue_pile(final(out)@)),
    decreases e,
{
    let ghost avant = vue_pile(out@);
    match e {
        Expr::Add(a, b) => {
            collect_addsub(*a, out);
            collect_addsub(*b, out);
            assert(vue_pile(out@) =~= avant + (termes_somme((*a)@) + termes_somme((*b)@)));
        },
        Expr::Sub(a, b) => {
            collect_addsub(*a, out);
            let n = neg(*b);
            let ghost milieu = vue_pile(out@);
            out.push(n);
            assert(vue_pile(out@) =~= milieu.push(n@));
            assert(vue_pile(out@) =~= avant + termes_somme((*a)@).push(oppose((*b)@)));
        },
        autre => {
            out.push(autre);
            assert(vue_pile(out@) =~= avant + seq![autre@]);
        },
    }
}

/// Appends to `out` the factors of a chain of products, `-1` for each
/// negation within the chain.
fn collect_mul(e: Expr, out: &mut Vec<Expr>)
    requires
        e@.bien_forme(),
        pile_bien_formee(vue_pile(old(out)@)),
    ensures
        vue_pile(final(out)@) == vue_pile(old(out)@) + facteurs(e@),
        pile_bien_formee(vue_pile(final(out)@)),
    decreases e,
{
    let ghost avant = vue_pile(out@);
    match e {
        Expr::Mul(a, b) => {
            collect_mul(*a, out);
            collect_mul(*b, out);
            assert(vue_pile(out@) =~= avant + (facteurs((*a)@) + facteurs((*b)@)));
        },
        Expr::Sub(a, y) => {
            if a.est_zero() {
                out.push(Expr::entier(-1));
                assert(vue_pile(out@) =~= avant + seq![Terme::entier(-1)]);
                collect_mul(*y, out);
                assert(vue_pile(out@) =~= avant + (seq![Terme::entier(-1)] + facteurs((*y)@)));
            } else {
                let autre = Expr::Sub(a, y);
                out.push(autre);
                assert(vue_pile(out@) =~= avant + seq![autre@]);
            }
        },
        autre => {
            out.push(autre);
            assert(vue_pile(out@) =~= avant + seq![autre@]);
        },
    }
}

/// Builds the sum of the expressions, from the left.
fn rebatit_somme(v: Vec<Expr>) -> (r: Expr)
    requires
        v@.len() > 0,
        pile_bien_formee(vue_pile(v@)),
    ensures
        r@ == reconstruit_somme(vue_pile(v@)),
        r@.bien_forme(),
{
    let ghost tous = vue_pile(v@);
    let mut acc = v[0].clone();
    let mut i: usize = 1;
    proof {
        assert(tous.take(1).len() == 1);
    }
    while i < v.len()
        invariant
            1 <= i <= v.len(),
            tous == vue_pile(v@),
            pile_bien_formee(tous),
            acc@ == reconstruit_somme(tous.take(i as int)),
            acc@.bien_forme(),
        decreases v.len() - i,
    {
        let t = v[i].clone();
        proof {
            assert(tous.take(i + 1).drop_last() =~= tous.take(i as int));
            assert(tous.take(i + 1).last() == t@);
            assert(tous[i as int].bien_forme());
        }
        let (negatif, abs) = split_signe(t);
        if negatif {
            acc = Expr::Sub(Box::new(acc), Box::new(abs));
        } else {
            acc = Expr::Add(Box::new(acc), Box::new(abs));
        }
        i += 1;
    }
    proof {
        assert(tous.take(v@.len() as int) =~= tous);
    }
    acc
}

/// Builds the product of the expressions, from the left.
fn rebatit_produit(v: Vec<Expr>) -> (r: Expr)
    requires
        v@.len() > 0,
        pile_bien_formee(vue_pile(v@)),
    ensures
        r@ == reconstruit_produit(vue_pile(v@)),
        r@.bien_forme(),
{
    let ghost tous = vue_pile(v@);
    let mut acc = v[0].clone();
    let mut i: usize = 1;
    proof {
        assert(tous.take(1).len() == 1);
    }
    while i < v.len()
        invariant
            1 <= i <= v.len(),
            tous == vue_pile(v@),
            pile_bien_formee(tous),
            acc@ == reconstruit_produit(tous.take(i as int)),
            acc@.bien_forme(),
        decreases v.len() - i,
    {
        let t = v[i].clone();
        proof {
            assert(tous.take(i + 1).drop_last() =~= tous.take(i as int));
            assert(tous.take(i + 1).last() == t@);
            assert(tous[i as int].bien_forme());
        }
        acc = Expr::Mul(Box::new(acc), Box::new(t));
        i += 1;
    }
    proof {
        assert(tous.take(v@.len() as int) =~= tous);
    }
    acc
}

/// The canonical form of a sum or difference whose operands are canonical.
fn canon_addsub(e: Expr) -> (r: Expr)
    requires
        e@.bien_forme(),
    ensures
        r@ == canon_somme(e@),
        r@.bien_forme(),
{
    let mut termes: Vec<Expr> = Vec::new();
    proof {
        assert(vue_pile(termes@) =~= Seq::<Terme>::empty());
    }
    collect_addsub(e, &mut termes);
    let ghost tous = vue_pile(termes@);
    proof {
        assert(tous =~= termes_somme(e@));
    }
    let mut somme_rat = rat_de_i64(0);
    let mut v: Vec<Expr> = Vec::new();
    let mut i: usize = 0;
    proof {
        assert(vue_pile(v@) =~= Seq::<Terme>::empty());
        assert(tous.take(0) =~= Seq::<Terme>::empty());
    }
    while i < termes.len()
        invariant
            i <= termes.len(),
            tous == vue_pile(termes@),
            pile_bien_formee(tous),
            frac(somme_rat) == somme_rationnels(tous.take(i as int)),
            frac(somme_rat).bien_forme(),
            vue_pile(v@) == sans_rationnels(tous.take(i as int)),
            pile_bien_formee(vue_pile(v@)),
        decreases termes.len() - i,
    {
        proof {
            assert(tous.take(i + 1).drop_last() =~= tous.take(i as int));
            assert(tous.take(i + 1).last() == termes@[i as int]@);
            assert(tous[i as int].bien_forme());
        }
        match &termes[i] {
            Expr::Rat(q) => {
                somme_rat = rat_somme(&somme_rat, q);
            },
            autre => {
                let ghost avant = vue_pile(v@);
                let c = autre.clone();
                v.push(c);
                assert(vue_pile(v@) =~= avant.push(c@));
            },
        }
        i += 1;
    }
    proof {
        assert(tous.take(termes@.len() as int) =~= tous);
    }
    if !rat_est_zero(&somme_rat) {
        let ghost avant = vue_pile(v@);
        let c = Expr::Rat(somme_rat);
        v.push(c);
        assert(vue_pile(v@) =~= avant.push(c@));
    }
    if v.len() == 0 {
        return Expr::entier(0);
    }
    let v = trie(v);
    proof {
        lemme_tri_longueur(termes_regroupes(tous));
    }
    rebatit_somme(v)
}

/// Sorting keeps the number of elements.
pub proof fn lemme_tri_longueur(s: Seq<Terme>)
    ensures
        tri(s).len() == s.len(),
    decreases s.len(),
{
    if s.len() > 0 {
        lemme_tri_longueur(s.drop_last());
        lemme_position(tri(s.drop_last()), s.last());
    }
}

/// The position of insertion lies within the sequence or at its end.
pub proof fn lemme_position(s: Seq<Terme>, x: Terme)
    ensures
        position_insertion(s, x) <= s.len(),
    decreases s.len(),
{
    if s.len() > 0 && !precede(x, s[0]) {
        lemme_position(s.drop_first(), x);
    }
}

/// Whether one of the expressions is `Indefini`.
fn contient_indefini(v: &Vec<Expr>) -> (b: bool)
    ensures
        b == un_indefini(vue_pile(v@)),
{
    let mut i: usize = 0;
    while i < v.len()
        invariant
            i <= v.len(),
            forall|j: int| 0 <= j < i ==> !(vue_pile(v@)[j] is Indefini),
        decreases v.len() - i,
    {
        if v[i].est_indefini() {
            assert(vue_pile(v@)[i as int] is Indefini);
            return true;
        }
        i += 1;
    }
    false
}

/// Whether one of the expressions is the rational zero.
fn contient_zero(v: &Vec<Expr>) -> (b: bool)
    ensures
        b == un_zero(vue_pile(v@)),
{
    let mut i: usize = 0;
    while i < v.len()
        invariant
            i <= v.len(),
            forall|j: int| 0 <= j < i ==> !(#[trigger] vue_pile(v@)[j]).est_zero(),
        decreases v.len() - i,
    {
        if v[i].est_zero() {
            assert(vue_pile(v@)[i as int].est_zero());
            return true;
        }
        i += 1;
    }
    false
}

/// The canonical form of a product whose operands are canonical.
fn canon_mul(e: Expr) -> (r: Expr)
    requires
        e@.bien_forme(),
    ensures
        r@ == canon_produit(e@),
        r@.bien_forme(),
{
    let mut fs: Vec<Expr> = Vec::new();
    proof {
        assert(vue_pile(fs@) =~= Seq::<Terme>::empty());
    }
    collect_mul(e, &mut fs);
    let ghost tous = vue_pile(fs@);
    proof {
        assert(tous =~= facteurs(e@));
    }
    if contient_indefini(&fs) {
        return Expr::Indefini;
    }
    if contient_zero(&fs) {
        return Expr::entier(0);
    }
    let mut signe_neg = false;
    let mut prod_rat = rat_de_i64(1);
    let mut v: Vec<Expr> = Vec::new();
    let mut i: usize = 0;
    proof {
        assert(vue_pile(v@) =~= Seq::<Terme>::empty());
        assert(tous.take(0) =~= Seq::<Terme>::empty());
    }
    while i < fs.len()
        invariant
            i <= fs.len(),
            tous == vue_pile(fs@),
            pile_bien_formee(tous),
            signe_neg == signe_negatif(tous.take(i as int)),
            frac(prod_rat) == produit_rationnels(tous.take(i as int)),
            frac(prod_rat).bien_forme(),
            vue_pile(v@) == autres_facteurs(tous.take(i as int)),
            pile_bien_formee(vue_pile(v@)),
        decreases fs.len() - i,
    {
        let f = fs[i].clone();
        proof {
            assert(tous.take(i + 1).drop_last() =~= tous.take(i as int));
            assert(tous.take(i + 1).last() == f@);
            assert(tous[i as int].bien_forme());
        }
        let (neg_f, abs_f) = split_signe(f);
        if neg_f {
            signe_neg = !signe_neg;
        }
        match abs_f {
            Expr::Rat(q) => {
                if !rat_est_un(&q) {
                    prod_rat = rat_produit(&prod_rat, &q);
                }
            },
            autre => {
                let ghost avant = vue_pile(v@);
                v.push(autre);
                assert(vue_pile(v@) =~= avant.push(autre@));
            },
        }
        i += 1;
    }
    proof {
        assert(tous.take(fs@.len() as int) =~= tous);
    }
    if rat_est_zero(&prod_rat) {
        return Expr::entier(0);
    }
    if signe_neg {
        proof {
            lemme_oppose(frac(prod_rat));
        }
        prod_rat = rat_oppose(&prod_rat);
    }
    if !rat_est_un(&prod_rat) {
        let ghost avant = vue_pile(v@);
        let c = Expr::Rat(prod_rat);
        v.push(c);
        assert(vue_pile(v@) =~= avant.push(c@));
    }
    if v.len() == 0 {
        return Expr::entier(1);
    }
    let v = trie(v);
    proof {
        lemme_tri_longueur(facteurs_regroupes(tous));
    }
    rebatit_produit(v)
}

/// The quotient by a denominator that has given its sign away: `a / 1` is
/// `a`, `0 / b` is zero.
pub open spec fn quotient_net(a: Terme, b: Terme) -> Terme {
    if b.est_un() {
        a
    } else if a.est_zero() {
        Terme::entier(0)
    } else {
        Terme::Div(Box::new(a), Box::new(b))
    }
}

/// The canonical form of a quotient whose operands are canonical. The sign
/// of the denominator moves to the numerator, as often as the denominator
/// is written as a negative; then `a / 1` is `a` and `0 / b` is zero. An
/// `Indefini` on either side, uncovered by a sign or not, gives `Indefini`.
pub open spec fn canon_quotient(a: Terme, b: Terme) -> Terme
    decreases b,
{
    if a is Indefini || b is Indefini {
        Terme::Indefini
    } else {
        match b {
            Terme::Rat(f) => if f.est_negatif() {
                quotient_net(oppose(a), Terme::Rat(f.oppose()))
            } else {
                quotient_net(a, b)
            },
            Terme::Sub(z, y) => if z.est_zero() {
                canon_quotient(oppose(a), *y)
            } else {
                quotient_net(a, b)
            },
            _ => quotient_net(a, b),
        }
    }
}

/// The canonical form of an integer power whose base is canonical.
pub open spec fn canon_puissance(base: Terme, n: i64) -> Terme {
    if base is Indefini {
        Terme::Indefini
    } else if n == 0 {
        Terme::entier(1)
    } else {
        Terme::PowInt(Box::new(base), n)
    }
}

/// The next divisor that is tried: 2, then the odd numbers.
pub open spec fn diviseur_suivant(p: int) -> int {
    if p == 2 {
        3
    } else {
        p + 2
    }
}

/// Trial division: from the state `(reste, s, p)` with `n == s² · reste`,
/// every square `p²` that divides `reste` moves into `s`, for `p` in 2, 3, 5,
/// 7, ... as long as `p² <= reste`. The result is `(s, reste)`.
pub open spec fn essais(reste: int, s: int, p: int) -> (int, int)
    decreases reste, reste - p,
{
    if p >= 2 && p * p <= reste {
        if reste % (p * p) == 0 {
            proof {
                assert(reste / (p * p) < reste && reste / (p * p) >= 0) by (nonlinear_arith)
                    requires
                        p >= 2,
                        p * p <= reste,
                ;
            }
            essais(reste / (p * p), s * p, p)
        } else {
            proof {
                assert(p + 2 <= p * p) by (nonlinear_arith)
                    requires
                        p >= 2,
                ;
            }
            essais(reste, s, diviseur_suivant(p))
        }
    } else {
        (s, reste)
    }
}

/// The decomposition `n == s² · t` of a natural number, by trial division:
/// the pair `(s, t)`.
pub open spec fn extrait(n: int) -> (int, int) {
    if n == 0 {
        (0, 0)
    } else if n == 1 {
        (1, 1)
    } else {
        essais(n, 1, 2)
    }
}

/// `√n` for an integer `n`.
pub open spec fn racine_de(n: int) -> Terme {
    Terme::Sqrt(Box::new(Terme::entier(n)))
}

/// The canonical form of a square root whose argument is canonical: the
/// root of a positive integer `s² · t` is `s · √t`.
pub open spec fn canon_racine(x: Terme) -> Terme {
    match x {
        Terme::Indefini => Terme::Indefini,
        Terme::Rat(f) => if f.est_zero() {
            Terme::entier(0)
        } else if f.est_positif() && f.est_entier() {
            let (s, t) = extrait(f.num);
            if t == 1 {
                Terme::entier(s)
            } else if s != 1 {
                canon_produit(Terme::Mul(Box::new(Terme::entier(s)), Box::new(racine_de(t))))
            } else {
                racine_de(t)
            }
        } else {
            Terme::Sqrt(Box::new(x))
        },
        _ => Terme::Sqrt(Box::new(x)),
    }
}

/// The canonical form of a term.
pub open spec fn canon(t: Terme) -> Terme
    decreases t,
{
    match t {
        Terme::Rat(_) | Terme::Pi | Terme::Indefini | Terme::Var(_) => t,
        Terme::Sqrt(x) => canon_racine(canon(*x)),
        Terme::PowInt(x, n) => canon_puissance(canon(*x), n),
        Terme::Sin(x) => Terme::Sin(Box::new(canon(*x))),
        Terme::Cos(x) => Terme::Cos(Box::new(canon(*x))),
        Terme::Tan(x) => Terme::Tan(Box::new(canon(*x))),
        Terme::Add(a, b) => canon_somme(Terme::Add(Box::new(canon(*a)), Box::new(canon(*b)))),
        Terme::Sub(a, b) => canon_somme(Terme::Sub(Box::new(canon(*a)), Box::new(canon(*b)))),
        Terme::Mul(a, b) => canon_produit(Terme::Mul(Box::new(canon(*a)), Box::new(canon(*b)))),
        Terme::Div(a, b) => canon_quotient(canon(*a), canon(*b)),
    }
}

/// The quotient by a denominator that has given its sign away; see
/// [`quotient_net`].
fn quotient_simple(a: Expr, b: Expr) -> (r: Expr)
    requires
        a@.bien_forme(),
        b@.bien_forme(),
    ensures
        r@ == quotient_net(a@, b@),
        r@.bien_forme(),
{
    if b.est_un() {
        return a;
    }
    if a.est_zero() {
        return Expr::entier(0);
    }
    Expr::Div(Box::new(a), Box::new(b))
}

/// The canonical form of a quotient whose operands are canonical.
fn canon_div(a: Expr, b: Expr) -> (r: Expr)
    requires
        a@.bien_forme(),
        b@.bien_forme(),
    ensures
        r@ == canon_quotient(a@, b@),
        r@.bien_forme(),
    decreases b,
{
    if a.est_indefini() || b.est_indefini() {
        return Expr::Indefini;
    }
    match b {
        Expr::Rat(q) => {
            if rat_est_negatif(&q) {
                proof {
                    lemme_oppose(frac(q));
                }
                quotient_simple(neg(a), Expr::Rat(rat_oppose(&q)))
            } else {
                quotient_simple(a, Expr::Rat(q))
            }
        },
        Expr::Sub(z, y) => {
            if z.est_zero() {
                canon_div(neg(a), *y)
            } else {
                quotient_simple(a, Expr::Sub(z, y))
            }
        },
        autre => quotient_simple(a, autre),
    }
}

/// The canonical form of an integer power whose base is canonical.
fn canon_pow(base: Expr, n: i64) -> (r: Expr)
    requires
        base@.bien_forme(),
    ensures
        r@ == canon_puissance(base@, n),
        r@.bien_forme(),
{
    if base.est_indefini() {
        return Expr::Indefini;
    }
    if n == 0 {
        return Expr::entier(1);
    }
    Expr::PowInt(Box::new(base), n)
}

/// Decomposes `n >= 0` as `s² · t` by trial division by 2 and the odd
/// numbers: the pair `(s, t)`.
pub fn extrait_carre_parfait(n: &num_bigint::BigInt) -> (r: (num_bigint::BigInt, num_bigint::BigInt))
    requires
        valeur(*n) >= 0,
    ensures
        (valeur(r.0), valeur(r.1)) == extrait(valeur(*n)),
{
    if big_est_zero(n) {
        return (big_de_i64(0), big_de_i64(0));
    }
    if big_est_un(n) {
        return (big_de_i64(1), big_de_i64(1));
    }
    let mut reste = big_copie(n);
    let mut s = big_de_i64(1);
    let mut p = big_de_i64(2);
    let deux = big_de_i64(2);
    loop
        invariant
            valeur(reste) >= 1,
            valeur(p) >= 2,
            valeur(deux) == 2,
            essais(valeur(reste), valeur(s), valeur(p)) == extrait(valeur(*n)),
        ensures
            (valeur(s), valeur(reste)) == extrait(valeur(*n)),
        decreases valeur(reste), valeur(reste) - valeur(p),
    {
        let carre = big_produit(&p, &p);
        if big_inferieur(&reste, &carre) {
            break ;
        }
        proof {
            assert(valeur(carre) >= 4) by (nonlinear_arith)
                requires
                    valeur(p) >= 2,
                    valeur(carre) == valeur(p) * valeur(p),
            ;
            lemma_fundamental_div_mod(valeur(reste), valeur(carre));
            assert(valeur(reste) / valeur(carre) < valeur(reste) && valeur(reste) / valeur(carre) >= 0)
                by (nonlinear_arith)
                requires
                    valeur(p) >= 2,
                    valeur(carre) == valeur(p) * valeur(p),
                    valeur(carre) <= valeur(reste),
            ;
            assert(valeur(p) + 2 <= valeur(p) * valeur(p)) by (nonlinear_arith)
                requires
                    valeur(p) >= 2,
            ;
        }
        let m = big_reste(&reste, &carre);
        if big_est_zero(&m) {
            proof {
                assert(valeur(reste) / valeur(carre) >= 1) by (nonlinear_arith)
                    requires
                        valeur(reste) == valeur(carre) * (valeur(reste) / valeur(carre)) + valeur(reste)
                            % valeur(carre),
                        valeur(reste) % valeur(carre) == 0,
                        valeur(reste) >= 1,
                        valeur(carre) >= 1,
                ;
            }
            reste = big_quotient(&reste, &carre);
            s = big_produit(&s, &p);
        } else if big_egal(&p, &deux) {
            p = big_de_i64(3);
        } else {
            p = big_somme(&p, &deux);
        }
    }
    (s, reste)
}

/// `√t` for an integer `t`.
fn racine_entier(t: num_bigint::BigInt) -> (r: Expr)
    ensures
        r@ == racine_de(valeur(t)),
        r@.bien_forme(),
{
    let r = Expr::Sqrt(Box::new(Expr::Rat(rat_entier(t))));
    proof {
        reveal_with_fuel(Expr::vue, 3);
        reveal_with_fuel(Terme::bien_forme, 3);
    }
    r
}

/// The canonical form of a square root whose argument is canonical.
fn canon_sqrt(x: Expr) -> (r: Expr)
    requires
        x@.bien_forme(),
    ensures
        r@ == canon_racine(x@),
        r@.bien_forme(),
{
    if x.est_indefini() {
        return Expr::Indefini;
    }
    if let Expr::Rat(q) = &x {
        if rat_est_zero(q) {
            return Expr::entier(0);
        }
        if rat_est_positif(q) && rat_est_entier(q) {
            let n = big_copie(rat_numer(q));
            let (s, t) = extrait_carre_parfait(&n);
            if big_est_un(&t) {
                return Expr::Rat(rat_entier(s));
            }
            if !big_est_un(&s) {
                let produit = Expr::Mul(Box::new(Expr::Rat(rat_entier(s))), Box::new(racine_entier(t)));
                proof {
                    reveal_with_fuel(Expr::vue, 2);
                    reveal_with_fuel(Terme::bien_forme, 2);
                }
                return canon_mul(produit);
            }
            return racine_entier(t);
        }
    }
    Expr::Sqrt(Box::new(x))
}

/// Puts an expression in canonical form.
///
/// The operands come first. A chain of sums and differences is flattened
/// into signed terms, its rationals are added up, zero is dropped, the terms
/// are put in order and the sum is built again from the left, with a
/// subtraction for each term written as a negative. A chain of products is
/// flattened, through the negations within it, the signs and the rationals
/// gather in one coefficient, a zero factor gives zero, an `Indefini` factor
/// gives `Indefini`, the factors are put in order and the product is built
/// again from the left. The sign of a denominator moves to the numerator;
/// then `a / 1` is `a` and `0 / b` is zero. The square root of a positive
/// integer `s² · t` becomes `s · √t`. A canonical form is its own canonical
/// form.
pub fn canon_expr(e: Expr) -> (r: Expr)
    requires
        e@.bien_forme(),
    ensures
        r@ == canon(e@),
        r@.bien_forme(),
    decreases e,
{
    match e {
        Expr::Rat(_) | Expr::Pi | Expr::Indefini | Expr::Var(_) => e,
        Expr::Sqrt(x) => canon_sqrt(canon_expr(*x)),
        Expr::PowInt(x, n) => canon_pow(canon_expr(*x), n),
        Expr::Sin(x) => Expr::Sin(Box::new(canon_expr(*x))),
        Expr::Cos(x) => Expr::Cos(Box::new(canon_expr(*x))),
        Expr::Tan(x) => Expr::Tan(Box::new(canon_expr(*x))),
        Expr::Add(a, b) => canon_addsub(
            Expr::Add(Box::new(canon_expr(*a)), Box::new(canon_expr(*b))),
        ),
        Expr::Sub(a, b) => canon_addsub(
            Expr::Sub(Box::new(canon_expr(*a)), Box::new(canon_expr(*b))),
        ),
        Expr::Mul(a, b) => canon_mul(Expr::Mul(Box::new(canon_expr(*a)), Box::new(canon_expr(*b)))),
        Expr::Div(a, b) => canon_div(canon_expr(*a), canon_expr(*b)),
    }
}

impl Expr {
    /// The canonical form of the expression; see [`canon_expr`].
    pub fn canon(self) -> (r: Expr)
        requires
            self@.bien_forme(),
        ensures
            r@ == canon(self@),
            r@.bien_forme(),
    {
        canon_expr(self)
    }
}

} // verus!

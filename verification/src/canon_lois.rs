//! The canonical sums and the canonical square roots.
//!
//! A canonical sum is a sorted list of terms, at most one rational and that
//! one in front, built into a sum from the left: such a sum is its own
//! canonical form. The square root of an integer leaves trial division as
//! `s · √t` with no square left in `t`.
use crate::canon::{
    autres_facteurs, canon, canon_produit, canon_racine, canon_somme, coefficient, diviseur_suivant,
    essais, est_negatif, est_trie, extrait, facteurs, facteurs_regroupes, lemme_position_insertion,
    lemme_tri_fixe, lemme_tri_longueur, lemme_tri_trie, oppose, position_insertion, precede,
    produit_rationnels, racine_de, rang, reconstruit_produit, reconstruit_somme, sans_rationnels,
    signe_negatif, somme_rationnels, termes_regroupes, termes_somme, tri, un_indefini, un_zero,
    valeur_absolue,
};
use crate::expr::Terme;
use crate::rationnel::{
    lemme_entier_bien_forme, lemme_operations_bien_formees, lemme_oppose, lemme_plus_zero,
    lemme_reduite_fixe, lemme_zero_bien_forme, Frac,
};
use vstd::arithmetic::div_mod::{
    lemma_fundamental_div_mod, lemma_fundamental_div_mod_converse, lemma_mod_multiples_basic,
};
use vstd::prelude::*;

verus! {

/// Whether `e` can be a term of a canonical sum: a rational that is not
/// zero, `0 - y` for a canonical `y` that is no rational, or a canonical tree
/// that is no sum.
pub open spec fn terme_propre(e: Terme) -> bool {
    &&& e.bien_forme()
    &&& match e {
        Terme::Add(_, _) => false,
        Terme::Sub(a, y) => *a == Terme::entier(0) && !(*y is Rat) && canon(*y) == *y,
        Terme::Rat(f) => !f.est_zero(),
        _ => canon(e) == e,
    }
}

/// Whether `w` is the list of the terms of a canonical sum: sorted, of
/// proper terms, a rational in front only.
pub open spec fn liste_canonique(w: Seq<Terme>) -> bool {
    &&& w.len() >= 1
    &&& est_trie(w)
    &&& forall|i: int| 0 <= i < w.len() ==> terme_propre(#[trigger] w[i])
    &&& forall|i: int| 1 <= i < w.len() ==> !(#[trigger] w[i] is Rat)
}

/// The zero that flattening finds in front of a sum that begins with `0 - y`.
pub open spec fn zero_de_tete(w: Seq<Terme>) -> Seq<Terme> {
    if w.len() > 0 && w[0] is Sub {
        seq![Terme::entier(0)]
    } else {
        Seq::empty()
    }
}

/// A canonical list without its last term is a canonical list.
pub(crate) proof fn lemme_prefixe_canonique(w: Seq<Terme>)
    requires
        liste_canonique(w),
        w.len() >= 2,
    ensures
        liste_canonique(w.drop_last()),
{
    let d = w.drop_last();
    assert forall|i: int, j: int| 0 <= i < j < d.len() implies !precede(
        #[trigger] d[j],
        #[trigger] d[i],
    ) by {
        assert(d[i] == w[i] && d[j] == w[j]);
    }
    assert forall|i: int| 0 <= i < d.len() implies terme_propre(#[trigger] d[i]) by {
        assert(d[i] == w[i]);
    }
    assert forall|i: int| 1 <= i < d.len() implies !(#[trigger] d[i] is Rat) by {
        assert(d[i] == w[i]);
    }
}

/// A proper term written as a negative is `0 - y`, and `y` comes back from
/// its opposite.
pub(crate) proof fn lemme_terme_negatif(e: Terme)
    requires
        terme_propre(e),
        !(e is Rat),
    ensures
        est_negatif(e) <==> e is Sub,
        est_negatif(e) ==> oppose(valeur_absolue(e)) == e && canon(valeur_absolue(e))
            == valeur_absolue(e) && valeur_absolue(e).bien_forme(),
        !est_negatif(e) ==> canon(e) == e && termes_somme(e) == seq![e],
{
}

/// Flattening a canonical sum gives its terms back, after a zero if the sum
/// begins with `0 - y`.
pub(crate) proof fn lemme_termes_reconstruits(w: Seq<Terme>)
    requires
        liste_canonique(w),
    ensures
        termes_somme(reconstruit_somme(w)) == zero_de_tete(w) + w,
    decreases w.len(),
{
    let r = reconstruit_somme(w);
    if w.len() == 1 {
        let e = w[0];
        assert(r == e);
        if e is Sub {
            assert(termes_somme(e) == termes_somme(Terme::entier(0)).push(oppose(*e->Sub_1)));
            assert(oppose(*e->Sub_1) == e);
            assert(seq![Terme::entier(0)].push(e) =~= zero_de_tete(w) + w);
        } else {
            assert(termes_somme(e) == seq![e]);
            assert(seq![e] =~= zero_de_tete(w) + w);
        }
    } else {
        let d = w.drop_last();
        let e = w.last();
        lemme_prefixe_canonique(w);
        lemme_termes_reconstruits(d);
        assert(terme_propre(e));
        assert(!(e is Rat));
        lemme_terme_negatif(e);
        assert(zero_de_tete(d) == zero_de_tete(w)) by {
            assert(d[0] == w[0]);
        }
        let rd = reconstruit_somme(d);
        if est_negatif(e) {
            assert(r == Terme::Sub(Box::new(rd), Box::new(valeur_absolue(e))));
            assert(termes_somme(r) == termes_somme(rd).push(e));
        } else {
            assert(r == Terme::Add(Box::new(rd), Box::new(e)));
            assert(termes_somme(r) == termes_somme(rd) + seq![e]);
        }
        assert(termes_somme(r) =~= zero_de_tete(w) + w) by {
            assert((zero_de_tete(d) + d).push(e) =~= zero_de_tete(w) + w);
            assert((zero_de_tete(d) + d) + seq![e] =~= zero_de_tete(w) + w);
        }
    }
}

/// A list without rationals is its own list of terms that are no rationals,
/// and its rationals add up to zero.
pub(crate) proof fn lemme_sans_rationnel(s: Seq<Terme>)
    requires
        forall|i: int| 0 <= i < s.len() ==> !(#[trigger] s[i] is Rat),
    ensures
        sans_rationnels(s) == s,
        somme_rationnels(s) == Frac::entier(0),
    decreases s.len(),
{
    if s.len() > 0 {
        let d = s.drop_last();
        assert forall|i: int| 0 <= i < d.len() implies !(#[trigger] d[i] is Rat) by {
            assert(d[i] == s[i]);
        }
        lemme_sans_rationnel(d);
        assert(!(s[s.len() - 1] is Rat));
        assert(d.push(s.last()) =~= s);
    }
}

/// One more element at the front: a zero changes neither the terms that are
/// no rationals nor the sum of the rationals.
pub(crate) proof fn lemme_zero_devant(s: Seq<Terme>)
    requires
        forall|i: int| 0 <= i < s.len() ==> (#[trigger] s[i]).bien_forme(),
    ensures
        sans_rationnels(seq![Terme::entier(0)] + s) == sans_rationnels(s),
        somme_rationnels(seq![Terme::entier(0)] + s) == somme_rationnels(s),
        somme_rationnels(s).bien_forme(),
    decreases s.len(),
{
    let z = seq![Terme::entier(0)];
    lemme_zero_bien_forme();
    if s.len() == 0 {
        assert(z + s =~= z);
        assert(z.drop_last() =~= Seq::<Terme>::empty());
        assert(z.last() == Terme::entier(0));
        assert(sans_rationnels(z.drop_last()) =~= Seq::<Terme>::empty());
        lemme_plus_zero(Frac::entier(0));
        assert(somme_rationnels(z) == somme_rationnels(z.drop_last()).plus(Frac::entier(0)));
    } else {
        let d = s.drop_last();
        assert forall|i: int| 0 <= i < d.len() implies (#[trigger] d[i]).bien_forme() by {
            assert(d[i] == s[i]);
        }
        lemme_zero_devant(d);
        assert((z + s).drop_last() =~= z + d);
        assert((z + s).last() == s.last());
        assert(s[s.len() - 1].bien_forme());
        if let Terme::Rat(f) = s.last() {
            lemme_operations_bien_formees(somme_rationnels(d), f);
        }
    }
}

/// A list whose only rational stands in front: the rationals add up to it,
/// and the other terms are the rest of the list.
pub(crate) proof fn lemme_rationnel_en_tete(w: Seq<Terme>)
    requires
        w.len() >= 1,
        w[0] is Rat,
        w[0].bien_forme(),
        forall|i: int| 1 <= i < w.len() ==> !(#[trigger] w[i] is Rat),
    ensures
        somme_rationnels(w) == w[0]->Rat_0,
        sans_rationnels(w) == w.drop_first(),
    decreases w.len(),
{
    let d = w.drop_last();
    if w.len() == 1 {
        assert(d =~= Seq::<Terme>::empty());
        assert(w.last() == w[0]);
        assert(somme_rationnels(d) == Frac::entier(0));
        lemme_plus_zero(w[0]->Rat_0);
        assert(somme_rationnels(w) == somme_rationnels(d).plus(w[0]->Rat_0));
        assert(sans_rationnels(w) == sans_rationnels(d));
        assert(sans_rationnels(d) =~= w.drop_first());
    } else {
        assert(d[0] == w[0]);
        assert forall|i: int| 1 <= i < d.len() implies !(#[trigger] d[i] is Rat) by {
            assert(d[i] == w[i]);
        }
        lemme_rationnel_en_tete(d);
        assert(!(w[w.len() - 1] is Rat));
        assert(d.drop_first().push(w.last()) =~= w.drop_first());
    }
}

/// Gathering and sorting the flattened terms of a canonical sum gives the
/// list of its terms back.
pub(crate) proof fn lemme_regroupe(w: Seq<Terme>)
    requires
        liste_canonique(w),
    ensures
        tri(termes_regroupes(zero_de_tete(w) + w)) == w,
{
    let t = zero_de_tete(w) + w;
    assert forall|i: int| 0 <= i < w.len() implies (#[trigger] w[i]).bien_forme() by {
        assert(terme_propre(w[i]));
    }
    if w[0] is Sub {
        lemme_zero_devant(w);
    } else {
        assert(t =~= w);
    }
    assert(sans_rationnels(t) == sans_rationnels(w));
    assert(somme_rationnels(t) == somme_rationnels(w));
    if w[0] is Rat {
        lemme_rationnel_en_tete(w);
        let f = w[0]->Rat_0;
        assert(terme_propre(w[0]));
        let v = w.drop_first();
        assert(termes_regroupes(t) == v.push(Terme::Rat(f)));
        assert(est_trie(v)) by {
            assert forall|i: int, j: int| 0 <= i < j < v.len() implies !precede(
                #[trigger] v[j],
                #[trigger] v[i],
            ) by {
                assert(v[i] == w[i + 1] && v[j] == w[j + 1]);
            }
        }
        lemme_tri_fixe(v);
        let vp = v.push(Terme::Rat(f));
        assert(vp.drop_last() =~= v);
        assert(vp.last() == Terme::Rat(f));
        assert(position_insertion(v, Terme::Rat(f)) == 0) by {
            if v.len() > 0 {
                assert(v[0] == w[1]);
                assert(!(w[1] is Rat));
                assert(rang(v[0]) > 0);
            }
        }
        assert(v.insert(0, Terme::Rat(f)) =~= w);
    } else {
        lemme_sans_rationnel(w);
        assert(termes_regroupes(t) == w);
        lemme_tri_fixe(w);
    }
}

/// A canonical sum is a fixed point of the canonical form.
pub proof fn lemme_somme_fixe(w: Seq<Terme>)
    requires
        liste_canonique(w),
    ensures
        canon(reconstruit_somme(w)) == reconstruit_somme(w),
        reconstruit_somme(w).bien_forme(),
        tri(termes_regroupes(termes_somme(reconstruit_somme(w)))) == w,
        w.len() >= 2 ==> reconstruit_somme(w) is Add || reconstruit_somme(w) is Sub,
    decreases w.len(),
{
    let r = reconstruit_somme(w);
    lemme_termes_reconstruits(w);
    lemme_regroupe(w);
    lemme_zero_bien_forme();
    if w.len() == 1 {
        let e = w[0];
        assert(terme_propre(e));
        if e is Sub {
            assert(canon(e) == canon_somme(
                Terme::Sub(Box::new(canon(Terme::entier(0))), Box::new(canon(*e->Sub_1))),
            ));
            assert(canon(e) == canon_somme(e));
        }
    } else {
        let d = w.drop_last();
        let e = w.last();
        lemme_prefixe_canonique(w);
        lemme_somme_fixe(d);
        assert(terme_propre(e));
        assert(!(e is Rat));
        lemme_terme_negatif(e);
        let rd = reconstruit_somme(d);
        if est_negatif(e) {
            assert(r == Terme::Sub(Box::new(rd), Box::new(valeur_absolue(e))));
            assert(canon(r) == canon_somme(
                Terme::Sub(Box::new(canon(rd)), Box::new(canon(valeur_absolue(e)))),
            ));
        } else {
            assert(r == Terme::Add(Box::new(rd), Box::new(e)));
            assert(canon(r) == canon_somme(Terme::Add(Box::new(canon(rd)), Box::new(canon(e)))));
        }
        assert(canon(r) == canon_somme(r));
    }
}

/// Whether `c` is well formed, is its own canonical form and, where it is a
/// sum, is the sum of a canonical list.
pub open spec fn forme_canonique(c: Terme) -> bool {
    &&& c.bien_forme()
    &&& canon(c) == c
    &&& (c is Add || c is Sub) ==> {
        let w = tri(termes_regroupes(termes_somme(c)));
        liste_canonique(w) && c == reconstruit_somme(w)
    }
}

/// Whether every element is well formed and is a proper term unless it is a
/// rational.
pub open spec fn termes_propres(s: Seq<Terme>) -> bool {
    forall|i: int|
        0 <= i < s.len() ==> (#[trigger] s[i]).bien_forme() && (s[i] is Rat || terme_propre(s[i]))
}

/// The flattened terms of a canonical form are proper.
pub(crate) proof fn lemme_termes_propres(c: Terme)
    requires
        forme_canonique(c),
    ensures
        termes_propres(termes_somme(c)),
{
    lemme_zero_bien_forme();
    if c is Add || c is Sub {
        let w = tri(termes_regroupes(termes_somme(c)));
        lemme_termes_reconstruits(w);
        let t = termes_somme(c);
        assert forall|i: int| 0 <= i < t.len() implies (#[trigger] t[i]).bien_forme() && (t[i] is Rat
            || terme_propre(t[i])) by {
            let z = zero_de_tete(w);
            if i < z.len() {
                assert(t[i] == Terme::entier(0));
            } else {
                assert(t[i] == w[i - z.len()]);
                assert(terme_propre(w[i - z.len()]));
            }
        }
    } else {
        assert(termes_somme(c) == seq![c]);
    }
}

/// The terms that are no rationals keep what held of them, and the
/// rationals add up to a fraction in lowest terms.
pub(crate) proof fn lemme_sans_rationnels_propres(s: Seq<Terme>)
    requires
        termes_propres(s),
    ensures
        forall|i: int|
            0 <= i < sans_rationnels(s).len() ==> terme_propre(#[trigger] sans_rationnels(s)[i])
                && !(sans_rationnels(s)[i] is Rat),
        somme_rationnels(s).bien_forme(),
    decreases s.len(),
{
    lemme_zero_bien_forme();
    if s.len() > 0 {
        let d = s.drop_last();
        assert(termes_propres(d)) by {
            assert forall|i: int| 0 <= i < d.len() implies (#[trigger] d[i]).bien_forme() && (d[i]
                is Rat || terme_propre(d[i])) by {
                assert(d[i] == s[i]);
            }
        }
        lemme_sans_rationnels_propres(d);
        let e = s[s.len() - 1];
        assert(e.bien_forme() && (e is Rat || terme_propre(e)));
        if let Terme::Rat(f) = e {
            lemme_operations_bien_formees(somme_rationnels(d), f);
        }
    }
}

/// Every element of a sorted sequence is an element of the sequence that
/// was sorted.
pub(crate) proof fn lemme_tri_elements(s: Seq<Terme>)
    ensures
        forall|i: int| 0 <= i < tri(s).len() ==> s.contains(#[trigger] tri(s)[i]),
    decreases s.len(),
{
    if s.len() > 0 {
        let d = s.drop_last();
        lemme_tri_elements(d);
        lemme_position_insertion(tri(d), s.last());
        let p = position_insertion(tri(d), s.last()) as int;
        let r = tri(d).insert(p, s.last());
        assert forall|i: int| 0 <= i < r.len() implies s.contains(#[trigger] r[i]) by {
            if i == p {
                assert(s[s.len() - 1] == r[i]);
            } else {
                let k = if i < p {
                    i
                } else {
                    i - 1
                };
                assert(r[i] == tri(d)[k]);
                assert(d.contains(tri(d)[k]));
                let j = choose|j: int| 0 <= j < d.len() && d[j] == tri(d)[k];
                assert(s[j] == r[i]);
            }
        }
    }
}

/// The sorted list of the gathered terms of a sum of canonical forms is a
/// canonical list.
pub(crate) proof fn lemme_liste_du_regroupement(t: Seq<Terme>)
    requires
        termes_propres(t),
        termes_regroupes(t).len() > 0,
    ensures
        liste_canonique(tri(termes_regroupes(t))),
{
    lemme_sans_rationnels_propres(t);
    let n = sans_rationnels(t);
    let f = somme_rationnels(t);
    let v = termes_regroupes(t);
    lemme_tri_trie(v);
    lemme_tri_longueur(v);
    lemme_tri_elements(n);
    lemme_tri_longueur(n);
    assert forall|i: int| 0 <= i < tri(n).len() implies terme_propre(#[trigger] tri(n)[i]) && !(
    tri(n)[i] is Rat) by {
        let j = choose|j: int| 0 <= j < n.len() && n[j] == tri(n)[i];
        assert(terme_propre(n[j]));
    }
    if f.est_zero() {
        assert(v == n);
    } else {
        let x = Terme::Rat(f);
        assert(v == n.push(x));
        assert(v.drop_last() =~= n);
        assert(v.last() == x);
        assert(position_insertion(tri(n), x) == 0) by {
            if tri(n).len() > 0 {
                assert(!(tri(n)[0] is Rat));
                assert(rang(tri(n)[0]) > 0);
            }
        }
        let w = tri(n).insert(0, x);
        assert(tri(v) == w);
        assert forall|i: int| 0 <= i < w.len() implies terme_propre(#[trigger] w[i]) by {
            if i > 0 {
                assert(w[i] == tri(n)[i - 1]);
            }
        }
        assert forall|i: int| 1 <= i < w.len() implies !(#[trigger] w[i] is Rat) by {
            assert(w[i] == tri(n)[i - 1]);
        }
    }
}

/// Whether no square above one divides `t`.
pub open spec fn sans_carre(t: int) -> bool {
    forall|q: int| q >= 2 ==> #[trigger] (t % (q * q)) != 0
}

/// Whether `q` is one of the divisors that trial division tries: 2 or odd.
pub open spec fn essaye(q: int) -> bool {
    q == 2 || (q >= 3 && q % 2 == 1)
}

/// Whether no square of a divisor tried before `p` divides `reste`.
pub open spec fn deja_essayes(reste: int, p: int) -> bool {
    forall|q: int| 2 <= q < p && essaye(q) ==> #[trigger] (reste % (q * q)) != 0
}

/// If `a` divides `b` and `b` divides `c`, both exactly, `a` divides `c`.
pub(crate) proof fn lemme_divise_transitif(a: int, b: int, c: int)
    requires
        a > 0,
        b > 0,
        b % a == 0,
        c % b == 0,
    ensures
        c % a == 0,
{
    lemma_fundamental_div_mod(b, a);
    lemma_fundamental_div_mod(c, b);
    let k = b / a;
    let m = c / b;
    assert(c == (k * m) * a + 0) by (nonlinear_arith)
        requires
            b == a * k + 0,
            c == b * m + 0,
    ;
    lemma_fundamental_div_mod_converse(c, a, k * m, 0);
}

/// What trial division returns from a state that it can reach: the
/// decomposition `n == s² · t` with no square above one left in `t`.
pub(crate) proof fn lemme_essais(reste: int, s: int, p: int, n: int)
    requires
        reste >= 1,
        s >= 1,
        essaye(p),
        n == s * s * reste,
        deja_essayes(reste, p),
    ensures
        essais(reste, s, p).0 >= 1,
        essais(reste, s, p).1 >= 1,
        n == essais(reste, s, p).0 * essais(reste, s, p).0 * essais(reste, s, p).1,
        sans_carre(essais(reste, s, p).1),
    decreases reste, reste - p,
{
    let carre = p * p;
    assert(carre >= 4 && p + 2 <= carre) by (nonlinear_arith)
        requires
            p >= 2,
            carre == p * p,
    ;
    if carre <= reste {
        if reste % carre == 0 {
            lemma_fundamental_div_mod(reste, carre);
            let r2 = reste / carre;
            assert(r2 >= 1 && r2 < reste) by (nonlinear_arith)
                requires
                    reste == carre * r2 + 0,
                    reste >= 1,
                    carre >= 4,
            ;
            assert(n == (s * p) * (s * p) * r2) by (nonlinear_arith)
                requires
                    n == s * s * reste,
                    reste == carre * r2 + 0,
                    carre == p * p,
            ;
            assert(s * p >= 1) by (nonlinear_arith)
                requires
                    s >= 1,
                    p >= 2,
            ;
            assert(deja_essayes(r2, p)) by {
                assert forall|q: int| 2 <= q < p && essaye(q) implies #[trigger] (r2 % (q * q))
                    != 0 by {
                    let q2 = q * q;
                    assert(q2 >= 4) by (nonlinear_arith)
                        requires
                            q >= 2,
                            q2 == q * q,
                    ;
                    if r2 % q2 == 0 {
                        assert(reste == r2 * carre) by (nonlinear_arith)
                            requires
                                reste == carre * r2 + 0,
                        ;
                        lemma_mod_multiples_basic(carre, r2);
                        lemme_divise_transitif(q2, r2, reste);
                        assert(reste % (q * q) != 0);
                    }
                }
            }
            lemme_essais(r2, s * p, p, n);
        } else {
            let suivant = diviseur_suivant(p);
            assert(deja_essayes(reste, suivant)) by {
                assert forall|q: int| 2 <= q < suivant && essaye(q) implies #[trigger] (reste % (q
                    * q)) != 0 by {
                    if q >= p {
                        assert(q == p);
                    }
                }
            }
            lemme_essais(reste, s, suivant, n);
        }
    } else {
        assert forall|q: int| q >= 2 implies #[trigger] (reste % (q * q)) != 0 by {
            let q2 = q * q;
            assert(q2 >= 4) by (nonlinear_arith)
                requires
                    q >= 2,
                    q2 == q * q,
            ;
            if reste % q2 == 0 {
                lemma_fundamental_div_mod(reste, q2);
                assert(q2 <= reste) by (nonlinear_arith)
                    requires
                        reste == q2 * (reste / q2) + 0,
                        reste >= 1,
                        q2 >= 4,
                ;
                assert(q < p) by (nonlinear_arith)
                    requires
                        q * q <= reste,
                        reste < p * p,
                        q >= 2,
                        p >= 2,
                ;
                if essaye(q) {
                    assert(reste % (q * q) != 0);
                } else {
                    // An even q above 2: its square is a multiple of 4.
                    let m = q / 2;
                    assert(q == 2 * m);
                    assert(q2 == (m * m) * 4) by (nonlinear_arith)
                        requires
                            q == 2 * m,
                            q2 == q * q,
                    ;
                    lemma_mod_multiples_basic(m * m, 4);
                    lemme_divise_transitif(4, q2, reste);
                    assert(2 < p);
                    assert(reste % (2int * 2int) != 0);
                }
            }
        }
    }
}

/// The decomposition that trial division finds: `n == s² · t`, and no
/// square above one divides `t`.
pub proof fn lemme_extrait(n: int)
    requires
        n >= 1,
    ensures
        extrait(n).0 >= 1,
        extrait(n).1 >= 1,
        n == extrait(n).0 * extrait(n).0 * extrait(n).1,
        sans_carre(extrait(n).1),
{
    if n == 1 {
        assert forall|q: int| q >= 2 implies #[trigger] (1int % (q * q)) != 0 by {
            assert(q * q >= 4) by (nonlinear_arith)
                requires
                    q >= 2,
            ;
            vstd::arithmetic::div_mod::lemma_small_mod(1, (q * q) as nat);
        }
    } else {
        assert(n == 1 * 1 * n) by (nonlinear_arith);
        lemme_essais(n, 1, 2, n);
    }
}

/// Trial division finds nothing to take out of a number that no square
/// above one divides.
pub proof fn lemme_essais_sans_carre(t: int, p: int)
    requires
        t >= 1,
        p >= 2,
        sans_carre(t),
    ensures
        essais(t, 1, p) == (1int, t),
    decreases t - p,
{
    if p * p <= t {
        assert(t % (p * p) != 0);
        assert(p + 2 <= p * p) by (nonlinear_arith)
            requires
                p >= 2,
        ;
        lemme_essais_sans_carre(t, diviseur_suivant(p));
    }
}

/// The product of an integer above one and the square root of an integer is
/// its own canonical product.
pub(crate) proof fn lemme_produit_entier_racine(s: int, t: int)
    requires
        s >= 2,
    ensures
        canon_produit(Terme::Mul(Box::new(Terme::entier(s)), Box::new(racine_de(t))))
            == Terme::Mul(Box::new(Terme::entier(s)), Box::new(racine_de(t))),
{
    let e = Terme::entier(s);
    let r = racine_de(t);
    let m = Terme::Mul(Box::new(e), Box::new(r));
    let vide = Seq::<Terme>::empty();
    let fs = facteurs(m);
    assert(facteurs(e) == seq![e]);
    assert(facteurs(r) == seq![r]);
    assert(fs =~= seq![e, r]);
    let un = seq![e];
    assert(fs.drop_last() =~= un);
    assert(fs.last() == r);
    assert(un.drop_last() =~= vide);
    assert(un.last() == e);
    assert(!un_indefini(fs));
    assert(!un_zero(fs)) by {
        assert forall|i: int| 0 <= i < fs.len() implies !(#[trigger] fs[i]).est_zero() by {
            if i == 0 {
                assert(fs[0] == e);
            } else {
                assert(fs[1] == r);
            }
        }
    }
    assert(valeur_absolue(r) == r);
    assert(valeur_absolue(e) == e);
    lemme_entier_bien_forme(s);
    lemme_reduite_fixe(Frac::entier(s));
    assert(1 * s == s && 1 * 1 == 1) by (nonlinear_arith);
    assert(Frac::entier(1).fois(Frac::entier(s)) == Frac::entier(s));
    assert(produit_rationnels(vide) == Frac::entier(1));
    assert(produit_rationnels(un) == Frac::entier(s));
    assert(produit_rationnels(fs) == Frac::entier(s));
    assert(!signe_negatif(vide));
    assert(!signe_negatif(un));
    assert(!signe_negatif(fs));
    assert(coefficient(fs) == Frac::entier(s));
    assert(autres_facteurs(vide) =~= vide);
    assert(autres_facteurs(un) =~= vide);
    assert(autres_facteurs(fs) =~= seq![r]);
    let v = facteurs_regroupes(fs);
    assert(v =~= seq![r, e]);
    let seul = seq![r];
    assert(v.drop_last() =~= seul);
    assert(v.last() == e);
    assert(seul.drop_last() =~= vide);
    assert(seul.last() == r);
    assert(tri(vide) =~= vide);
    assert(position_insertion(vide, r) == 0);
    assert(tri(seul) =~= seul) by {
        assert(vide.insert(0, r) =~= seul);
    }
    assert(position_insertion(seul, e) == 0) by {
        assert(seul[0] == r);
        assert(rang(e) < rang(r));
    }
    let w = seq![e, r];
    assert(tri(v) =~= w) by {
        assert(seul.insert(0, e) =~= w);
    }
    assert(w.drop_last() =~= un);
    assert(w.last() == r);
    assert(reconstruit_produit(un) == e);
    assert(reconstruit_produit(w) == m);
}

/// The canonical form of a square root over a canonical form is a canonical
/// form.
pub(crate) proof fn lemme_canon_racine(cx: Terme)
    requires
        forme_canonique(cx),
    ensures
        forme_canonique(canon_racine(cx)),
{
    reveal_with_fuel(Terme::bien_forme, 3);
    lemme_zero_bien_forme();
    let c = canon_racine(cx);
    match cx {
        Terme::Indefini => {},
        Terme::Rat(f) => {
            if f.est_zero() {
            } else if f.est_positif() && f.est_entier() {
                lemme_extrait(f.num);
                let (s, t) = extrait(f.num);
                lemme_entier_bien_forme(s);
                lemme_entier_bien_forme(t);
                if t == 1 {
                } else {
                    assert(t >= 2);
                    lemme_essais_sans_carre(t, 2);
                    assert(extrait(t) == (1int, t));
                    assert(canon(racine_de(t)) == canon_racine(canon(Terme::entier(t))));
                    assert(canon(racine_de(t)) == racine_de(t));
                    if s != 1 {
                        lemme_produit_entier_racine(s, t);
                        let m = Terme::Mul(Box::new(Terme::entier(s)), Box::new(racine_de(t)));
                        assert(c == m);
                        assert(canon(m) == canon_produit(
                            Terme::Mul(
                                Box::new(canon(Terme::entier(s))),
                                Box::new(canon(racine_de(t))),
                            ),
                        ));
                    }
                }
            } else {
                assert(c == Terme::Sqrt(Box::new(cx)));
                assert(canon(c) == canon_racine(canon(cx)));
            }
        },
        _ => {
            assert(c == Terme::Sqrt(Box::new(cx)));
            assert(canon(c) == canon_racine(canon(cx)));
        },
    }
}

} // verus!

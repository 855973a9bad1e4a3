//! The canonical form as a fixed point.
//!
//! Canonicalizing twice is canonicalizing once: [`lemme_canon_idempotent`].
//! The proof goes by a property that every canonical form has and that
//! passes to every tree within it, [`canonique`]: the tree is its own
//! canonical form, a sum is the sum of a sorted list of proper terms, a
//! product the product of a sorted list of factors that are neither
//! products nor negations.
use crate::canon::{
    autres_facteurs, canon, canon_produit, canon_quotient, canon_racine, canon_somme, coefficient,
    est_negatif, est_trie, extrait, facteurs, facteurs_regroupes, lemme_position_insertion,
    lemme_tri_fixe, lemme_tri_longueur, lemme_tri_trie, oppose, position_insertion, precede,
    produit_rationnels, quotient_net, racine_de, rang, reconstruit_produit, reconstruit_somme,
    signe_negatif,
    somme_rationnels, termes_regroupes, termes_somme, tri, un_indefini, un_zero, valeur_absolue,
};
use crate::canon_lois::{
    forme_canonique, lemme_canon_racine, lemme_essais_sans_carre, lemme_extrait,
    lemme_liste_du_regroupement, lemme_prefixe_canonique, lemme_produit_entier_racine,
    lemme_sans_rationnels_propres, lemme_somme_fixe, lemme_terme_negatif,
    lemme_termes_reconstruits, lemme_tri_elements, liste_canonique, terme_propre, termes_propres,
    zero_de_tete,
};
use crate::expr::Terme;
use crate::rationnel::{
    lemme_entier_bien_forme, lemme_operations_bien_formees, lemme_oppose, lemme_reduite_fixe,
    lemme_un, lemme_zero_bien_forme, Frac,
};
use vstd::prelude::*;

verus! {

/// Whether `e` can be a factor of a canonical product: its own canonical
/// form, no product, no `Indefini`, a rational other than zero and one, or
/// anything else that is not written as a negative.
pub open spec fn facteur_canonique(e: Terme) -> bool {
    &&& e.bien_forme()
    &&& canon(e) == e
    &&& match e {
        Terme::Mul(_, _) | Terme::Indefini => false,
        Terme::Rat(f) => !f.est_zero() && !f.est_un(),
        _ => !est_negatif(e),
    }
}

/// Whether `w` is the list of the factors of a canonical product: sorted,
/// of canonical factors, a rational in front only.
pub open spec fn liste_facteurs(w: Seq<Terme>) -> bool {
    &&& w.len() >= 1
    &&& est_trie(w)
    &&& forall|i: int| 0 <= i < w.len() ==> facteur_canonique(#[trigger] w[i])
    &&& forall|i: int| 1 <= i < w.len() ==> !(#[trigger] w[i] is Rat)
}

/// Whether `c`, where it is a product, is the product of a canonical list.
pub open spec fn forme_produit(c: Terme) -> bool {
    c is Mul ==> liste_facteurs(facteurs(c)) && c == reconstruit_produit(facteurs(c))
}

/// Whether the tree and every tree within it is well formed, its own
/// canonical form, and where it is a sum or a product, that of a canonical
/// list.
pub open spec fn canonique(c: Terme) -> bool
    decreases c,
{
    &&& forme_canonique(c)
    &&& forme_produit(c)
    &&& match c {
        Terme::Rat(_) | Terme::Pi | Terme::Var(_) | Terme::Indefini => true,
        Terme::Sqrt(x) | Terme::Sin(x) | Terme::Cos(x) | Terme::Tan(x) => canonique(*x),
        Terme::PowInt(x, _) => canonique(*x),
        Terme::Add(a, b) | Terme::Sub(a, b) | Terme::Mul(a, b) | Terme::Div(a, b) => canonique(
            *a,
        ) && canonique(*b),
    }
}

/// Whether every tree of the sequence is [`canonique`].
pub open spec fn tous_canoniques(s: Seq<Terme>) -> bool {
    forall|i: int| 0 <= i < s.len() ==> canonique(#[trigger] s[i])
}

/// A sequence of canonical trees without its last, and its last.
proof fn lemme_canoniques_prefixe(w: Seq<Terme>)
    requires
        tous_canoniques(w),
        w.len() >= 1,
    ensures
        tous_canoniques(w.drop_last()),
        canonique(w.last()),
{
    assert forall|i: int| 0 <= i < w.drop_last().len() implies canonique(
        #[trigger] w.drop_last()[i],
    ) by {
        assert(w.drop_last()[i] == w[i]);
    }
    assert(canonique(w[w.len() - 1]));
}

/// One more canonical tree at the end of a sequence of canonical trees.
proof fn lemme_canoniques_empile(s: Seq<Terme>, x: Terme)
    requires
        tous_canoniques(s),
        canonique(x),
    ensures
        tous_canoniques(s.push(x)),
{
    assert forall|i: int| 0 <= i < s.push(x).len() implies canonique(#[trigger] s.push(x)[i]) by {
        if i < s.len() {
            assert(s.push(x)[i] == s[i]);
        }
    }
}

/// Two sequences of canonical trees, one after the other.
proof fn lemme_canoniques_concat(a: Seq<Terme>, b: Seq<Terme>)
    requires
        tous_canoniques(a),
        tous_canoniques(b),
    ensures
        tous_canoniques(a + b),
{
    assert forall|i: int| 0 <= i < (a + b).len() implies canonique(#[trigger] (a + b)[i]) by {
        if i < a.len() {
            assert((a + b)[i] == a[i]);
        } else {
            assert((a + b)[i] == b[i - a.len()]);
        }
    }
}

/// Sorting keeps a sequence of canonical trees one.
proof fn lemme_tri_canoniques(s: Seq<Terme>)
    requires
        tous_canoniques(s),
    ensures
        tous_canoniques(tri(s)),
{
    lemme_tri_elements(s);
    assert forall|i: int| 0 <= i < tri(s).len() implies canonique(#[trigger] tri(s)[i]) by {
        let j = choose|j: int| 0 <= j < s.len() && s[j] == tri(s)[i];
        assert(canonique(s[j]));
    }
}

/* ------------------------------------------------------------------- sums */

/// A rational in lowest terms is canonical.
proof fn lemme_rationnel_canonique(f: Frac)
    requires
        f.bien_forme(),
    ensures
        canonique(Terme::Rat(f)),
{
}

/// `0 - y` over a canonical `y` that is no rational is canonical.
proof fn lemme_negation_canonique(y: Terme)
    requires
        canonique(y),
        !(y is Rat),
    ensures
        canonique(Terme::moins(y)),
        terme_propre(Terme::moins(y)),
{
    lemme_zero_bien_forme();
    let e = Terme::moins(y);
    let w = seq![e];
    assert(e.bien_forme()) by {
        reveal_with_fuel(Terme::bien_forme, 2);
    }
    assert(terme_propre(e));
    assert(liste_canonique(w)) by {
        assert(w[0] == e);
    }
    lemme_somme_fixe(w);
    assert(reconstruit_somme(w) == e);
    lemme_rationnel_canonique(Frac::entier(0));
}

/// The sum of a canonical list of canonical terms is canonical.
proof fn lemme_somme_canonique(w: Seq<Terme>)
    requires
        liste_canonique(w),
        tous_canoniques(w),
    ensures
        canonique(reconstruit_somme(w)),
    decreases w.len(),
{
    let r = reconstruit_somme(w);
    lemme_somme_fixe(w);
    if w.len() == 1 {
        assert(canonique(w[0]));
    } else {
        let d = w.drop_last();
        let e = w.last();
        lemme_prefixe_canonique(w);
        lemme_canoniques_prefixe(w);
        lemme_somme_canonique(d);
        assert(terme_propre(e));
        assert(!(e is Rat));
        lemme_terme_negatif(e);
        assert(forme_canonique(r)) by {
            assert(tri(termes_regroupes(termes_somme(r))) == w);
        }
    }
}

/// The terms of the canonical sum of a canonical list are canonical when
/// the sum is.
proof fn lemme_termes_de_somme(w: Seq<Terme>)
    requires
        liste_canonique(w),
        canonique(reconstruit_somme(w)),
    ensures
        tous_canoniques(w),
    decreases w.len(),
{
    let r = reconstruit_somme(w);
    if w.len() == 1 {
        assert(w[0] == r);
    } else {
        let d = w.drop_last();
        let e = w.last();
        lemme_prefixe_canonique(w);
        assert(terme_propre(e));
        assert(!(e is Rat));
        lemme_terme_negatif(e);
        let rd = reconstruit_somme(d);
        if est_negatif(e) {
            assert(r == Terme::Sub(Box::new(rd), Box::new(valeur_absolue(e))));
            assert(canonique(rd) && canonique(valeur_absolue(e)));
            lemme_negation_canonique(valeur_absolue(e));
            assert(Terme::moins(valeur_absolue(e)) == e);
        } else {
            assert(r == Terme::Add(Box::new(rd), Box::new(e)));
            assert(canonique(rd) && canonique(e));
        }
        lemme_termes_de_somme(d);
        assert forall|i: int| 0 <= i < w.len() implies canonique(#[trigger] w[i]) by {
            if i < d.len() {
                assert(w[i] == d[i]);
            }
        }
    }
}

/// The flattened terms of a canonical tree are canonical.
proof fn lemme_termes_canoniques(c: Terme)
    requires
        canonique(c),
    ensures
        tous_canoniques(termes_somme(c)),
        termes_propres(termes_somme(c)),
{
    lemme_zero_bien_forme();
    crate::canon_lois::lemme_termes_propres(c);
    if c is Add || c is Sub {
        let w = tri(termes_regroupes(termes_somme(c)));
        lemme_termes_reconstruits(w);
        lemme_termes_de_somme(w);
        lemme_rationnel_canonique(Frac::entier(0));
        let t = termes_somme(c);
        let z = zero_de_tete(w);
        assert forall|i: int| 0 <= i < t.len() implies canonique(#[trigger] t[i]) by {
            if i < z.len() {
                assert(t[i] == Terme::entier(0));
            } else {
                assert(t[i] == w[i - z.len()]);
            }
        }
    } else {
        assert(termes_somme(c) == seq![c]);
    }
}

/// Leaving the rationals out keeps a sequence of canonical trees one.
proof fn lemme_sans_rationnels_canoniques(s: Seq<Terme>)
    requires
        tous_canoniques(s),
    ensures
        tous_canoniques(crate::canon::sans_rationnels(s)),
    decreases s.len(),
{
    if s.len() > 0 {
        lemme_canoniques_prefixe(s);
        lemme_sans_rationnels_canoniques(s.drop_last());
        lemme_canoniques_empile(crate::canon::sans_rationnels(s.drop_last()), s.last());
    }
}

/// The canonical form of a sum or difference of canonical trees is
/// canonical.
proof fn lemme_canon_somme_canonique(ca: Terme, cb: Terme, difference: bool)
    requires
        canonique(ca),
        canonique(cb),
    ensures
        canonique(
            canon_somme(
                if difference {
                    Terme::Sub(Box::new(ca), Box::new(cb))
                } else {
                    Terme::Add(Box::new(ca), Box::new(cb))
                },
            ),
        ),
{
    let noeud = if difference {
        Terme::Sub(Box::new(ca), Box::new(cb))
    } else {
        Terme::Add(Box::new(ca), Box::new(cb))
    };
    let t = termes_somme(noeud);
    lemme_termes_canoniques(ca);
    lemme_termes_canoniques(cb);
    lemme_zero_bien_forme();
    lemme_rationnel_canonique(Frac::entier(0));
    let ta = termes_somme(ca);
    let tb = termes_somme(cb);
    if difference {
        let o = oppose(cb);
        assert(t == ta.push(o));
        if let Terme::Rat(f) = cb {
            lemme_oppose(f);
            lemme_rationnel_canonique(f.oppose());
        } else {
            lemme_negation_canonique(cb);
        }
        lemme_canoniques_empile(ta, o);
        assert(termes_propres(t)) by {
            assert forall|i: int| 0 <= i < t.len() implies (#[trigger] t[i]).bien_forme() && (t[i]
                is Rat || terme_propre(t[i])) by {
                if i < ta.len() {
                    assert(t[i] == ta[i]);
                }
            }
        }
    } else {
        assert(t == ta + tb);
        lemme_canoniques_concat(ta, tb);
        assert(termes_propres(t)) by {
            assert forall|i: int| 0 <= i < t.len() implies (#[trigger] t[i]).bien_forme() && (t[i]
                is Rat || terme_propre(t[i])) by {
                if i < ta.len() {
                    assert(t[i] == ta[i]);
                } else {
                    assert(t[i] == tb[i - ta.len()]);
                }
            }
        }
    }
    let v = termes_regroupes(t);
    if v.len() > 0 {
        lemme_liste_du_regroupement(t);
        lemme_sans_rationnels_propres(t);
        lemme_sans_rationnels_canoniques(t);
        lemme_rationnel_canonique(somme_rationnels(t));
        lemme_canoniques_empile(crate::canon::sans_rationnels(t), Terme::Rat(somme_rationnels(t)));
        lemme_tri_canoniques(v);
        lemme_somme_canonique(tri(v));
    }
}

/* --------------------------------------------------------------- products */

/// A canonical list of factors without its last is a canonical list.
proof fn lemme_prefixe_facteurs(w: Seq<Terme>)
    requires
        liste_facteurs(w),
        w.len() >= 2,
    ensures
        liste_facteurs(w.drop_last()),
{
    let d = w.drop_last();
    assert forall|i: int, j: int| 0 <= i < j < d.len() implies !precede(
        #[trigger] d[j],
        #[trigger] d[i],
    ) by {
        assert(d[i] == w[i] && d[j] == w[j]);
    }
    assert forall|i: int| 0 <= i < d.len() implies facteur_canonique(#[trigger] d[i]) by {
        assert(d[i] == w[i]);
    }
    assert forall|i: int| 1 <= i < d.len() implies !(#[trigger] d[i] is Rat) by {
        assert(d[i] == w[i]);
    }
}

/// Flattening a canonical product gives its factors back.
proof fn lemme_facteurs_reconstruits(w: Seq<Terme>)
    requires
        liste_facteurs(w),
    ensures
        facteurs(reconstruit_produit(w)) == w,
        w.len() >= 2 ==> reconstruit_produit(w) is Mul,
        w.len() == 1 ==> reconstruit_produit(w) == w[0],
    decreases w.len(),
{
    if w.len() == 1 {
        assert(facteur_canonique(w[0]));
        assert(facteurs(w[0]) == seq![w[0]]);
        assert(seq![w[0]] =~= w);
    } else {
        let d = w.drop_last();
        let e = w.last();
        lemme_prefixe_facteurs(w);
        lemme_facteurs_reconstruits(d);
        assert(facteur_canonique(e));
        assert(facteurs(e) == seq![e]);
        let r = reconstruit_produit(w);
        assert(r == Terme::Mul(Box::new(reconstruit_produit(d)), Box::new(e)));
        assert(facteurs(r) == facteurs(reconstruit_produit(d)) + facteurs(e));
        assert(d + seq![e] =~= w);
    }
}

/// The absolute value of a fraction.
pub open spec fn module(c: Frac) -> Frac {
    if c.est_negatif() {
        c.oppose()
    } else {
        c
    }
}

/// Multiplying by one changes nothing.
proof fn lemme_fois_un(f: Frac)
    requires
        f.bien_forme(),
    ensures
        Frac::entier(1).fois(f) == f,
{
    assert(1 * f.num == f.num && 1 * f.den == f.den) by (nonlinear_arith);
    lemme_reduite_fixe(f);
}

/// A list of canonical factors without rationals: nothing to gather.
proof fn lemme_facteurs_sans_rationnel(s: Seq<Terme>)
    requires
        forall|i: int| 0 <= i < s.len() ==> facteur_canonique(#[trigger] s[i]) && !(s[i] is Rat),
    ensures
        autres_facteurs(s) == s,
        produit_rationnels(s) == Frac::entier(1),
        !signe_negatif(s),
    decreases s.len(),
{
    if s.len() > 0 {
        let d = s.drop_last();
        assert forall|i: int| 0 <= i < d.len() implies facteur_canonique(#[trigger] d[i]) && !(d[i]
            is Rat) by {
            assert(d[i] == s[i]);
        }
        lemme_facteurs_sans_rationnel(d);
        let e = s[s.len() - 1];
        assert(facteur_canonique(e) && !(e is Rat));
        assert(valeur_absolue(e) == e);
        assert(d.push(s.last()) =~= s);
    }
}

/// A list of canonical factors whose only rational stands in front: the
/// coefficient is that rational, the other factors are the rest of the
/// list.
proof fn lemme_coefficient_en_tete(w: Seq<Terme>)
    requires
        w.len() >= 1,
        w[0] is Rat,
        forall|i: int| 0 <= i < w.len() ==> facteur_canonique(#[trigger] w[i]),
        forall|i: int| 1 <= i < w.len() ==> !(#[trigger] w[i] is Rat),
    ensures
        autres_facteurs(w) == w.drop_first(),
        produit_rationnels(w) == (if module(w[0]->Rat_0).est_un() {
            Frac::entier(1)
        } else {
            module(w[0]->Rat_0)
        }),
        signe_negatif(w) == w[0]->Rat_0.est_negatif(),
    decreases w.len(),
{
    let c = w[0]->Rat_0;
    let d = w.drop_last();
    assert(facteur_canonique(w[0]));
    if w.len() == 1 {
        assert(d =~= Seq::<Terme>::empty());
        assert(w.last() == w[0]);
        lemme_oppose(c);
        lemme_fois_un(module(c));
        assert(valeur_absolue(w[0]) == Terme::Rat(module(c)));
        assert(autres_facteurs(w) == autres_facteurs(d));
        assert(autres_facteurs(d) =~= w.drop_first());
        assert(produit_rationnels(d) == Frac::entier(1));
        assert(!signe_negatif(d));
    } else {
        assert(d[0] == w[0]);
        assert forall|i: int| 0 <= i < d.len() implies facteur_canonique(#[trigger] d[i]) by {
            assert(d[i] == w[i]);
        }
        assert forall|i: int| 1 <= i < d.len() implies !(#[trigger] d[i] is Rat) by {
            assert(d[i] == w[i]);
        }
        lemme_coefficient_en_tete(d);
        let e = w[w.len() - 1];
        assert(facteur_canonique(e) && !(e is Rat));
        assert(valeur_absolue(e) == e);
        assert(d.drop_first().push(w.last()) =~= w.drop_first());
    }
}

/// The coefficient of a list whose only rational `c` stands in front is
/// `c`.
proof fn lemme_coefficient(w: Seq<Terme>)
    requires
        w.len() >= 1,
        w[0] is Rat,
        forall|i: int| 0 <= i < w.len() ==> facteur_canonique(#[trigger] w[i]),
        forall|i: int| 1 <= i < w.len() ==> !(#[trigger] w[i] is Rat),
    ensures
        coefficient(w) == w[0]->Rat_0,
        !produit_rationnels(w).est_zero(),
{
    let c = w[0]->Rat_0;
    lemme_coefficient_en_tete(w);
    assert(facteur_canonique(w[0]));
    lemme_oppose(c);
    if module(c).est_un() {
        lemme_un(module(c));
    }
}

/// Gathering and sorting the factors of a canonical product gives the list
/// of its factors back.
proof fn lemme_regroupe_facteurs(w: Seq<Terme>)
    requires
        liste_facteurs(w),
    ensures
        !un_indefini(w),
        !un_zero(w),
        !produit_rationnels(w).est_zero(),
        tri(facteurs_regroupes(w)) == w,
{
    assert(!un_indefini(w)) by {
        assert forall|i: int| 0 <= i < w.len() implies !(#[trigger] w[i] is Indefini) by {
            assert(facteur_canonique(w[i]));
        }
    }
    assert(!un_zero(w)) by {
        assert forall|i: int| 0 <= i < w.len() implies !(#[trigger] w[i]).est_zero() by {
            assert(facteur_canonique(w[i]));
        }
    }
    if w[0] is Rat {
        lemme_coefficient(w);
        lemme_coefficient_en_tete(w);
        let c = w[0]->Rat_0;
        assert(facteur_canonique(w[0]));
        let v = w.drop_first();
        assert(facteurs_regroupes(w) == v.push(Terme::Rat(c)));
        assert(est_trie(v)) by {
            assert forall|i: int, j: int| 0 <= i < j < v.len() implies !precede(
                #[trigger] v[j],
                #[trigger] v[i],
            ) by {
                assert(v[i] == w[i + 1] && v[j] == w[j + 1]);
            }
        }
        lemme_tri_fixe(v);
        let vp = v.push(Terme::Rat(c));
        assert(vp.drop_last() =~= v);
        assert(vp.last() == Terme::Rat(c));
        assert(position_insertion(v, Terme::Rat(c)) == 0) by {
            if v.len() > 0 {
                assert(v[0] == w[1]);
                assert(!(w[1] is Rat));
                assert(rang(v[0]) > 0);
            }
        }
        assert(v.insert(0, Terme::Rat(c)) =~= w);
    } else {
        assert forall|i: int| 0 <= i < w.len() implies facteur_canonique(#[trigger] w[i]) && !(w[i]
            is Rat) by {}
        lemme_facteurs_sans_rationnel(w);
        assert(facteurs_regroupes(w) == w);
        lemme_tri_fixe(w);
    }
}

/// A canonical product is a fixed point of the canonical form.
proof fn lemme_produit_fixe(w: Seq<Terme>)
    requires
        liste_facteurs(w),
    ensures
        canon(reconstruit_produit(w)) == reconstruit_produit(w),
        reconstruit_produit(w).bien_forme(),
    decreases w.len(),
{
    let r = reconstruit_produit(w);
    lemme_facteurs_reconstruits(w);
    lemme_regroupe_facteurs(w);
    if w.len() == 1 {
        assert(facteur_canonique(w[0]));
    } else {
        let d = w.drop_last();
        let e = w.last();
        lemme_prefixe_facteurs(w);
        lemme_produit_fixe(d);
        assert(facteur_canonique(e));
        let rd = reconstruit_produit(d);
        assert(r == Terme::Mul(Box::new(rd), Box::new(e)));
        assert(canon(r) == canon_produit(Terme::Mul(Box::new(canon(rd)), Box::new(canon(e)))));
        assert(canon(r) == canon_produit(r));
    }
}

/// The product of a canonical list of canonical factors is canonical.
proof fn lemme_produit_canonique(w: Seq<Terme>)
    requires
        liste_facteurs(w),
        tous_canoniques(w),
    ensures
        canonique(reconstruit_produit(w)),
    decreases w.len(),
{
    let r = reconstruit_produit(w);
    lemme_produit_fixe(w);
    lemme_facteurs_reconstruits(w);
    if w.len() == 1 {
        assert(canonique(w[0]));
    } else {
        let d = w.drop_last();
        lemme_prefixe_facteurs(w);
        lemme_canoniques_prefixe(w);
        lemme_produit_canonique(d);
    }
}

/// The factors of the canonical product of a canonical list are canonical
/// when the product is.
proof fn lemme_facteurs_de_produit(w: Seq<Terme>)
    requires
        liste_facteurs(w),
        canonique(reconstruit_produit(w)),
    ensures
        tous_canoniques(w),
    decreases w.len(),
{
    let r = reconstruit_produit(w);
    if w.len() == 1 {
        assert(w[0] == r);
    } else {
        let d = w.drop_last();
        let e = w.last();
        lemme_prefixe_facteurs(w);
        assert(r == Terme::Mul(Box::new(reconstruit_produit(d)), Box::new(e)));
        assert(canonique(reconstruit_produit(d)) && canonique(e));
        lemme_facteurs_de_produit(d);
        assert forall|i: int| 0 <= i < w.len() implies canonique(#[trigger] w[i]) by {
            if i < d.len() {
                assert(w[i] == d[i]);
            }
        }
    }
}

/// Whether `e` can enter a product: `Indefini`, a rational, or a tree whose
/// absolute value is a canonical factor.
pub open spec fn facteur_entrant(e: Terme) -> bool {
    &&& e.bien_forme()
    &&& (e is Indefini || e is Rat || (facteur_canonique(valeur_absolue(e)) && !(valeur_absolue(e)
        is Rat) && canonique(valeur_absolue(e))))
}

/// Whether every tree of the sequence can enter a product.
pub open spec fn facteurs_entrants(s: Seq<Terme>) -> bool {
    forall|i: int| 0 <= i < s.len() ==> facteur_entrant(#[trigger] s[i])
}

/// The factors of a canonical tree can enter a product.
proof fn lemme_facteurs_entrants(c: Terme)
    requires
        canonique(c),
    ensures
        facteurs_entrants(facteurs(c)),
    decreases c,
{
    match c {
        Terme::Mul(_, _) => {
            let w = facteurs(c);
            lemme_facteurs_de_produit(w);
            assert forall|i: int| 0 <= i < w.len() implies facteur_entrant(#[trigger] w[i]) by {
                assert(facteur_canonique(w[i]));
                assert(canonique(w[i]));
                if !(w[i] is Rat) {
                    assert(valeur_absolue(w[i]) == w[i]);
                }
            }
        },
        Terme::Sub(a, y) => {
            if a.est_zero() {
                lemme_facteurs_entrants(*y);
                let u = seq![Terme::entier(-1)];
                lemme_entier_bien_forme(-1);
                assert(facteurs_entrants(u));
                lemme_entrants_concat(u, facteurs(*y));
            } else {
                assert(facteurs(c) == seq![c]);
                assert(valeur_absolue(c) == c);
            }
        },
        _ => {
            assert(facteurs(c) == seq![c]);
            if !(c is Indefini || c is Rat) {
                assert(valeur_absolue(c) == c);
            }
        },
    }
}

/// Two sequences of factors that can enter a product, one after the other.
proof fn lemme_entrants_concat(a: Seq<Terme>, b: Seq<Terme>)
    requires
        facteurs_entrants(a),
        facteurs_entrants(b),
    ensures
        facteurs_entrants(a + b),
{
    assert forall|i: int| 0 <= i < (a + b).len() implies facteur_entrant(#[trigger] (a + b)[i]) by {
        if i < a.len() {
            assert((a + b)[i] == a[i]);
        } else {
            assert((a + b)[i] == b[i - a.len()]);
        }
    }
}

/// What is gathered from factors that can enter a product, none of them
/// `Indefini`: canonical factors that are no rationals, and a coefficient in
/// lowest terms.
proof fn lemme_autres_facteurs(s: Seq<Terme>)
    requires
        facteurs_entrants(s),
        !un_indefini(s),
    ensures
        forall|i: int|
            0 <= i < autres_facteurs(s).len() ==> facteur_canonique(
                #[trigger] autres_facteurs(s)[i],
            ) && !(autres_facteurs(s)[i] is Rat) && canonique(autres_facteurs(s)[i]),
        produit_rationnels(s).bien_forme(),
    decreases s.len(),
{
    lemme_zero_bien_forme();
    if s.len() > 0 {
        let d = s.drop_last();
        assert(facteurs_entrants(d)) by {
            assert forall|i: int| 0 <= i < d.len() implies facteur_entrant(#[trigger] d[i]) by {
                assert(d[i] == s[i]);
            }
        }
        assert(!un_indefini(d)) by {
            assert forall|i: int| 0 <= i < d.len() implies !(#[trigger] d[i] is Indefini) by {
                assert(d[i] == s[i]);
            }
        }
        lemme_autres_facteurs(d);
        let e = s[s.len() - 1];
        assert(facteur_entrant(e));
        assert(!(e is Indefini));
        if let Terme::Rat(f) = valeur_absolue(e) {
            assert(e is Rat);
            lemme_oppose(e->Rat_0);
            lemme_operations_bien_formees(produit_rationnels(d), f);
        }
    }
}

/// The canonical form of a product of canonical trees is canonical.
proof fn lemme_canon_produit_canonique(ca: Terme, cb: Terme)
    requires
        canonique(ca),
        canonique(cb),
    ensures
        canonique(canon_produit(Terme::Mul(Box::new(ca), Box::new(cb)))),
{
    lemme_zero_bien_forme();
    lemme_rationnel_canonique(Frac::entier(0));
    lemme_rationnel_canonique(Frac::entier(1));
    let m = Terme::Mul(Box::new(ca), Box::new(cb));
    let fs = facteurs(m);
    lemme_facteurs_entrants(ca);
    lemme_facteurs_entrants(cb);
    lemme_entrants_concat(facteurs(ca), facteurs(cb));
    assert(fs == facteurs(ca) + facteurs(cb));
    if un_indefini(fs) {
    } else if un_zero(fs) || produit_rationnels(fs).est_zero() {
    } else {
        lemme_autres_facteurs(fs);
        let n = autres_facteurs(fs);
        let c = coefficient(fs);
        lemme_oppose(produit_rationnels(fs));
        assert(c.bien_forme() && !c.est_zero());
        let v = facteurs_regroupes(fs);
        if v.len() > 0 {
            lemme_tri_trie(v);
            lemme_tri_longueur(v);
            lemme_tri_elements(n);
            lemme_tri_longueur(n);
            assert forall|i: int| 0 <= i < tri(n).len() implies facteur_canonique(
                #[trigger] tri(n)[i],
            ) && !(tri(n)[i] is Rat) && canonique(tri(n)[i]) by {
                let j = choose|j: int| 0 <= j < n.len() && n[j] == tri(n)[i];
                assert(facteur_canonique(n[j]));
            }
            if c.est_un() {
                assert(v == n);
            } else {
                let x = Terme::Rat(c);
                lemme_rationnel_canonique(c);
                assert(facteur_canonique(x));
                assert(v == n.push(x));
                assert(v.drop_last() =~= n);
                assert(v.last() == x);
                assert(position_insertion(tri(n), x) == 0) by {
                    if tri(n).len() > 0 {
                        assert(!(tri(n)[0] is Rat));
                        assert(rang(tri(n)[0]) > 0);
                    }
                }
                let w = tri(n).insert(0, x);
                assert(tri(v) == w);
                assert forall|i: int| 0 <= i < w.len() implies facteur_canonique(#[trigger] w[i])
                    && canonique(w[i]) by {
                    if i > 0 {
                        assert(w[i] == tri(n)[i - 1]);
                    }
                }
                assert forall|i: int| 1 <= i < w.len() implies !(#[trigger] w[i] is Rat) by {
                    assert(w[i] == tri(n)[i - 1]);
                }
            }
            let w = tri(v);
            assert(liste_facteurs(w));
            assert(tous_canoniques(w));
            lemme_produit_canonique(w);
        }
    }
}

/* -------------------------------------------------------------- quotients */

/// The opposite of a canonical tree is canonical.
proof fn lemme_oppose_canonique(c: Terme)
    requires
        canonique(c),
    ensures
        canonique(oppose(c)),
        !(oppose(c) is Indefini),
{
    if let Terme::Rat(f) = c {
        lemme_oppose(f);
        lemme_rationnel_canonique(f.oppose());
    } else {
        lemme_negation_canonique(c);
    }
}

/// The quotient of canonical trees, the denominator not written as a
/// negative and neither of them `Indefini`, is canonical.
proof fn lemme_quotient_net_canonique(ca: Terme, cb: Terme)
    requires
        canonique(ca),
        canonique(cb),
        !(ca is Indefini),
        !(cb is Indefini),
        !est_negatif(cb),
    ensures
        canonique(quotient_net(ca, cb)),
{
    lemme_zero_bien_forme();
    lemme_rationnel_canonique(Frac::entier(0));
    let c = quotient_net(ca, cb);
    if cb.est_un() {
    } else if ca.est_zero() {
    } else {
        assert(c == Terme::Div(Box::new(ca), Box::new(cb)));
        assert(canon(c) == canon_quotient(canon(ca), canon(cb)));
        assert(canon_quotient(ca, cb) == quotient_net(ca, cb));
    }
}

/// The canonical form of a quotient of canonical trees is canonical.
proof fn lemme_canon_quotient_canonique(ca: Terme, cb: Terme)
    requires
        canonique(ca),
        canonique(cb),
    ensures
        canonique(canon_quotient(ca, cb)),
    decreases cb,
{
    if ca is Indefini || cb is Indefini {
    } else {
        lemme_oppose_canonique(ca);
        match cb {
            Terme::Rat(f) => {
                if f.est_negatif() {
                    lemme_oppose(f);
                    lemme_rationnel_canonique(f.oppose());
                    lemme_quotient_net_canonique(oppose(ca), Terme::Rat(f.oppose()));
                } else {
                    lemme_quotient_net_canonique(ca, cb);
                }
            },
            Terme::Sub(z, y) => {
                if z.est_zero() {
                    lemme_canon_quotient_canonique(oppose(ca), *y);
                } else {
                    lemme_quotient_net_canonique(ca, cb);
                }
            },
            _ => {
                lemme_quotient_net_canonique(ca, cb);
            },
        }
    }
}

/* ---------------------------------------------------------- square roots */

/// The canonical form of a square root over a canonical tree is canonical.
proof fn lemme_canon_racine_canonique(cx: Terme)
    requires
        canonique(cx),
    ensures
        canonique(canon_racine(cx)),
{
    lemme_canon_racine(cx);
    lemme_zero_bien_forme();
    lemme_rationnel_canonique(Frac::entier(0));
    let c = canon_racine(cx);
    match cx {
        Terme::Indefini => {},
        Terme::Rat(f) => {
            if f.est_zero() {
            } else if f.est_positif() && f.est_entier() {
                lemme_extrait(f.num);
                let (s, t) = extrait(f.num);
                lemme_entier_bien_forme(s);
                lemme_entier_bien_forme(t);
                lemme_rationnel_canonique(Frac::entier(s));
                lemme_rationnel_canonique(Frac::entier(t));
                if t != 1 {
                    lemme_essais_sans_carre(t, 2);
                    let r = racine_de(t);
                    assert(canon(r) == canon_racine(canon(Terme::entier(t))));
                    assert(canon(r) == r);
                    assert(r.bien_forme()) by {
                        reveal_with_fuel(Terme::bien_forme, 2);
                    }
                    assert(canonique(r));
                    if s != 1 {
                        lemme_produit_entier_racine(s, t);
                        let e = Terme::entier(s);
                        let w = seq![e, r];
                        assert(facteurs(e) == seq![e]);
                        assert(facteurs(r) == seq![r]);
                        assert(facteurs(c) =~= w);
                        assert(facteur_canonique(e));
                        assert(facteur_canonique(r));
                        assert(liste_facteurs(w)) by {
                            assert(rang(e) < rang(r));
                            assert forall|i: int, j: int| 0 <= i < j < w.len() implies !precede(
                                #[trigger] w[j],
                                #[trigger] w[i],
                            ) by {
                                assert(w[i] == e && w[j] == r);
                            }
                        }
                        assert(w.drop_last() =~= seq![e]);
                        assert(reconstruit_produit(seq![e]) == e);
                        assert(reconstruit_produit(w) == c);
                    }
                }
            }
        },
        _ => {},
    }
}

/* ------------------------------------------------------------ the theorem */

/// The canonical form of a tree is canonical.
pub proof fn lemme_canon_canonique(t: Terme)
    requires
        t.bien_forme(),
    ensures
        canonique(canon(t)),
    decreases t,
{
    lemme_zero_bien_forme();
    lemme_rationnel_canonique(Frac::entier(1));
    match t {
        Terme::Rat(_) | Terme::Pi | Terme::Var(_) | Terme::Indefini => {},
        Terme::Sin(x) | Terme::Cos(x) | Terme::Tan(x) => {
            lemme_canon_canonique(*x);
        },
        Terme::PowInt(x, n) => {
            lemme_canon_canonique(*x);
        },
        Terme::Sqrt(x) => {
            lemme_canon_canonique(*x);
            lemme_canon_racine_canonique(canon(*x));
        },
        Terme::Add(a, b) => {
            lemme_canon_canonique(*a);
            lemme_canon_canonique(*b);
            lemme_canon_somme_canonique(canon(*a), canon(*b), false);
        },
        Terme::Sub(a, b) => {
            lemme_canon_canonique(*a);
            lemme_canon_canonique(*b);
            lemme_canon_somme_canonique(canon(*a), canon(*b), true);
        },
        Terme::Mul(a, b) => {
            lemme_canon_canonique(*a);
            lemme_canon_canonique(*b);
            lemme_canon_produit_canonique(canon(*a), canon(*b));
        },
        Terme::Div(a, b) => {
            lemme_canon_canonique(*a);
            lemme_canon_canonique(*b);
            lemme_canon_quotient_canonique(canon(*a), canon(*b));
        },
    }
}

/// Canonical idempotence: the canonical form of the canonical form of a
/// tree is that canonical form.
pub proof fn lemme_canon_idempotent(t: Terme)
    requires
        t.bien_forme(),
    ensures
        canon(canon(t)) == canon(t),
{
    lemme_canon_canonique(t);
}

} // verus!

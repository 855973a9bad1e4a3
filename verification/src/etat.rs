//! The state of the calculator's front end: the entry, the last results, the
//! error, the precision and the derivation panel. Its operations change the
//! state only; nothing here evaluates anything but [`AppCalc::eval_via_noyau`],
//! which hands the entry to the kernel.
use crate::entier::est_chiffre;
use crate::eval::{eval_expression_avec_cache, evaluation, Derivation};
use crate::lecture::CachePi;
use crate::texte::{
    car_est_blanc, car_est_chiffre, car_est_lettre, caracteres, chaine_de, est_blanc, est_lettre,
};
use vstd::prelude::*;
use vstd::string::StringExecFns;

verus! {

/// The precision of the decimal reading at start.
pub const DIGITS_DEFAUT: usize = 20;

/// The largest precision of the decimal reading.
pub const DIGITS_MAX: usize = 200;

/// The six texts of the derivation panel.
#[derive(Clone, Default, Debug)]
pub struct Demarche {
    pub jetons: String,
    pub rpn: String,
    pub avant: String,
    pub apres: String,
    pub note: String,
    pub preuve: String,
}

impl Demarche {
    /// Whether the six texts are empty.
    pub open spec fn est_vide(self) -> bool {
        &&& self.jetons@.len() == 0
        &&& self.rpn@.len() == 0
        &&& self.avant@.len() == 0
        &&& self.apres@.len() == 0
        &&& self.note@.len() == 0
        &&& self.preuve@.len() == 0
    }

    /// The derivation with six empty texts.
    pub fn vide() -> (d: Demarche)
        ensures
            d.est_vide(),
    {
        Demarche {
            jetons: String::new(),
            rpn: String::new(),
            avant: String::new(),
            apres: String::new(),
            note: String::new(),
            preuve: String::new(),
        }
    }
}

/// The state of the front end.
#[derive(Clone, Debug)]
pub struct AppCalc {
    /// What the user has typed.
    pub entree: String,
    /// The exact form of the last result.
    pub exact: String,
    /// The decimal reading of the last result.
    pub lecture: String,
    /// The message of the last failure; empty when there is none.
    pub erreur: String,
    /// Whether `lecture` holds a reading.
    pub lecture_dispo: bool,
    pub demarche: Demarche,
    /// The precision of the decimal reading.
    pub digits: usize,
    /// Whether the entry field should take the keyboard focus.
    pub focus_entree: bool,
}

impl Default for AppCalc {
    /// The state at start: nothing typed, nothing computed, the default
    /// precision, the focus on the entry.
    fn default() -> (r: Self)
        ensures
            r.entree@.len() == 0,
            r.resultats_vides(),
            r.digits == DIGITS_DEFAUT,
            r.focus_entree,
    {
        AppCalc {
            entree: String::new(),
            exact: String::new(),
            lecture: String::new(),
            erreur: String::new(),
            lecture_dispo: false,
            demarche: Demarche::vide(),
            digits: DIGITS_DEFAUT,
            focus_entree: true,
        }
    }
}

impl AppCalc {
    /// No result, no reading, no error, no derivation.
    pub open spec fn resultats_vides(self) -> bool {
        &&& self.exact@.len() == 0
        &&& self.lecture@.len() == 0
        &&& self.erreur@.len() == 0
        &&& !self.lecture_dispo
        &&& self.demarche.est_vide()
    }

    /// AC: everything back to the state at start.
    pub fn reset_total(&mut self)
        ensures
            final(self).entree@.len() == 0,
            final(self).resultats_vides(),
            final(self).digits == DIGITS_DEFAUT,
            final(self).focus_entree,
    {
        self.entree = String::new();
        self.clear_resultats();
        self.digits = DIGITS_DEFAUT;
        self.focus_entree = true;
    }

    /// C: empties the entry and leaves the results.
    pub fn clear_entree(&mut self)
        ensures
            final(self).entree@.len() == 0,
            final(self).focus_entree,
            final(self).exact == old(self).exact,
            final(self).lecture == old(self).lecture,
            final(self).erreur == old(self).erreur,
            final(self).lecture_dispo == old(self).lecture_dispo,
            final(self).demarche == old(self).demarche,
            final(self).digits == old(self).digits,
    {
        self.entree = String::new();
        self.focus_entree = true;
    }

    /// Empties the derivation panel.
    pub fn clear_demarche(&mut self)
        ensures
            final(self).demarche.est_vide(),
            final(self).entree == old(self).entree,
            final(self).exact == old(self).exact,
            final(self).lecture == old(self).lecture,
            final(self).erreur == old(self).erreur,
            final(self).lecture_dispo == old(self).lecture_dispo,
            final(self).digits == old(self).digits,
            final(self).focus_entree == old(self).focus_entree,
    {
        self.demarche = Demarche::vide();
    }

    /// CLR: empties results, error and derivation, and leaves the entry.
    pub fn clear_resultats(&mut self)
        ensures
            final(self).resultats_vides(),
            final(self).focus_entree,
            final(self).entree == old(self).entree,
            final(self).digits == old(self).digits,
    {
        self.exact = String::new();
        self.lecture = String::new();
        self.erreur = String::new();
        self.lecture_dispo = false;
        self.clear_demarche();
        self.focus_entree = true;
    }

    /// Records a failure. The last exact result stays on screen; the decimal
    /// reading and the derivation, which no longer hold, are removed.
    pub fn set_erreur(&mut self, msg: String)
        ensures
            final(self).erreur == msg,
            final(self).lecture@.len() == 0,
            !final(self).lecture_dispo,
            final(self).demarche.est_vide(),
            final(self).focus_entree,
            final(self).exact == old(self).exact,
            final(self).entree == old(self).entree,
            final(self).digits == old(self).digits,
    {
        self.erreur = msg;
        self.lecture = String::new();
        self.lecture_dispo = false;
        self.clear_demarche();
        self.focus_entree = true;
    }

    /// Records a complete result: the exact form, the decimal reading where
    /// there is one, and the derivation. The error is removed.
    pub fn set_resultats(&mut self, exact: String, lecture: Option<String>, demarche: Demarche)
        ensures
            final(self).erreur@.len() == 0,
            final(self).exact == exact,
            final(self).demarche == demarche,
            final(self).lecture_dispo == (lecture is Some),
            lecture matches Some(v) ==> final(self).lecture == v,
            lecture is None ==> final(self).lecture@.len() == 0,
            final(self).focus_entree,
            final(self).entree == old(self).entree,
            final(self).digits == old(self).digits,
    {
        self.erreur = String::new();
        self.exact = exact;
        self.demarche = demarche;
        match lecture {
            Some(v) => {
                self.lecture_dispo = true;
                self.lecture = v;
            },
            None => {
                self.lecture_dispo = false;
                self.lecture = String::new();
            },
        }
        self.focus_entree = true;
    }

    /// Sets the precision, held to at most [`DIGITS_MAX`].
    pub fn set_digits(&mut self, digits: usize)
        ensures
            final(self).digits == (if digits <= DIGITS_MAX {
                digits
            } else {
                DIGITS_MAX
            }),
            final(self).focus_entree,
            final(self).entree == old(self).entree,
            final(self).exact == old(self).exact,
            final(self).lecture == old(self).lecture,
            final(self).erreur == old(self).erreur,
            final(self).lecture_dispo == old(self).lecture_dispo,
            final(self).demarche == old(self).demarche,
    {
        self.digits = if digits <= DIGITS_MAX {
            digits
        } else {
            DIGITS_MAX
        };
        self.focus_entree = true;
    }
}

/// What a key of the pad inserts: the kind decides the spaces round it.
#[derive(Clone, Copy, Debug)]
pub enum InsertKind {
    Digit,
    Word,
    Func,
    Op,
    OpenParen,
    CloseParen,
}

/// The text without the spaces at its end.
pub open spec fn sans_espaces_finaux(s: Seq<char>) -> Seq<char>
    decreases s.len(),
{
    if s.len() > 0 && s.last() == ' ' {
        sans_espaces_finaux(s.drop_last())
    } else {
        s
    }
}

/// Whether the text ends with `motif`.
pub open spec fn finit_par(s: Seq<char>, motif: Seq<char>) -> bool {
    s.len() >= motif.len() && s.subrange(s.len() - motif.len(), s.len() as int) == motif
}

/// The text without its last `n` characters and without the spaces before
/// them.
pub open spec fn retire(s: Seq<char>, n: nat) -> Seq<char>
    recommends
        n <= s.len(),
{
    sans_espaces_finaux(s.take(s.len() - n))
}

/// The entry after one backspace: the spaces at the end go, then a whole
/// `sqrt(`, `sin(`, `cos(`, `tan(` or `pi` if the entry ends with one, else
/// one character, then again the spaces at the end.
pub open spec fn retour_arriere(s: Seq<char>) -> Seq<char> {
    let t = sans_espaces_finaux(s);
    if s.len() == 0 {
        s
    } else if finit_par(t, "sqrt("@) {
        retire(t, "sqrt("@.len())
    } else if finit_par(t, "sin("@) {
        retire(t, "sin("@.len())
    } else if finit_par(t, "cos("@) {
        retire(t, "cos("@.len())
    } else if finit_par(t, "tan("@) {
        retire(t, "tan("@.len())
    } else if finit_par(t, "pi"@) {
        retire(t, "pi"@.len())
    } else if t.len() == 0 {
        t
    } else {
        retire(t, 1)
    }
}

/// The last character of the text that is not white space.
pub open spec fn dernier_non_blanc(s: Seq<char>) -> Option<char>
    decreases s.len(),
{
    if s.len() == 0 {
        None
    } else if est_blanc(s.last()) {
        dernier_non_blanc(s.drop_last())
    } else {
        Some(s.last())
    }
}

/// The entry after a key of the pad.
///
/// A closing parenthesis sticks to what is before it. An opening parenthesis
/// or a function takes a space after a digit, a letter or `)`. An operator
/// stands between two single spaces. A digit is appended as it is. A word
/// takes a space after a digit or `)`, unless the entry already ends with white
/// space.
pub open spec fn avec_insertion(s: Seq<char>, ajout: Seq<char>, kind: InsertKind) -> Seq<char> {
    match kind {
        InsertKind::CloseParen => sans_espaces_finaux(s) + ajout,
        InsertKind::OpenParen | InsertKind::Func => match dernier_non_blanc(s) {
            Some(c) => if est_chiffre(c) || est_lettre(c) || c == ')' {
                s + " "@ + ajout
            } else {
                s + ajout
            },
            None => s + ajout,
        },
        InsertKind::Op => {
            let t = sans_espaces_finaux(s);
            if t.len() == 0 {
                t + ajout + " "@
            } else {
                t + " "@ + ajout + " "@
            }
        },
        InsertKind::Digit => s + ajout,
        InsertKind::Word => if s.len() > 0 && !est_blanc(s.last()) {
            match dernier_non_blanc(s) {
                Some(c) => if est_chiffre(c) || c == ')' {
                    s + " "@ + ajout
                } else {
                    s + ajout
                },
                None => s + ajout,
            }
        } else {
            s + ajout
        },
    }
}

/// Takes the spaces off the end.
fn ote_espaces(v: &mut Vec<char>)
    ensures
        final(v)@ == sans_espaces_finaux(old(v)@),
{
    while v.len() > 0 && v[v.len() - 1] == ' '
        invariant
            sans_espaces_finaux(v@) == sans_espaces_finaux(old(v)@),
        decreases v.len(),
    {
        let ghost avant = v@;
        v.pop();
        assert(v@ =~= avant.drop_last());
    }
}

/// Whether the characters end with the pattern.
fn se_termine_par(v: &Vec<char>, motif: &str) -> (b: bool)
    ensures
        b == finit_par(v@, motif@),
{
    let m = caracteres(motif);
    if v.len() < m.len() {
        return false;
    }
    let base = v.len() - m.len();
    let mut i: usize = 0;
    while i < m.len()
        invariant
            i <= m.len(),
            base + m.len() == v.len(),
            m@ == motif@,
            forall|j: int| 0 <= j < i ==> v@[base + j] == m@[j],
        decreases m.len() - i,
    {
        if v[base + i] != m[i] {
            assert(v@.subrange(base as int, v@.len() as int)[i as int] != m@[i as int]);
            return false;
        }
        i += 1;
    }
    assert(v@.subrange(base as int, v@.len() as int) =~= m@);
    true
}

/// Takes `n` characters off the end, then the spaces before them.
fn ote(v: &mut Vec<char>, n: usize)
    requires
        n <= old(v)@.len(),
    ensures
        final(v)@ == retire(old(v)@, n as nat),
{
    let mut i: usize = 0;
    while i < n
        invariant
            i <= n <= old(v)@.len(),
            v@ == old(v)@.take(old(v)@.len() - i),
        decreases n - i,
    {
        let ghost avant = v@;
        v.pop();
        assert(v@ =~= old(v)@.take(old(v)@.len() - (i + 1)));
        i += 1;
    }
    ote_espaces(v);
}

/// The last character that is not white space.
fn trouve_dernier_non_blanc(v: &Vec<char>) -> (r: Option<char>)
    ensures
        r == dernier_non_blanc(v@),
{
    let mut i: usize = v.len();
    proof {
        assert(v@.take(v@.len() as int) =~= v@);
    }
    while i > 0
        invariant
            i <= v.len(),
            dernier_non_blanc(v@) == dernier_non_blanc(v@.take(i as int)),
        decreases i,
    {
        proof {
            assert(v@.take(i as int).last() == v@[i - 1]);
            assert(v@.take(i as int).drop_last() =~= v@.take(i - 1));
        }
        if !car_est_blanc(v[i - 1]) {
            return Some(v[i - 1]);
        }
        i -= 1;
    }
    None
}

/// Appends the characters of `s`.
fn ajoute(v: &mut Vec<char>, s: &str)
    ensures
        final(v)@ == old(v)@ + s@,
{
    let c = caracteres(s);
    let mut i: usize = 0;
    proof {
        assert(v@ =~= old(v)@ + c@.take(0));
    }
    while i < c.len()
        invariant
            i <= c.len(),
            c@ == s@,
            v@ == old(v)@ + c@.take(i as int),
        decreases c.len() - i,
    {
        v.push(c[i]);
        assert(v@ =~= old(v)@ + c@.take(i + 1));
        i += 1;
    }
    assert(c@.take(c@.len() as int) =~= c@);
}

impl AppCalc {
    /// Backspace: takes a whole `sqrt(`, `sin(`, `cos(`, `tan(` or `pi` off
    /// the end of the entry, or one character; see [`retour_arriere`].
    pub fn backspace_entree(&mut self)
        ensures
            final(self).entree@ == retour_arriere(old(self).entree@),
            final(self).exact == old(self).exact,
            final(self).lecture == old(self).lecture,
            final(self).erreur == old(self).erreur,
            final(self).lecture_dispo == old(self).lecture_dispo,
            final(self).demarche == old(self).demarche,
            final(self).digits == old(self).digits,
            final(self).focus_entree == old(self).focus_entree,
    {
        let mut v = caracteres(self.entree.as_str());
        if v.len() == 0 {
            return ;
        }
        ote_espaces(&mut v);
        proof {
            reveal_strlit("sqrt(");
            reveal_strlit("sin(");
            reveal_strlit("cos(");
            reveal_strlit("tan(");
            reveal_strlit("pi");
        }
        if se_termine_par(&v, "sqrt(") {
            ote(&mut v, 5);
        } else if se_termine_par(&v, "sin(") {
            ote(&mut v, 4);
        } else if se_termine_par(&v, "cos(") {
            ote(&mut v, 4);
        } else if se_termine_par(&v, "tan(") {
            ote(&mut v, 4);
        } else if se_termine_par(&v, "pi") {
            ote(&mut v, 2);
        } else if v.len() > 0 {
            ote(&mut v, 1);
        }
        self.entree = chaine_de(&v, 0, v.len());
        assert(v@.subrange(0, v@.len() as int) =~= v@);
    }

    /// A key of the pad: appends `to_insert` to the entry with the spaces
    /// that its kind asks for; see [`avec_insertion`]. An empty insertion
    /// changes nothing.
    pub fn inserer(&mut self, to_insert: &str, kind: InsertKind)
        ensures
            to_insert@.len() == 0 ==> *final(self) == *old(self),
            to_insert@.len() > 0 ==> final(self).entree@ == avec_insertion(
                old(self).entree@,
                to_insert@,
                kind,
            ) && final(self).focus_entree,
            final(self).exact == old(self).exact,
            final(self).lecture == old(self).lecture,
            final(self).erreur == old(self).erreur,
            final(self).lecture_dispo == old(self).lecture_dispo,
            final(self).demarche == old(self).demarche,
            final(self).digits == old(self).digits,
    {
        if to_insert.is_empty() {
            return ;
        }
        let mut v = caracteres(self.entree.as_str());
        proof {
            reveal_strlit(" ");
        }
        match kind {
            InsertKind::CloseParen => {
                ote_espaces(&mut v);
                ajoute(&mut v, to_insert);
            },
            InsertKind::OpenParen | InsertKind::Func => {
                if let Some(c) = trouve_dernier_non_blanc(&v) {
                    if car_est_chiffre(c) || car_est_lettre(c) || c == ')' {
                        ajoute(&mut v, " ");
                    }
                }
                ajoute(&mut v, to_insert);
            },
            InsertKind::Op => {
                ote_espaces(&mut v);
                if v.len() > 0 {
                    ajoute(&mut v, " ");
                }
                ajoute(&mut v, to_insert);
                ajoute(&mut v, " ");
            },
            InsertKind::Digit => {
                ajoute(&mut v, to_insert);
            },
            InsertKind::Word => {
                if v.len() > 0 && !car_est_blanc(v[v.len() - 1]) {
                    if let Some(c) = trouve_dernier_non_blanc(&v) {
                        if car_est_chiffre(c) || c == ')' {
                            ajoute(&mut v, " ");
                        }
                    }
                }
                ajoute(&mut v, to_insert);
            },
        }
        self.entree = chaine_de(&v, 0, v.len());
        assert(v@.subrange(0, v@.len() as int) =~= v@);
        self.focus_entree = true;
    }

    /// Hands the entry to the kernel and records what comes back: the
    /// results of a successful evaluation, or the message of a failure.
    pub fn eval_via_noyau(&mut self)
        ensures
            final(self).reflete(*old(self)),
    {
        let mut cache = CachePi::new();
        self.eval_via_noyau_avec_cache(&mut cache);
    }

    /// As [`AppCalc::eval_via_noyau`], with π taken from `cache`, which keeps
    /// what it held and gains at most π at the precision of the state.
    pub fn eval_via_noyau_avec_cache(&mut self, cache: &mut CachePi)
        requires
            old(cache).valide(),
        ensures
            final(self).reflete(*old(self)),
            final(cache).valide(),
            old(cache).connus().subset_of(final(cache).connus()),
        final(cache).connus().subset_of(old(cache).connus().insert(old(self).digits)),
    {
        match eval_expression_avec_cache(self.entree.as_str(), self.digits, cache) {
            Ok((exact, lecture_opt, d_noyau)) => {
                let d_ui = Demarche {
                    jetons: d_noyau.jetons,
                    rpn: d_noyau.rpn,
                    avant: d_noyau.avant,
                    apres: d_noyau.apres,
                    note: d_noyau.note,
                    preuve: d_noyau.preuve,
                };
                self.set_resultats(exact, lecture_opt, d_ui);
            },
            Err(msg) => {
                self.set_erreur(msg);
            },
        }
    }

    /// Whether this state is `avant` after its entry has been evaluated:
    /// the results of the evaluation where it succeeds; where it fails, its
    /// message, the exact form of `avant`, and neither reading nor derivation.
    pub open spec fn reflete(self, avant: AppCalc) -> bool {
        &&& match evaluation(avant.entree@, avant.digits as nat) {
            Ok((exact, decimal, d)) => {
                &&& self.exact@ == exact
                &&& self.lecture_dispo == (decimal is Some)
                &&& decimal matches Some(t) ==> self.lecture@ == t
                &&& decimal is None ==> self.lecture@.len() == 0
                &&& self.erreur@.len() == 0
                &&& self.demarche.vue() == d
            },
            Err(e) => {
                &&& self.erreur@ == e
                &&& self.exact == avant.exact
                &&& self.lecture@.len() == 0
                &&& !self.lecture_dispo
                &&& self.demarche.est_vide()
            },
        }
        &&& self.entree == avant.entree
        &&& self.digits == avant.digits
        &&& self.focus_entree
    }
}

impl Demarche {
    /// The model of the derivation.
    pub open spec fn vue(self) -> Derivation {
        Derivation {
            jetons: self.jetons@,
            rpn: self.rpn@,
            avant: self.avant@,
            apres: self.apres@,
            note: self.note@,
            preuve: self.preuve@,
        }
    }
}

} // verus!

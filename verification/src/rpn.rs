//! The parser: tokens to postfix order by operator precedence, postfix order
//! to a tree.
use crate::entier::{big_vers_i64, valeur};
use crate::expr::{Expr, Terme};
use crate::jetons::{jetons_bien_formes, vue_jetons, vue_lex, Jeton, Tok};
use crate::rationnel::{frac, rat_de_i64, rat_est_entier, rat_numer, Frac};
use crate::texte::textes_egaux;
use vstd::prelude::*;
use vstd::string::StringExecFns;

verus! {

/// Whether the name is one of the four functions.
pub open spec fn est_fonction(nom: Seq<char>) -> bool {
    nom == "sin"@ || nom == "cos"@ || nom == "tan"@ || nom == "sqrt"@
}

impl Jeton {
    /// The binding strength of an operator; zero for any other token.
    pub open spec fn precedence(self) -> int {
        match self {
            Jeton::Plus | Jeton::Minus => 1,
            Jeton::Star | Jeton::Slash => 2,
            Jeton::Caret => 3,
            _ => 0,
        }
    }

    /// Whether the token is the name of a function.
    pub open spec fn est_fonction(self) -> bool {
        self matches Jeton::Ident(nom) && est_fonction(nom)
    }

    /// Whether `self`, on top of the operator stack, leaves it before the
    /// operator `op` enters: `^` binds to the right, the others to the left.
    pub open spec fn sort_avant(self, op: Jeton) -> bool {
        if op is Caret {
            self.precedence() > op.precedence()
        } else {
            self.precedence() >= op.precedence()
        }
    }
}

/// The state of the conversion to postfix order.
pub struct EtatRpn {
    /// The postfix sequence so far.
    pub sortie: Seq<Jeton>,
    /// The operators, functions and open parentheses that wait.
    pub ops: Seq<Jeton>,
    /// Whether the last token ended a value; a `-` that follows anything else
    /// is a sign.
    pub valeur_avant: bool,
}

impl EtatRpn {
    /// The state before the first token.
    pub open spec fn initial() -> EtatRpn {
        EtatRpn { sortie: Seq::empty(), ops: Seq::empty(), valeur_avant: false }
    }

    /// The operators on top of the stack that leave before `op` move to the
    /// output. An open parenthesis or a function stops them.
    pub open spec fn depile_pour(self, op: Jeton) -> EtatRpn
        decreases self.ops.len(),
    {
        if self.ops.len() == 0 {
            self
        } else {
            let haut = self.ops.last();
            if haut is LPar || haut.est_fonction() || !haut.sort_avant(op) {
                self
            } else {
                EtatRpn {
                    sortie: self.sortie.push(haut),
                    ops: self.ops.drop_last(),
                    valeur_avant: self.valeur_avant,
                }.depile_pour(op)
            }
        }
    }

    /// Everything above the last open parenthesis moves to the output and the
    /// parenthesis goes; `None` where there is no open parenthesis.
    pub open spec fn ferme_parenthese(self) -> Option<EtatRpn>
        decreases self.ops.len(),
    {
        if self.ops.len() == 0 {
            None
        } else {
            let haut = self.ops.last();
            if haut is LPar {
                Some(
                    EtatRpn {
                        sortie: self.sortie,
                        ops: self.ops.drop_last(),
                        valeur_avant: self.valeur_avant,
                    },
                )
            } else {
                EtatRpn {
                    sortie: self.sortie.push(haut),
                    ops: self.ops.drop_last(),
                    valeur_avant: self.valeur_avant,
                }.ferme_parenthese()
            }
        }
    }

    /// A function on top of the stack moves to the output.
    pub open spec fn sort_fonction(self) -> EtatRpn {
        if self.ops.len() > 0 && self.ops.last().est_fonction() {
            EtatRpn {
                sortie: self.sortie.push(self.ops.last()),
                ops: self.ops.drop_last(),
                valeur_avant: self.valeur_avant,
            }
        } else {
            self
        }
    }

    /// The state after one more token.
    pub open spec fn pas(self, j: Jeton) -> Result<EtatRpn, Seq<char>> {
        match j {
            Jeton::Num(_) | Jeton::Pi => Ok(
                EtatRpn { sortie: self.sortie.push(j), ops: self.ops, valeur_avant: true },
            ),
            Jeton::Ident(_) => if j.est_fonction() {
                Ok(EtatRpn { sortie: self.sortie, ops: self.ops.push(j), valeur_avant: false })
            } else {
                Ok(EtatRpn { sortie: self.sortie.push(j), ops: self.ops, valeur_avant: true })
            },
            Jeton::LPar => Ok(
                EtatRpn { sortie: self.sortie, ops: self.ops.push(j), valeur_avant: false },
            ),
            Jeton::RPar => match self.ferme_parenthese() {
                None => Err("parenthèse fermante inattendue"@),
                Some(e) => {
                    let f = e.sort_fonction();
                    Ok(EtatRpn { sortie: f.sortie, ops: f.ops, valeur_avant: true })
                },
            },
            Jeton::Plus | Jeton::Star | Jeton::Slash | Jeton::Caret => {
                let e = self.depile_pour(j);
                Ok(EtatRpn { sortie: e.sortie, ops: e.ops.push(j), valeur_avant: false })
            },
            Jeton::Minus => {
                let avec_zero = if self.valeur_avant {
                    self
                } else {
                    EtatRpn {
                        sortie: self.sortie.push(Jeton::Num(Frac::entier(0))),
                        ops: self.ops,
                        valeur_avant: self.valeur_avant,
                    }
                };
                let e = avec_zero.depile_pour(j);
                Ok(EtatRpn { sortie: e.sortie, ops: e.ops.push(j), valeur_avant: false })
            },
        }
    }

    /// The output once the operators that wait have all moved to it. An open
    /// parenthesis among them was never closed.
    pub open spec fn vidage(self) -> Result<Seq<Jeton>, Seq<char>>
        decreases self.ops.len(),
    {
        if self.ops.len() == 0 {
            Ok(self.sortie)
        } else if self.ops.last() is LPar {
            Err("parenthèses non fermées"@)
        } else {
            EtatRpn {
                sortie: self.sortie.push(self.ops.last()),
                ops: self.ops.drop_last(),
                valeur_avant: self.valeur_avant,
            }.vidage()
        }
    }

    /// The postfix sequence after the tokens `jetons`, from this state on.
    pub open spec fn suite(self, jetons: Seq<Jeton>) -> Result<Seq<Jeton>, Seq<char>>
        decreases jetons.len(),
    {
        if jetons.len() == 0 {
            self.vidage()
        } else {
            match self.pas(jetons[0]) {
                Err(e) => Err(e),
                Ok(e) => e.suite(jetons.drop_first()),
            }
        }
    }
}

/// The tokens in postfix order.
///
/// Precedence: `^` above `* /` above `+ -`; `^` binds to the right, the
/// others to the left. A function name waits on the operator stack and
/// leaves right after the parenthesis that closes its argument. A `-` where
/// a value is expected is a subtraction from a literal zero. A parenthesis
/// without its partner is an error.
pub open spec fn vers_rpn(jetons: Seq<Jeton>) -> Result<Seq<Jeton>, Seq<char>> {
    EtatRpn::initial().suite(jetons)
}

/// Whether the name is one of the four functions `sin`, `cos`, `tan`, `sqrt`.
pub fn is_fonction_ident(name: &str) -> (b: bool)
    ensures
        b == est_fonction(name@),
{
    textes_egaux(name, "sin") || textes_egaux(name, "cos") || textes_egaux(name, "tan")
        || textes_egaux(name, "sqrt")
}

/// Whether the token is the name of a function.
fn est_tok_fonction(t: &Tok) -> (b: bool)
    ensures
        b == t@.est_fonction(),
{
    match t {
        Tok::Ident(nom) => is_fonction_ident(nom.as_str()),
        _ => false,
    }
}

/// The binding strength of an operator; zero for any other token.
fn precedence(t: &Tok) -> (p: i32)
    ensures
        p == t@.precedence(),
{
    match t {
        Tok::Plus | Tok::Minus => 1,
        Tok::Star | Tok::Slash => 2,
        Tok::Caret => 3,
        _ => 0,
    }
}

/// Whether the operator binds to the right: only `^` does.
fn is_right_associative(t: &Tok) -> (b: bool)
    ensures
        b == (t@ is Caret),
{
    match t {
        Tok::Caret => true,
        _ => false,
    }
}

/// Whether the token is an open parenthesis.
fn est_par_ouvrante(t: &Tok) -> (b: bool)
    ensures
        b == (t@ is LPar),
{
    match t {
        Tok::LPar => true,
        _ => false,
    }
}

/// The executable state of the conversion.
struct Convertisseur {
    out: Vec<Tok>,
    ops: Vec<Tok>,
    prev_was_value: bool,
}

impl Convertisseur {
    /// The model of the state.
    spec fn etat(self) -> EtatRpn {
        EtatRpn {
            sortie: vue_jetons(self.out@),
            ops: vue_jetons(self.ops@),
            valeur_avant: self.prev_was_value,
        }
    }

    /// Whether every literal held is in lowest terms.
    spec fn bien_forme(self) -> bool {
        jetons_bien_formes(vue_jetons(self.out@)) && jetons_bien_formes(vue_jetons(self.ops@))
    }

    /// Moves the top of the operator stack to the output.
    fn sort_un(&mut self)
        requires
            old(self).ops@.len() > 0,
        ensures
            final(self).etat() == (EtatRpn {
                sortie: old(self).etat().sortie.push(old(self).etat().ops.last()),
                ops: old(self).etat().ops.drop_last(),
                valeur_avant: old(self).etat().valeur_avant,
            }),
            old(self).bien_forme() ==> final(self).bien_forme(),
            final(self).ops@.len() + 1 == old(self).ops@.len(),
    {
        let ghost avant = *self;
        let t = self.ops.pop().unwrap();
        self.out.push(t);
        proof {
            assert(vue_jetons(self.ops@) =~= vue_jetons(avant.ops@).drop_last());
            assert(vue_jetons(self.out@) =~= vue_jetons(avant.out@).push(
                vue_jetons(avant.ops@).last(),
            ));
        }
    }

    /// Puts a token on the operator stack.
    fn empile_op(&mut self, t: Tok)
        ensures
            final(self).etat() == (EtatRpn {
                sortie: old(self).etat().sortie,
                ops: old(self).etat().ops.push(t@),
                valeur_avant: false,
            }),
            old(self).bien_forme() && t@.bien_forme() ==> final(self).bien_forme(),
    {
        let ghost avant = *self;
        self.ops.push(t);
        self.prev_was_value = false;
        proof {
            assert(vue_jetons(self.ops@) =~= vue_jetons(avant.ops@).push(t@));
        }
    }

    /// Appends a token to the output.
    fn sort_valeur(&mut self, t: Tok, valeur: bool)
        ensures
            final(self).etat() == (EtatRpn {
                sortie: old(self).etat().sortie.push(t@),
                ops: old(self).etat().ops,
                valeur_avant: valeur,
            }),
            old(self).bien_forme() && t@.bien_forme() ==> final(self).bien_forme(),
    {
        let ghost avant = *self;
        self.out.push(t);
        self.prev_was_value = valeur;
        proof {
            assert(vue_jetons(self.out@) =~= vue_jetons(avant.out@).push(t@));
        }
    }

    /// Moves to the output the operators that leave before `op`; see
    /// [`EtatRpn::depile_pour`].
    fn depile_pour(&mut self, op: &Tok)
        ensures
            final(self).etat() == old(self).etat().depile_pour(op@),
            old(self).bien_forme() ==> final(self).bien_forme(),
    {
        loop
            invariant
                self.etat().depile_pour(op@) == old(self).etat().depile_pour(op@),
                old(self).bien_forme() ==> self.bien_forme(),
            ensures
                self.etat() == old(self).etat().depile_pour(op@),
            decreases self.ops@.len(),
        {
            if self.ops.len() == 0 {
                break ;
            }
            let haut = &self.ops[self.ops.len() - 1];
            assert(haut@ == self.etat().ops.last());
            if est_par_ouvrante(haut) || est_tok_fonction(haut) {
                break ;
            }
            let p_top = precedence(haut);
            let p_tok = precedence(op);
            let doit_pop = if is_right_associative(op) {
                p_top > p_tok
            } else {
                p_top >= p_tok
            };
            if !doit_pop {
                break ;
            }
            self.sort_un();
        }
    }

    /// Closes the last open parenthesis; `false` where there is none.
    fn ferme_parenthese(&mut self) -> (trouvee: bool)
        ensures
            trouvee == (old(self).etat().ferme_parenthese() is Some),
            trouvee ==> final(self).etat() == old(self).etat().ferme_parenthese()->0,
            old(self).bien_forme() ==> final(self).bien_forme(),
    {
        loop
            invariant
                self.etat().ferme_parenthese() == old(self).etat().ferme_parenthese(),
                old(self).bien_forme() ==> self.bien_forme(),
            decreases self.ops@.len(),
        {
            if self.ops.len() == 0 {
                return false;
            }
            let haut = &self.ops[self.ops.len() - 1];
            assert(haut@ == self.etat().ops.last());
            if est_par_ouvrante(haut) {
                let ghost avant = *self;
                self.ops.pop();
                proof {
                    assert(vue_jetons(self.ops@) =~= vue_jetons(avant.ops@).drop_last());
                }
                return true;
            }
            self.sort_un();
        }
    }

    /// Moves a function on top of the stack to the output.
    fn sort_fonction(&mut self)
        ensures
            final(self).etat() == old(self).etat().sort_fonction(),
            old(self).bien_forme() ==> final(self).bien_forme(),
    {
        if self.ops.len() > 0 {
            let haut = &self.ops[self.ops.len() - 1];
            assert(haut@ == self.etat().ops.last());
            if est_tok_fonction(haut) {
                self.sort_un();
            }
        }
    }

    /// Takes one more token; see [`EtatRpn::pas`].
    fn pas(&mut self, tok: Tok) -> (r: Result<(), String>)
        ensures
            match r {
                Ok(_) => old(self).etat().pas(tok@) == Ok::<EtatRpn, Seq<char>>(final(self).etat()),
                Err(e) => old(self).etat().pas(tok@) == Err::<EtatRpn, Seq<char>>(e@),
            },
            old(self).bien_forme() && tok@.bien_forme() ==> final(self).bien_forme(),
    {
        match tok {
            Tok::Num(_) | Tok::Pi => {
                self.sort_valeur(tok, true);
            },
            Tok::Ident(_) => {
                if est_tok_fonction(&tok) {
                    self.empile_op(tok);
                } else {
                    self.sort_valeur(tok, true);
                }
            },
            Tok::LPar => {
                self.empile_op(tok);
            },
            Tok::RPar => {
                if !self.ferme_parenthese() {
                    return Err(String::from_str("parenthèse fermante inattendue"));
                }
                self.sort_fonction();
                self.prev_was_value = true;
            },
            Tok::Plus | Tok::Star | Tok::Slash | Tok::Caret => {
                self.depile_pour(&tok);
                self.empile_op(tok);
            },
            Tok::Minus => {
                if !self.prev_was_value {
                    let v = self.prev_was_value;
                    self.sort_valeur(Tok::Num(rat_de_i64(0)), v);
                }
                self.depile_pour(&tok);
                self.empile_op(tok);
            },
        }
        Ok(())
    }

    /// Moves the operators that wait to the output; see [`EtatRpn::vidage`].
    fn vidage(self) -> (r: Result<Vec<Tok>, String>)
        ensures
            vue_lex(r) == self.etat().vidage(),
            self.bien_forme() ==> (r matches Ok(v) ==> jetons_bien_formes(vue_jetons(v@))),
    {
        let mut c = self;
        while c.ops.len() > 0
            invariant
                c.etat().vidage() == self.etat().vidage(),
                self.bien_forme() ==> c.bien_forme(),
            decreases c.ops@.len(),
        {
            let haut = &c.ops[c.ops.len() - 1];
            assert(haut@ == c.etat().ops.last());
            if est_par_ouvrante(haut) {
                return Err(String::from_str("parenthèses non fermées"));
            }
            c.sort_un();
        }
        Ok(c.out)
    }
}

/// Puts the tokens in postfix order; see [`vers_rpn`].
pub fn to_rpn(tokens: &[Tok]) -> (r: Result<Vec<Tok>, String>)
    ensures
        vue_lex(r) == vers_rpn(vue_jetons(tokens@)),
        jetons_bien_formes(vue_jetons(tokens@)) ==> (r matches Ok(v) ==> jetons_bien_formes(
            vue_jetons(v@),
        )),
{
    let mut c = Convertisseur { out: Vec::new(), ops: Vec::new(), prev_was_value: false };
    let ghost tous = vue_jetons(tokens@);
    let mut i: usize = 0;
    proof {
        assert(c.etat().sortie =~= Seq::<Jeton>::empty());
        assert(c.etat().ops =~= Seq::<Jeton>::empty());
        assert(tous.skip(0) =~= tous);
    }
    while i < tokens.len()
        invariant
            i <= tokens.len(),
            tous == vue_jetons(tokens@),
            c.etat().suite(tous.skip(i as int)) == vers_rpn(tous),
            jetons_bien_formes(tous) ==> c.bien_forme(),
        decreases tokens.len() - i,
    {
        let tok = tokens[i].clone();
        proof {
            assert(tous.skip(i as int)[0] == tok@);
            assert(tous.skip(i as int).drop_first() =~= tous.skip(i + 1));
            assert(jetons_bien_formes(tous) ==> tous[i as int].bien_forme());
        }
        match c.pas(tok) {
            Err(e) => {
                return Err(e);
            },
            Ok(_) => {},
        }
        i += 1;
    }
    c.vidage()
}

/// The value stack after one more token of a postfix sequence.
///
/// An operator takes its two operands off the stack, a function its one
/// argument; the exponent of `^` must be an integer literal that fits in an
/// `i64`; a name that is no function is a variable; a parenthesis has no place
/// in postfix order.
pub open spec fn pas_arbre(pile: Seq<Terme>, j: Jeton) -> Result<Seq<Terme>, Seq<char>> {
    match j {
        Jeton::Num(f) => Ok(pile.push(Terme::Rat(f))),
        Jeton::Pi => Ok(pile.push(Terme::Pi)),
        Jeton::Plus | Jeton::Minus | Jeton::Star | Jeton::Slash | Jeton::Caret => {
            if pile.len() < 2 {
                Err("expression invalide"@)
            } else {
                let b = pile[pile.len() - 1];
                let a = pile[pile.len() - 2];
                let reste = pile.take(pile.len() - 2);
                match j {
                    Jeton::Plus => Ok(reste.push(Terme::Add(Box::new(a), Box::new(b)))),
                    Jeton::Minus => Ok(reste.push(Terme::Sub(Box::new(a), Box::new(b)))),
                    Jeton::Star => Ok(reste.push(Terme::Mul(Box::new(a), Box::new(b)))),
                    Jeton::Slash => Ok(reste.push(Terme::Div(Box::new(a), Box::new(b)))),
                    _ => match b {
                        Terme::Rat(f) => if f.den != 1 {
                            Err("exposant doit être entier"@)
                        } else if f.num < i64::MIN || f.num > i64::MAX {
                            Err("exposant trop grand"@)
                        } else {
                            Ok(reste.push(Terme::PowInt(Box::new(a), f.num as i64)))
                        },
                        _ => Err("exposant doit être entier"@),
                    },
                }
            }
        },
        Jeton::Ident(nom) => if est_fonction(nom) {
            if pile.len() < 1 {
                Err("fonction sans argument"@)
            } else {
                let x = pile.last();
                let reste = pile.drop_last();
                if nom == "sqrt"@ {
                    Ok(reste.push(Terme::Sqrt(Box::new(x))))
                } else if nom == "sin"@ {
                    Ok(reste.push(Terme::Sin(Box::new(x))))
                } else if nom == "cos"@ {
                    Ok(reste.push(Terme::Cos(Box::new(x))))
                } else {
                    Ok(reste.push(Terme::Tan(Box::new(x))))
                }
            }
        } else {
            Ok(pile.push(Terme::Var(nom)))
        },
        Jeton::LPar | Jeton::RPar => Err("parenthèse inattendue en RPN"@),
    }
}

/// The tree that the rest `rpn` of a postfix sequence builds on the value
/// stack `pile`. At the end exactly one value must be left.
pub open spec fn arbre_depuis(pile: Seq<Terme>, rpn: Seq<Jeton>) -> Result<Terme, Seq<char>>
    decreases rpn.len(),
{
    if rpn.len() == 0 {
        if pile.len() != 1 {
            Err("expression invalide"@)
        } else {
            Ok(pile[0])
        }
    } else {
        match pas_arbre(pile, rpn[0]) {
            Err(e) => Err(e),
            Ok(p) => arbre_depuis(p, rpn.drop_first()),
        }
    }
}

/// The tree of a postfix sequence.
pub open spec fn arbre_de(rpn: Seq<Jeton>) -> Result<Terme, Seq<char>> {
    arbre_depuis(Seq::empty(), rpn)
}

/// The models of a stack of expressions.
pub open spec fn vue_pile(pile: Seq<Expr>) -> Seq<Terme> {
    pile.map_values(|e: Expr| e@)
}

/// Whether every tree of the stack is well formed.
pub open spec fn pile_bien_formee(pile: Seq<Terme>) -> bool {
    forall|i: int| 0 <= i < pile.len() ==> (#[trigger] pile[i]).bien_forme()
}

/// The model of what [`from_rpn`] returns.
pub open spec fn vue_arbre(r: Result<Expr, String>) -> Result<Terme, Seq<char>> {
    match r {
        Ok(e) => Ok(e@),
        Err(m) => Err(m@),
    }
}

/// The integer exponent that the right operand of `^` writes.
fn exposant(b: &Expr) -> (r: Result<i64, String>)
    ensures
        match r {
            Ok(n) => b@ matches Terme::Rat(f) && f.den == 1 && f.num == n,
            Err(e) => match b@ {
                Terme::Rat(f) => if f.den != 1 {
                    e@ == "exposant doit être entier"@
                } else {
                    e@ == "exposant trop grand"@ && (f.num < i64::MIN || f.num > i64::MAX)
                },
                _ => e@ == "exposant doit être entier"@,
            },
        },
{
    match b {
        Expr::Rat(q) => {
            if !rat_est_entier(q) {
                return Err(String::from_str("exposant doit être entier"));
            }
            match big_vers_i64(rat_numer(q)) {
                Some(n) => Ok(n),
                None => Err(String::from_str("exposant trop grand")),
            }
        },
        _ => Err(String::from_str("exposant doit être entier")),
    }
}

/// Takes one more token of a postfix sequence; see [`pas_arbre`].
fn pas_pile(st: &mut Vec<Expr>, tok: Tok) -> (r: Result<(), String>)
    ensures
        match r {
            Ok(_) => pas_arbre(vue_pile(old(st)@), tok@) == Ok::<Seq<Terme>, Seq<char>>(
                vue_pile(final(st)@),
            ),
            Err(e) => pas_arbre(vue_pile(old(st)@), tok@) == Err::<Seq<Terme>, Seq<char>>(e@),
        },
        pile_bien_formee(vue_pile(old(st)@)) && tok@.bien_forme() ==> pile_bien_formee(
            vue_pile(final(st)@),
        ),
{
    let ghost avant = vue_pile(st@);
    match tok {
        Tok::Num(q) => {
            st.push(Expr::Rat(q));
            assert(vue_pile(st@) =~= avant.push(Terme::Rat(frac(q))));
        },
        Tok::Pi => {
            st.push(Expr::Pi);
            assert(vue_pile(st@) =~= avant.push(Terme::Pi));
        },
        Tok::Plus | Tok::Minus | Tok::Star | Tok::Slash | Tok::Caret => {
            if st.len() < 2 {
                return Err(String::from_str("expression invalide"));
            }
            let b = st.pop().unwrap();
            let a = st.pop().unwrap();
            assert(vue_pile(st@) =~= avant.take(avant.len() - 2));
            assert(b@ == avant[avant.len() - 1]);
            assert(a@ == avant[avant.len() - 2]);
            let ghost reste = vue_pile(st@);
            let e = match tok {
                Tok::Plus => Expr::Add(Box::new(a), Box::new(b)),
                Tok::Minus => Expr::Sub(Box::new(a), Box::new(b)),
                Tok::Star => Expr::Mul(Box::new(a), Box::new(b)),
                Tok::Slash => Expr::Div(Box::new(a), Box::new(b)),
                _ => {
                    let n = match exposant(&b) {
                        Ok(n) => n,
                        Err(m) => {
                            return Err(m);
                        },
                    };
                    Expr::PowInt(Box::new(a), n)
                },
            };
            st.push(e);
            assert(vue_pile(st@) =~= reste.push(e@));
        },
        Tok::Ident(nom) => {
            if is_fonction_ident(nom.as_str()) {
                if st.len() < 1 {
                    return Err(String::from_str("fonction sans argument"));
                }
                let x = st.pop().unwrap();
                assert(vue_pile(st@) =~= avant.drop_last());
                assert(x@ == avant.last());
                let ghost reste = vue_pile(st@);
                let e = if textes_egaux(nom.as_str(), "sqrt") {
                    Expr::Sqrt(Box::new(x))
                } else if textes_egaux(nom.as_str(), "sin") {
                    Expr::Sin(Box::new(x))
                } else if textes_egaux(nom.as_str(), "cos") {
                    Expr::Cos(Box::new(x))
                } else {
                    Expr::Tan(Box::new(x))
                };
                st.push(e);
                assert(vue_pile(st@) =~= reste.push(e@));
            } else {
                st.push(Expr::Var(nom));
                assert(vue_pile(st@) =~= avant.push(Terme::Var(nom@)));
            }
        },
        Tok::LPar | Tok::RPar => {
            return Err(String::from_str("parenthèse inattendue en RPN"));
        },
    }
    Ok(())
}

/// Builds the tree of a postfix sequence; see [`pas_arbre`] and
/// [`arbre_depuis`].
pub fn from_rpn(rpn: &[Tok]) -> (r: Result<Expr, String>)
    ensures
        vue_arbre(r) == arbre_de(vue_jetons(rpn@)),
        jetons_bien_formes(vue_jetons(rpn@)) ==> (r matches Ok(e) ==> e@.bien_forme()),
{
    let mut st: Vec<Expr> = Vec::new();
    let ghost tous = vue_jetons(rpn@);
    let mut i: usize = 0;
    proof {
        assert(vue_pile(st@) =~= Seq::<Terme>::empty());
        assert(tous.skip(0) =~= tous);
    }
    while i < rpn.len()
        invariant
            i <= rpn.len(),
            tous == vue_jetons(rpn@),
            arbre_depuis(vue_pile(st@), tous.skip(i as int)) == arbre_de(tous),
            jetons_bien_formes(tous) ==> pile_bien_formee(vue_pile(st@)),
        decreases rpn.len() - i,
    {
        let tok = rpn[i].clone();
        proof {
            assert(tous.skip(i as int)[0] == tok@);
            assert(tous.skip(i as int).drop_first() =~= tous.skip(i + 1));
            assert(jetons_bien_formes(tous) ==> tous[i as int].bien_forme());
        }
        match pas_pile(&mut st, tok) {
            Err(e) => {
                return Err(e);
            },
            Ok(_) => {},
        }
        i += 1;
    }
    if st.len() != 1 {
        return Err(String::from_str("expression invalide"));
    }
    let e = st.pop().unwrap();
    proof {
        assert(jetons_bien_formes(tous) ==> e@.bien_forme());
    }
    Ok(e)
}

} // verus!

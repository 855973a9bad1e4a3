//! The lexer: text to tokens.
use crate::entier::{big_est_zero, big_lu, est_chiffre, nombre_lu, tous_chiffres};
use crate::rationnel::{
    format_rat, frac, rat_copie, rat_entier, rat_nouveau, reduite, texte_rat, Frac,
};
use crate::texte::{
    car_est_blanc, car_est_chiffre, car_est_lettre, car_minuscule, caracteres, chaine_car,
    chaine_de, est_blanc, est_debut_ident, est_suite_ident, minuscules,
};
use num_rational::BigRational;
use vstd::prelude::*;
use vstd::string::StringExecFns;

verus! {

/// A token.
#[derive(Debug)]
pub enum Tok {
    Num(BigRational),
    Pi,
    /// A function name or a variable, in lower case. The parser tells them
    /// apart.
    Ident(String),
    Plus,
    Minus,
    Star,
    Slash,
    Caret,
    LPar,
    RPar,
}

/// The mathematical model of a [`Tok`].
pub enum Jeton {
    Num(Frac),
    Pi,
    Ident(Seq<char>),
    Plus,
    Minus,
    Star,
    Slash,
    Caret,
    LPar,
    RPar,
}

impl View for Tok {
    type V = Jeton;

    open spec fn view(&self) -> Jeton {
        match self {
            Tok::Num(r) => Jeton::Num(frac(*r)),
            Tok::Pi => Jeton::Pi,
            Tok::Ident(s) => Jeton::Ident(s@),
            Tok::Plus => Jeton::Plus,
            Tok::Minus => Jeton::Minus,
            Tok::Star => Jeton::Star,
            Tok::Slash => Jeton::Slash,
            Tok::Caret => Jeton::Caret,
            Tok::LPar => Jeton::LPar,
            Tok::RPar => Jeton::RPar,
        }
    }
}

impl Jeton {
    /// The number of a literal is in lowest terms.
    pub open spec fn bien_forme(self) -> bool {
        self matches Jeton::Num(f) ==> f.bien_forme()
    }
}

impl Clone for Tok {
    /// A copy of the token.
    fn clone(&self) -> (r: Self)
        ensures
            r@ == self@,
    {
        match self {
            Tok::Num(q) => Tok::Num(rat_copie(q)),
            Tok::Pi => Tok::Pi,
            Tok::Ident(s) => Tok::Ident(s.clone()),
            Tok::Plus => Tok::Plus,
            Tok::Minus => Tok::Minus,
            Tok::Star => Tok::Star,
            Tok::Slash => Tok::Slash,
            Tok::Caret => Tok::Caret,
            Tok::LPar => Tok::LPar,
            Tok::RPar => Tok::RPar,
        }
    }
}

/// The models of a sequence of tokens.
pub open spec fn vue_jetons(s: Seq<Tok>) -> Seq<Jeton> {
    s.map_values(|t: Tok| t@)
}

/// Every literal of the sequence is in lowest terms.
pub open spec fn jetons_bien_formes(s: Seq<Jeton>) -> bool {
    forall|i: int| 0 <= i < s.len() ==> (#[trigger] s[i]).bien_forme()
}

/// The model of what the lexer and the converter to postfix return.
pub open spec fn vue_lex(r: Result<Vec<Tok>, String>) -> Result<Seq<Jeton>, Seq<char>> {
    match r {
        Ok(v) => Ok(vue_jetons(v@)),
        Err(e) => Err(e@),
    }
}

/// How many characters from position `j` on continue an identifier.
pub open spec fn longueur_ident(s: Seq<char>, j: int) -> nat
    decreases s.len() - j,
{
    if 0 <= j < s.len() && est_suite_ident(s[j]) {
        1 + longueur_ident(s, j + 1)
    } else {
        0
    }
}

/// How many characters from position `j` on are decimal digits.
pub open spec fn longueur_chiffres(s: Seq<char>, j: int) -> nat
    decreases s.len() - j,
{
    if 0 <= j < s.len() && est_chiffre(s[j]) {
        1 + longueur_chiffres(s, j + 1)
    } else {
        0
    }
}

/// The token of a one-character operator or parenthesis.
pub open spec fn jeton_symbole(c: char) -> Option<Jeton> {
    if c == '(' {
        Some(Jeton::LPar)
    } else if c == ')' {
        Some(Jeton::RPar)
    } else if c == '+' {
        Some(Jeton::Plus)
    } else if c == '-' {
        Some(Jeton::Minus)
    } else if c == '*' {
        Some(Jeton::Star)
    } else if c == '/' {
        Some(Jeton::Slash)
    } else if c == '^' {
        Some(Jeton::Caret)
    } else if c == 'π' {
        Some(Jeton::Pi)
    } else if c == '√' {
        Some(Jeton::Ident("sqrt"@))
    } else {
        None
    }
}

/// The token of an identifier: π for the word `pi` in either case, else the
/// word in lower case.
pub open spec fn jeton_mot(mot: Seq<char>) -> Jeton {
    if minuscules(mot) == "pi"@ {
        Jeton::Pi
    } else {
        Jeton::Ident(minuscules(mot))
    }
}

/// The error for a character that begins no token.
pub open spec fn erreur_caractere(c: char) -> Seq<char> {
    "caractère inattendu: '"@ + seq![c] + "'"@
}

/// How many characters the token that begins at position `i` takes after
/// its first.
///
/// An integer directly followed by `/` and a digit is one literal fraction.
pub open spec fn suite_jeton(s: Seq<char>, i: int) -> nat
    recommends
        0 <= i < s.len(),
{
    let c = s[i];
    if jeton_symbole(c) is Some {
        0
    } else if est_debut_ident(c) {
        longueur_ident(s, i + 1)
    } else if est_chiffre(c) {
        let k = longueur_chiffres(s, i + 1);
        let j = i + 1 + k;
        if j + 1 < s.len() && s[j] == '/' && est_chiffre(s[j + 1]) {
            k + 2 + longueur_chiffres(s, j + 2)
        } else {
            k
        }
    } else {
        0
    }
}

/// The token that begins at position `i`, where a character that is not
/// white space stands. The denominator of a literal fraction must not be
/// zero; a character that begins no token is an error.
pub open spec fn lit_jeton(s: Seq<char>, i: int) -> Result<Jeton, Seq<char>>
    recommends
        0 <= i < s.len(),
{
    let c = s[i];
    let fin = i + 1 + suite_jeton(s, i);
    if jeton_symbole(c) is Some {
        Ok(jeton_symbole(c)->0)
    } else if est_debut_ident(c) {
        Ok(jeton_mot(s.subrange(i, fin)))
    } else if est_chiffre(c) {
        let j = i + 1 + longueur_chiffres(s, i + 1);
        let n = nombre_lu(s.subrange(i, j));
        if j + 1 < s.len() && s[j] == '/' && est_chiffre(s[j + 1]) {
            let d = nombre_lu(s.subrange(j + 1, fin));
            if d == 0 {
                Err("division par zéro dans une fraction"@)
            } else {
                Ok(Jeton::Num(reduite(n as int, d as int)))
            }
        } else {
            Ok(Jeton::Num(Frac::entier(n as int)))
        }
    } else {
        Err(erreur_caractere(c))
    }
}

/// A token in front of what the rest of the text gives.
pub open spec fn devant(t: Jeton, r: Result<Seq<Jeton>, Seq<char>>) -> Result<
    Seq<Jeton>,
    Seq<char>,
> {
    match r {
        Ok(suite) => Ok(seq![t] + suite),
        Err(e) => Err(e),
    }
}

/// The tokens of the text from position `i` on, or the first error met.
/// White space separates tokens and gives none.
pub open spec fn analyse(s: Seq<char>, i: int) -> Result<Seq<Jeton>, Seq<char>>
    decreases
            (if i < s.len() {
                s.len() - i
            } else {
                0
            }),
{
    if i < 0 || i >= s.len() {
        Ok(Seq::empty())
    } else if est_blanc(s[i]) {
        analyse(s, i + 1)
    } else {
        match lit_jeton(s, i) {
            Err(e) => Err(e),
            Ok(t) => devant(t, analyse(s, i + 1 + suite_jeton(s, i))),
        }
    }
}

/// The tokens already read, in front of what the rest of the text gives.
pub open spec fn prefixe(lus: Seq<Jeton>, r: Result<Seq<Jeton>, Seq<char>>) -> Result<
    Seq<Jeton>,
    Seq<char>,
> {
    match r {
        Ok(suite) => Ok(lus + suite),
        Err(e) => Err(e),
    }
}

/// A token read moves from the front of what is left to the end of what
/// has been read.
proof fn lemme_prefixe(lus: Seq<Jeton>, t: Jeton, r: Result<Seq<Jeton>, Seq<char>>)
    ensures
        prefixe(lus, devant(t, r)) == prefixe(lus.push(t), r),
{
    if let Ok(suite) = r {
        assert(lus + (seq![t] + suite) =~= lus.push(t) + suite);
    }
}

/// The position after the characters that continue an identifier.
fn fin_ident(texte: &Vec<char>, j: usize) -> (k: usize)
    requires
        j <= texte.len(),
    ensures
        j <= k <= texte.len(),
        k - j == longueur_ident(texte@, j as int),
{
    let mut k = j;
    while k < texte.len() && (car_est_lettre(texte[k]) || car_est_chiffre(texte[k]) || texte[k]
        == '_')
        invariant
            j <= k <= texte.len(),
            longueur_ident(texte@, j as int) == (k - j) + longueur_ident(texte@, k as int),
        decreases texte.len() - k,
    {
        k += 1;
    }
    k
}

/// The position after the decimal digits that begin at `j`.
fn fin_chiffres(texte: &Vec<char>, j: usize) -> (k: usize)
    requires
        j <= texte.len(),
    ensures
        j <= k <= texte.len(),
        k - j == longueur_chiffres(texte@, j as int),
        tous_chiffres(texte@.subrange(j as int, k as int)),
{
    let mut k = j;
    while k < texte.len() && car_est_chiffre(texte[k])
        invariant
            j <= k <= texte.len(),
            longueur_chiffres(texte@, j as int) == (k - j) + longueur_chiffres(texte@, k as int),
            forall|x: int| j <= x < k ==> est_chiffre(#[trigger] texte@[x]),
        decreases texte.len() - k,
    {
        k += 1;
    }
    k
}

/// The word between two positions, in lower case.
fn mot_minuscule(texte: &Vec<char>, debut: usize, fin: usize) -> (w: Vec<char>)
    requires
        debut <= fin <= texte.len(),
    ensures
        w@ == minuscules(texte@.subrange(debut as int, fin as int)),
{
    let mut w: Vec<char> = Vec::new();
    let mut x = debut;
    while x < fin
        invariant
            debut <= x <= fin <= texte.len(),
            w@ == minuscules(texte@.subrange(debut as int, x as int)),
        decreases fin - x,
    {
        w.push(car_minuscule(texte[x]));
        assert(w@ =~= minuscules(texte@.subrange(debut as int, x + 1)));
        x += 1;
    }
    w
}

/// The token that begins at position `i` and the position after it.
fn lire_jeton(texte: &Vec<char>, i: usize) -> (r: Result<(Tok, usize), String>)
    requires
        i < texte.len(),
    ensures
        match r {
            Ok((t, j)) => lit_jeton(texte@, i as int) == Ok::<Jeton, Seq<char>>(t@) && j == i + 1
                + suite_jeton(texte@, i as int) && j <= texte.len() && t@.bien_forme(),
            Err(e) => lit_jeton(texte@, i as int) == Err::<Jeton, Seq<char>>(e@),
        },
{
    let c = texte[i];
    if c == '(' {
        return Ok((Tok::LPar, i + 1));
    }
    if c == ')' {
        return Ok((Tok::RPar, i + 1));
    }
    if c == '+' {
        return Ok((Tok::Plus, i + 1));
    }
    if c == '-' {
        return Ok((Tok::Minus, i + 1));
    }
    if c == '*' {
        return Ok((Tok::Star, i + 1));
    }
    if c == '/' {
        return Ok((Tok::Slash, i + 1));
    }
    if c == '^' {
        return Ok((Tok::Caret, i + 1));
    }
    if c == 'π' {
        return Ok((Tok::Pi, i + 1));
    }
    if c == '√' {
        return Ok((Tok::Ident(String::from_str("sqrt")), i + 1));
    }
    if car_est_lettre(c) || c == '_' {
        let fin = fin_ident(texte, i + 1);
        let w = mot_minuscule(texte, i, fin);
        proof {
            reveal_strlit("pi");
        }
        if w.len() == 2 && w[0] == 'p' && w[1] == 'i' {
            assert(w@ =~= "pi"@);
            return Ok((Tok::Pi, fin));
        }
        let mot = chaine_de(&w, 0, w.len());
        assert(w@.subrange(0, w@.len() as int) =~= w@);
        return Ok((Tok::Ident(mot), fin));
    }
    if car_est_chiffre(c) {
        let j = fin_chiffres(texte, i + 1);
        assert(tous_chiffres(texte@.subrange(i as int, j as int))) by {
            assert forall|x: int| 0 <= x < j - i implies est_chiffre(
                #[trigger] texte@.subrange(i as int, j as int)[x],
            ) by {
                if x > 0 {
                    assert(texte@.subrange(i + 1, j as int)[x - 1] == texte@[i + x]);
                }
            }
        }
        let n = match big_lu(chaine_de(texte, i, j).as_str()) {
            Some(n) => n,
            None => {
                return Err(String::from_str("nombre invalide"));
            },
        };
        if j < texte.len() && texte[j] == '/' && j + 1 < texte.len() && car_est_chiffre(
            texte[j + 1],
        ) {
            let k = fin_chiffres(texte, j + 2);
            assert(tous_chiffres(texte@.subrange(j + 1, k as int))) by {
                assert forall|x: int| 0 <= x < k - (j + 1) implies est_chiffre(
                    #[trigger] texte@.subrange(j + 1, k as int)[x],
                ) by {
                    if x > 0 {
                        assert(texte@.subrange(j + 2, k as int)[x - 1] == texte@[j + 1 + x]);
                    }
                }
            }
            let d = match big_lu(chaine_de(texte, j + 1, k).as_str()) {
                Some(d) => d,
                None => {
                    return Err(String::from_str("dénominateur invalide"));
                },
            };
            if big_est_zero(&d) {
                return Err(String::from_str("division par zéro dans une fraction"));
            }
            return Ok((Tok::Num(rat_nouveau(n, d)), k));
        }
        return Ok((Tok::Num(rat_entier(n)), j));
    }
    let mut e = String::from_str("caractère inattendu: '");
    let cs = chaine_car(c);
    e.append(cs.as_str());
    e.append("'");
    Err(e)
}

/// Cuts a text into tokens.
///
/// White space is skipped. The parentheses and `+ - * / ^` are tokens of
/// their own; `π` and the word `pi`, in either case, are the π token; `√` is
/// the identifier `sqrt`; an ASCII identifier is kept in lower case; an
/// integer is read greedily, and an integer directly followed by `/` and
/// another integer is one literal fraction. The first character that begins no
/// token, or a literal fraction with denominator zero, is an error.
pub fn tokenize(s: &str) -> (r: Result<Vec<Tok>, String>)
    ensures
        vue_lex(r) == analyse(s@, 0),
        r matches Ok(v) ==> jetons_bien_formes(vue_jetons(v@)),
{
    let texte = caracteres(s);
    let mut out: Vec<Tok> = Vec::new();
    let mut i: usize = 0;
    assert(Seq::<Jeton>::empty() + Seq::<Jeton>::empty() =~= Seq::<Jeton>::empty());
    assert(vue_jetons(out@) =~= Seq::<Jeton>::empty());
    while i < texte.len()
        invariant
            i <= texte.len(),
            texte@ == s@,
            analyse(s@, 0) == prefixe(vue_jetons(out@), analyse(s@, i as int)),
            jetons_bien_formes(vue_jetons(out@)),
        decreases texte.len() - i,
    {
        if car_est_blanc(texte[i]) {
            i += 1;
        } else {
            match lire_jeton(&texte, i) {
                Err(e) => {
                    return Err(e);
                },
                Ok((t, j)) => {
                    proof {
                        lemme_prefixe(vue_jetons(out@), t@, analyse(s@, j as int));
                        assert(vue_jetons(out@.push(t)) =~= vue_jetons(out@).push(t@));
                    }
                    out.push(t);
                    i = j;
                },
            }
        }
    }
    proof {
        assert(vue_jetons(out@) + Seq::<Jeton>::empty() =~= vue_jetons(out@));
    }
    Ok(out)
}

/// The writing of a token.
pub open spec fn texte_jeton(j: Jeton) -> Seq<char> {
    match j {
        Jeton::Num(f) => texte_rat(f),
        Jeton::Pi => "π"@,
        Jeton::Ident(nom) => nom,
        Jeton::Plus => "+"@,
        Jeton::Minus => "-"@,
        Jeton::Star => "*"@,
        Jeton::Slash => "/"@,
        Jeton::Caret => "^"@,
        Jeton::LPar => "("@,
        Jeton::RPar => ")"@,
    }
}

/// The writings of the tokens, one space between two.
pub open spec fn texte_jetons(s: Seq<Jeton>) -> Seq<char>
    decreases s.len(),
{
    if s.len() == 0 {
        Seq::empty()
    } else if s.len() == 1 {
        texte_jeton(s[0])
    } else {
        texte_jetons(s.drop_last()) + " "@ + texte_jeton(s.last())
    }
}

/// Writes a token.
fn format_tok(t: &Tok) -> (r: String)
    ensures
        r@ == texte_jeton(t@),
{
    match t {
        Tok::Num(q) => format_rat(q),
        Tok::Pi => String::from_str("π"),
        Tok::Ident(nom) => nom.clone(),
        Tok::Plus => String::from_str("+"),
        Tok::Minus => String::from_str("-"),
        Tok::Star => String::from_str("*"),
        Tok::Slash => String::from_str("/"),
        Tok::Caret => String::from_str("^"),
        Tok::LPar => String::from_str("("),
        Tok::RPar => String::from_str(")"),
    }
}

/// Writes a sequence of tokens, one space between two.
pub fn format_tokens(tokens: &[Tok]) -> (r: String)
    ensures
        r@ == texte_jetons(vue_jetons(tokens@)),
{
    let mut out = String::new();
    let mut i: usize = 0;
    let ghost tous = vue_jetons(tokens@);
    while i < tokens.len()
        invariant
            i <= tokens.len(),
            tous == vue_jetons(tokens@),
            out@ == texte_jetons(tous.take(i as int)),
        decreases tokens.len() - i,
    {
        let t = format_tok(&tokens[i]);
        proof {
            assert(tous.take(i + 1).drop_last() =~= tous.take(i as int));
            assert(tous.take(i + 1).last() == tokens@[i as int]@);
            if i == 0 {
                assert(out@ + t@ =~= t@);
            }
        }
        if i > 0 {
            out.append(" ");
        }
        out.append(t.as_str());
        i += 1;
    }
    assert(tous.take(tokens@.len() as int) =~= tous);
    out
}

} // verus!

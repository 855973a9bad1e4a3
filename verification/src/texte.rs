//! Characters and text.
//!
//! Text is read as a sequence of characters. The classes of characters that
//! the lexer knows are written out: white space as Unicode lists it, ASCII
//! letters and digits. The passages between texts and vectors of characters
//! are proved.
use crate::entier::est_chiffre;
use vstd::prelude::*;
use vstd::string::StrSliceExecFns;

verus! {

/// Whether `c` is an ASCII letter.
pub open spec fn est_lettre(c: char) -> bool {
    ('a' <= c && c <= 'z') || ('A' <= c && c <= 'Z')
}

/// Whether `c` may begin an identifier.
pub open spec fn est_debut_ident(c: char) -> bool {
    est_lettre(c) || c == '_'
}

/// Whether `c` may continue an identifier.
pub open spec fn est_suite_ident(c: char) -> bool {
    est_lettre(c) || est_chiffre(c) || c == '_'
}

/// The ASCII lower case of `c`; `c` itself outside `'A'..='Z'`.
pub open spec fn minuscule(c: char) -> char {
    if 'A' <= c && c <= 'Z' {
        ((c as u8) + 32) as char
    } else {
        c
    }
}

/// The text in ASCII lower case.
pub open spec fn minuscules(s: Seq<char>) -> Seq<char> {
    s.map_values(|c: char| minuscule(c))
}

/// Whether `c` is white space: one of the twenty-five characters with the
/// Unicode property White_Space.
pub open spec fn est_blanc(c: char) -> bool {
    ||| '\u{9}' <= c && c <= '\u{d}'
    ||| c == ' '
    ||| c == '\u{85}'
    ||| c == '\u{a0}'
    ||| c == '\u{1680}'
    ||| '\u{2000}' <= c && c <= '\u{200a}'
    ||| c == '\u{2028}'
    ||| c == '\u{2029}'
    ||| c == '\u{202f}'
    ||| c == '\u{205f}'
    ||| c == '\u{3000}'
}

/// `char::is_whitespace`: whether the character has the Unicode property
/// White_Space, that is, whether it is one of those that [`est_blanc`]
/// lists.
#[verifier::external_body]
pub(crate) fn car_est_blanc(c: char) -> (b: bool)
    ensures
        b == est_blanc(c),
{
    c.is_whitespace()
}

/// The characters of the text, in order.
pub fn caracteres(s: &str) -> (v: Vec<char>)
    ensures
        v@ == s@,
{
    let mut v: Vec<char> = Vec::new();
    for c in it: s.chars()
        invariant
            it.seq() == s@,
            v@ == it.seq().take(it.index() as int),
    {
        v.push(c);
        assert(v@ =~= it.seq().take(it.index() + 1));
    }
    assert(v@ =~= s@);
    v
}

/// `String::push`: one more character at the end of the text.
#[verifier::external_body]
pub(crate) fn pousse_car(s: &mut String, c: char)
    ensures
        final(s)@ == old(s)@.push(c),
{
    s.push(c);
}

/// The text that the characters from `debut` up to `fin` make.
pub fn chaine_de(v: &Vec<char>, debut: usize, fin: usize) -> (r: String)
    requires
        debut <= fin <= v@.len(),
    ensures
        r@ == v@.subrange(debut as int, fin as int),
{
    let mut r = String::new();
    let mut i = debut;
    assert(v@.subrange(debut as int, debut as int) =~= Seq::<char>::empty());
    while i < fin
        invariant
            debut <= i <= fin <= v@.len(),
            r@ == v@.subrange(debut as int, i as int),
        decreases fin - i,
    {
        pousse_car(&mut r, v[i]);
        assert(r@ =~= v@.subrange(debut as int, i + 1));
        i += 1;
    }
    r
}

/// Whether `c` is a decimal digit.
pub fn car_est_chiffre(c: char) -> (b: bool)
    ensures
        b == est_chiffre(c),
{
    '0' <= c && c <= '9'
}

/// Whether `c` is an ASCII letter.
pub fn car_est_lettre(c: char) -> (b: bool)
    ensures
        b == est_lettre(c),
{
    ('a' <= c && c <= 'z') || ('A' <= c && c <= 'Z')
}

/// The ASCII lower case of `c`.
pub fn car_minuscule(c: char) -> (r: char)
    ensures
        r == minuscule(c),
{
    if 'A' <= c && c <= 'Z' {
        ((c as u8) + 32) as char
    } else {
        c
    }
}

/// The text made of one character.
pub fn chaine_car(c: char) -> (r: String)
    ensures
        r@ == seq![c],
{
    let mut v: Vec<char> = Vec::new();
    v.push(c);
    let r = chaine_de(&v, 0, 1);
    assert(v@.subrange(0, 1) =~= seq![c]);
    r
}

/// Whether two texts hold the same characters.
pub fn textes_egaux(a: &str, b: &str) -> (r: bool)
    ensures
        r == (a@ == b@),
{
    let n = a.unicode_len();
    if n != b.unicode_len() {
        return false;
    }
    let mut i: usize = 0;
    while i < n
        invariant
            i <= n,
            n == a@.len(),
            n == b@.len(),
            forall|j: int| 0 <= j < i ==> a@[j] == b@[j],
        decreases n - i,
    {
        if a.get_char(i) != b.get_char(i) {
            return false;
        }
        i += 1;
    }
    assert(a@ =~= b@);
    true
}

} // verus!

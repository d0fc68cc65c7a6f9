//! Readers for the pieces of the line notation: bond symbols, atoms written
//! without brackets, and the fields of a bracket atom.

use vstd::prelude::*;
use crate::bonds::BondType;
use crate::config::{config_in, read_configuration};
use crate::elements::{lemma_symbol_letters, read_symbol, symbol_in, MAX_ATOMIC_NUMBER};
use crate::error::Error;
use crate::molecule::{Atom, Axialness};
use crate::scanner::{advanced, consumed, consumed_field, missing_at, missing_character, missing_in, Scanner};
use crate::text::{char_at, digit_value, field_char, is_digit, organic_initial, peek_digit, peek_digit_ahead};

verus! {

broadcast use Scanner::lemma_wf;

/// The bond kind of a bond-order symbol.
pub open spec fn bond_type_of(c: char) -> Option<BondType> {
    match c {
        '-' => Some(BondType::Single),
        '=' => Some(BondType::Double),
        '#' => Some(BondType::Triple),
        '$' => Some(BondType::Quadruple),
        ':' => Some(BondType::Aromatic),
        _ => None,
    }
}

/// Reads a bond-order symbol (`-`, `=`, `#`, `$` or `:`), if one is next.
pub fn read_bond(scanner: &mut Scanner) -> (r: Option<BondType>)
    requires
        old(scanner).wf(),
    ensures
        advanced(*old(scanner), *final(scanner)),
        match old(scanner).spec_peek() {
            Some(c) => r == bond_type_of(c),
            None => r is None,
        },
        final(scanner).pos() == old(scanner).pos() + if r is Some {
            1int
        } else {
            0
        },
{
    let r = match scanner.peek() {
        Some('-') => Some(BondType::Single),
        Some('=') => Some(BondType::Double),
        Some('#') => Some(BondType::Triple),
        Some('$') => Some(BondType::Quadruple),
        Some(':') => Some(BondType::Aromatic),
        _ => None,
    };
    if r.is_some() {
        scanner.pop();
    }
    r
}

/// The direction of a directional bond symbol.
pub open spec fn axial_of(c: Option<char>) -> Axialness {
    match c {
        Some('/') => Axialness::UP,
        Some('\\') => Axialness::DOWN,
        _ => Axialness::UNKNOWN,
    }
}

/// Reads `/` (up) or `\` (down), if one is next.
pub fn read_axial(scanner: &mut Scanner) -> (r: Axialness)
    requires
        old(scanner).wf(),
    ensures
        advanced(*old(scanner), *final(scanner)),
        r == axial_of(old(scanner).spec_peek()),
        final(scanner).pos() == old(scanner).pos() + if r == Axialness::UNKNOWN {
            0int
        } else {
            1
        },
{
    match scanner.peek() {
        Some('/') => {
            scanner.pop();
            Axialness::UP
        },
        Some('\\') => {
            scanner.pop();
            Axialness::DOWN
        },
        _ => Axialness::UNKNOWN,
    }
}

/// The element of an aromatic lower-case symbol.
pub open spec fn aromatic_of(c: char) -> u8 {
    match c {
        'b' => 5,
        'c' => 6,
        'n' => 7,
        'o' => 8,
        'p' => 15,
        's' => 16,
        _ => 0,
    }
}

/// The element of a one-letter aliphatic symbol of the organic subset.
pub open spec fn aliphatic_of(c: char) -> u8 {
    match c {
        'B' => 5,
        'C' => 6,
        'N' => 7,
        'O' => 8,
        'P' => 15,
        'S' => 16,
        'F' => 9,
        'I' => 53,
        _ => 0,
    }
}

/// The organic-subset atom at the cursor: element, aromaticity, length.
pub open spec fn organic_at(s: Scanner) -> Option<(u8, bool, int)> {
    organic_in(s.text(), s.pos())
}

/// The organic-subset atom written at `p`: element, aromaticity, length.
pub open spec fn organic_in(t: Seq<char>, p: int) -> Option<(u8, bool, int)> {
    match char_at(t, p) {
        Some(a) => if aromatic_of(a) != 0 {
            Some((aromatic_of(a), true, 1))
        } else if a == 'B' && char_at(t, p + 1) == Some('r') {
            Some((35u8, false, 2))
        } else if a == 'C' && char_at(t, p + 1) == Some('l') {
            Some((17u8, false, 2))
        } else if aliphatic_of(a) != 0 {
            Some((aliphatic_of(a), false, 1))
        } else {
            None
        },
        None => None,
    }
}

pub fn aromatic_element(c: char) -> (r: u8)
    ensures
        r == aromatic_of(c),
{
    match c {
        'b' => 5,
        'c' => 6,
        'n' => 7,
        'o' => 8,
        'p' => 15,
        's' => 16,
        _ => 0,
    }
}

fn aliphatic_element(c: char) -> (r: u8)
    ensures
        r == aliphatic_of(c),
{
    match c {
        'B' => 5,
        'C' => 6,
        'N' => 7,
        'O' => 8,
        'P' => 15,
        'S' => 16,
        'F' => 9,
        'I' => 53,
        _ => 0,
    }
}

/// Reads an aromatic organic-subset symbol (`b`, `c`, `n`, `o`, `p`, `s`)
/// and returns its element.
pub fn read_organic(scanner: &mut Scanner) -> (r: Option<u8>)
    requires
        old(scanner).wf(),
    ensures
        advanced(*old(scanner), *final(scanner)),
        match old(scanner).spec_peek() {
            Some(c) => if aromatic_of(c) != 0 {
                r == Some(aromatic_of(c)) && final(scanner).pos() == old(scanner).pos() + 1
            } else {
                r is None && final(scanner).pos() == old(scanner).pos()
            },
            None => r is None && final(scanner).pos() == old(scanner).pos(),
        },
{
    let c = match scanner.peek() {
        Some(c) => c,
        None => return None,
    };
    let z = aromatic_element(c);
    if z != 0 {
        scanner.pop();
        Some(z)
    } else {
        None
    }
}

/// Reads an atom of the organic subset (`B`, `Br`, `C`, `Cl`, `N`, `O`, `P`,
/// `S`, `F`, `I`, or aromatic `b`, `c`, `n`, `o`, `p`, `s`) and returns its
/// element and aromaticity.
pub fn read_organic_subset(scanner: &mut Scanner) -> (r: Option<(u8, bool)>)
    requires
        old(scanner).wf(),
    ensures
        advanced(*old(scanner), *final(scanner)),
        match organic_at(*old(scanner)) {
            Some((z, arom, n)) => r == Some((z, arom)) && final(scanner).pos() == old(scanner).pos() + n,
            None => r is None && final(scanner).pos() == old(scanner).pos(),
        },
{
    let a = match scanner.peek() {
        Some(a) => a,
        None => return None,
    };
    let z = aromatic_element(a);
    if z != 0 {
        scanner.pop();
        return Some((z, true));
    }
    let b = scanner.peek_ahead(1);
    if a == 'B' && b == Some('r') {
        scanner.pop();
        scanner.pop();
        return Some((35, false));
    }
    if a == 'C' && b == Some('l') {
        scanner.pop();
        scanner.pop();
        return Some((17, false));
    }
    let z = aliphatic_element(a);
    if z != 0 {
        scanner.pop();
        Some((z, false))
    } else {
        None
    }
}

/// An atom with the given element and aromaticity and nothing else set.
pub open spec fn plain_atom(a: Atom, element: u8, aromatic: bool) -> bool {
    &&& a.outgoing_bond@.len() == 0
    &&& a.element == element
    &&& a.isotope == 0
    &&& a.hydrogens == 0
    &&& a.aromatic == aromatic
    &&& a.f_charge == 0
    &&& a.configuration is None
    &&& !a.ring
    &&& a.symmetry_class == 0
}

/// Reads the wildcard atom `*`, if it is next.
pub fn read_star(scanner: &mut Scanner) -> (r: Option<Atom>)
    requires
        old(scanner).wf(),
    ensures
        advanced(*old(scanner), *final(scanner)),
        old(scanner).spec_peek() == Some('*') ==> r is Some && plain_atom(r->0, 0, false)
            && final(scanner).pos() == old(scanner).pos() + 1,
        old(scanner).spec_peek() != Some('*') ==> r is None && final(scanner).pos() == old(scanner).pos(),
{
    match scanner.peek() {
        Some('*') => {
            scanner.pop();
            Some(
                Atom {
                    outgoing_bond: Vec::new(),
                    element: 0,
                    isotope: 0,
                    hydrogens: 0,
                    aromatic: false,
                    f_charge: 0,
                    configuration: None,
                    ring: false,
                    symmetry_class: 0,
                },
            )
        },
        _ => None,
    }
}

/// The number of digits in a row at `q`, at most `max`.
pub open spec fn digit_span(t: Seq<char>, q: int, max: int) -> nat
    decreases max,
{
    if max <= 0 {
        0
    } else if char_at(t, q) is Some && is_digit(char_at(t, q)->0) {
        1 + digit_span(t, q + 1, max - 1)
    } else {
        0
    }
}

pub proof fn lemma_digit_span(t: Seq<char>, q: int, c: int, max: int)
    requires
        0 <= q,
        0 <= c <= max,
        q + c <= t.len(),
        forall|i: int| q <= i < q + c ==> is_digit(#[trigger] t[i]),
        c < max ==> !(char_at(t, q + c) is Some && is_digit(char_at(t, q + c)->0)),
    ensures
        digit_span(t, q, max) == c,
    decreases c,
{
    if c > 0 {
        lemma_digit_span(t, q + 1, c - 1, max - 1);
    }
}

/// The element written at `q` inside brackets: `*`, an aromatic
/// lower-case symbol, or an element symbol; with its aromaticity.
pub open spec fn bracket_element(t: Seq<char>, q: int) -> Option<(u8, bool, int)> {
    match char_at(t, q) {
        Some(c) => if c == '*' {
            Some((0u8, false, 1))
        } else if aromatic_of(c) != 0 {
            Some((aromatic_of(c), true, 1))
        } else {
            match symbol_in(t, q) {
                Some((z, n)) => Some((z, false, n)),
                None => None,
            }
        },
        None => None,
    }
}

/// What reading a bracket atom at `p` gives: where it ends, or the error at
/// the first piece that does not read.
pub open spec fn bracket_result(t: Seq<char>, p: int) -> Result<int, Error> {
    let q = p + 1 + digit_span(t, p + 1, 3);
    match char_at(t, q) {
        None => Err(Error::EndOfLine),
        Some(c) => {
            let elem: Option<int> = if c == '*' || aromatic_of(c) != 0 {
                Some(1)
            } else {
                match symbol_in(t, q) {
                    Some((_, n)) => Some(n),
                    None => None,
                }
            };
            match elem {
                None => Err(missing_in(t, q)),
                Some(n) => match config_in(t, q + n) {
                    Err(e) => Err(e),
                    Ok((_, n2)) => {
                        let q3 = q + n + n2;
                        let q4 = q3 + hcount_in(t, q3).1;
                        let q5 = q4 + charge_in(t, q4).1;
                        if char_at(t, q5) == Some(']') {
                            Ok(q5 + 1)
                        } else {
                            Err(missing_in(t, q5))
                        }
                    },
                },
            }
        },
    }
}

/// The hydrogen count written in the bracket atom that starts at `p`.
pub open spec fn bracket_hcount(t: Seq<char>, p: int) -> int {
    let q = p + 1 + digit_span(t, p + 1, 3);
    match bracket_element(t, q) {
        Some((_, _, n)) => match config_in(t, q + n) {
            Ok((_, n2)) => hcount_in(t, q + n + n2).0,
            Err(_) => 0,
        },
        None => 0,
    }
}

/// What reading one atom at `p` gives: where it ends, or the error.
pub open spec fn atom_result(t: Seq<char>, p: int) -> Result<int, Error> {
    if char_at(t, p) == Some('*') {
        Ok(p + 1)
    } else if char_at(t, p) == Some('[') {
        bracket_result(t, p)
    } else {
        match organic_in(t, p) {
            Some((_, _, n)) => Ok(p + n),
            None => Err(missing_in(t, p)),
        }
    }
}

/// Atom `a` has the mass number, element, aromaticity, configuration and
/// charge written in the bracket atom that starts at `p`.
pub open spec fn bracket_atom_ok(a: Atom, t: Seq<char>, p: int) -> bool {
    let q = p + 1 + digit_span(t, p + 1, 3);
    &&& a.isotope as int == decimal(t.subrange(p + 1, q))
    &&& bracket_element(t, q) matches Some((z, arom, n)) && config_in(t, q + n) matches Ok((c, n2))
        && {
        let q3 = q + n + n2;
        let q4 = q3 + hcount_in(t, q3).1;
        &&& a.element == z
        &&& a.aromatic == arom
        &&& a.configuration == c
        &&& a.f_charge as int == charge_in(t, q4).0
    }
}

/// The decimal value of a sequence of digits.
pub open spec fn decimal(t: Seq<char>) -> int
    decreases t.len(),
{
    if t.len() == 0 {
        0
    } else {
        decimal(t.drop_last()) * 10 + digit_value(t.last())
    }
}

/// Reads up to three digits of a mass number; 0 when there are none.
pub fn read_isotope(scanner: &mut Scanner) -> (r: u16)
    requires
        old(scanner).wf(),
    ensures
        advanced(*old(scanner), *final(scanner)),
        consumed_field(*old(scanner), *final(scanner)),
        final(scanner).pos() - old(scanner).pos() <= 3,
        forall|i: int|
            old(scanner).pos() <= i < final(scanner).pos() ==> is_digit(#[trigger] old(scanner).text()[i]),
        final(scanner).pos() - old(scanner).pos() < 3 ==> !(final(scanner).spec_peek() is Some
            && is_digit(final(scanner).spec_peek()->0)),
        r as int == decimal(old(scanner).text().subrange(old(scanner).pos(), final(scanner).pos())),
{
    let ghost s0 = *scanner;
    let mut value: u16 = 0;
    let mut k: usize = 0;
    assert(s0.text().subrange(s0.pos(), s0.pos()) =~= Seq::<char>::empty());
    loop
        invariant
            s0.wf(),
            advanced(s0, *scanner),
            scanner.pos() == s0.pos() + k,
            k <= 3,
            forall|i: int| s0.pos() <= i < scanner.pos() ==> is_digit(#[trigger] s0.text()[i]),
            value as int == decimal(s0.text().subrange(s0.pos(), scanner.pos())),
            value as int <= (if k == 0 { 0int } else if k == 1 { 9 } else if k == 2 { 99 } else { 999 }),
        ensures
            scanner.pos() - s0.pos() <= 3,
            forall|i: int| s0.pos() <= i < scanner.pos() ==> is_digit(#[trigger] s0.text()[i]),
            advanced(s0, *scanner),
            scanner.pos() - s0.pos() < 3 ==> !(scanner.spec_peek() is Some && is_digit(scanner.spec_peek()->0)),
            value as int == decimal(s0.text().subrange(s0.pos(), scanner.pos())),
        decreases 3 - k,
    {
        if k >= 3 {
            break;
        }
        match peek_digit(scanner) {
            Some(d) => {
                let ghost before = *scanner;
                scanner.pop();
                proof {
                    let t = s0.text().subrange(s0.pos(), scanner.pos());
                    assert(t.drop_last() =~= s0.text().subrange(s0.pos(), before.pos()));
                    assert(t.last() == s0.text()[before.pos()]);
                }
                value = value * 10 + d as u16;
                k += 1;
            },
            None => break,
        }
    }
    value
}

/// The class number at `k` places after the cursor: one or two digits, no
/// leading zero, read greedily while the value stays at most `max`; with the
/// number of characters it takes.
pub open spec fn class_at(s: Scanner, k: int, max: int) -> Option<(int, int)> {
    class_in(s.text(), s.pos() + k, max)
}

/// The class number written at `q` (see [`class_at`]).
pub open spec fn class_in(t: Seq<char>, q: int, max: int) -> Option<(int, int)> {
    match char_at(t, q) {
        Some(a) => if is_digit(a) && digit_value(a) != 0 {
            let d1 = digit_value(a);
            if char_at(t, q + 1) is Some && is_digit(char_at(t, q + 1)->0) && d1 * 10 + digit_value(
                char_at(t, q + 1)->0,
            ) <= max {
                Some((d1 * 10 + digit_value(char_at(t, q + 1)->0), 2))
            } else if d1 <= max {
                Some((d1, 1))
            } else {
                None
            }
        } else {
            None
        },
        None => None,
    }
}

/// Reads a class number (see [`class_at`]) of at most `max`.
pub fn read_class(scanner: &mut Scanner, max: u8) -> (r: Option<u8>)
    requires
        old(scanner).wf(),
        max <= 99,
    ensures
        advanced(*old(scanner), *final(scanner)),
        consumed_field(*old(scanner), *final(scanner)),
        match class_at(*old(scanner), 0, max as int) {
            Some((n, len)) => r == Some(n as u8) && final(scanner).pos() == old(scanner).pos() + len,
            None => r is None && final(scanner).pos() == old(scanner).pos(),
        },
{
    let d1 = match peek_digit(scanner) {
        Some(d) => d,
        None => return None,
    };
    if d1 == 0 {
        return None;
    }
    if let Some(d2) = peek_digit_ahead(scanner, 1) {
        {
            if d1 * 10 + d2 <= max {
                scanner.pop();
                scanner.pop();
                return Some(d1 * 10 + d2);
            }
        }
    }
    if d1 <= max {
        scanner.pop();
        Some(d1)
    } else {
        None
    }
}

/// Reads a charge magnitude from 1 to 15.
pub fn fifteen(scanner: &mut Scanner) -> (r: Option<u8>)
    requires
        old(scanner).wf(),
    ensures
        advanced(*old(scanner), *final(scanner)),
        consumed_field(*old(scanner), *final(scanner)),
        match class_at(*old(scanner), 0, 15) {
            Some((n, len)) => r == Some(n as u8) && final(scanner).pos() == old(scanner).pos() + len,
            None => r is None && final(scanner).pos() == old(scanner).pos(),
        },
{
    read_class(scanner, 15)
}

/// The hydrogen count written at the cursor and its length: `H` with a
/// digit, a lone `H` (one), or nothing (zero).
pub open spec fn hcount_at(s: Scanner) -> (int, int) {
    hcount_in(s.text(), s.pos())
}

/// The hydrogen count written at `q` and its length (see [`hcount_at`]).
pub open spec fn hcount_in(t: Seq<char>, q: int) -> (int, int) {
    if char_at(t, q) == Some('H') {
        if char_at(t, q + 1) is Some && is_digit(char_at(t, q + 1)->0) {
            (digit_value(char_at(t, q + 1)->0), 2)
        } else {
            (1, 1)
        }
    } else {
        (0, 0)
    }
}

/// Reads the hydrogen count of a bracket atom.
pub fn read_hcount(scanner: &mut Scanner) -> (r: u8)
    requires
        old(scanner).wf(),
    ensures
        advanced(*old(scanner), *final(scanner)),
        consumed_field(*old(scanner), *final(scanner)),
        r as int == hcount_at(*old(scanner)).0,
        final(scanner).pos() == old(scanner).pos() + hcount_at(*old(scanner)).1,
{
    match scanner.peek() {
        Some('H') => {},
        _ => return 0,
    }
    match peek_digit_ahead(scanner, 1) {
        Some(d) => {
            scanner.pop();
            scanner.pop();
            d
        },
        None => {
            scanner.pop();
            1
        },
    }
}

/// The formal charge written at the cursor and its length: a sign with a
/// magnitude from 1 to 15, a doubled sign (two), a lone sign (one), or
/// nothing (zero).
pub open spec fn charge_at(s: Scanner) -> (int, int) {
    charge_in(s.text(), s.pos())
}

/// The formal charge written at `p` and its length (see [`charge_at`]).
pub open spec fn charge_in(t: Seq<char>, p: int) -> (int, int) {
    match char_at(t, p) {
        Some('+') => match class_in(t, p + 1, 15) {
            Some((n, len)) => (n, 1 + len),
            None => if char_at(t, p + 1) == Some('+') {
                (2, 2)
            } else {
                (1, 1)
            },
        },
        Some('-') => match class_in(t, p + 1, 15) {
            Some((n, len)) => (-n, 1 + len),
            None => if char_at(t, p + 1) == Some('-') {
                (-2, 2)
            } else {
                (-1, 1)
            },
        },
        _ => (0, 0),
    }
}

/// Reads the formal charge of a bracket atom.
pub fn read_charge(scanner: &mut Scanner) -> (r: i8)
    requires
        old(scanner).wf(),
    ensures
        advanced(*old(scanner), *final(scanner)),
        consumed_field(*old(scanner), *final(scanner)),
        r as int == charge_at(*old(scanner)).0,
        final(scanner).pos() == old(scanner).pos() + charge_at(*old(scanner)).1,
{
    let sign = match scanner.peek() {
        Some('+') => '+',
        Some('-') => '-',
        _ => return 0,
    };
    let ghost s0 = *scanner;
    scanner.pop();
    assert(class_at(*scanner, 0, 15) == class_at(s0, 1, 15));
    let magnitude: i8 = match fifteen(scanner) {
        Some(n) => n as i8,
        None => {
            if scanner.peek() == Some(sign) {
                scanner.pop();
                2
            } else {
                1
            }
        },
    };
    if sign == '+' {
        magnitude
    } else {
        -magnitude
    }
}

/// A bracket atom reads as `[`, then field characters, then `]`.
pub open spec fn bracket_shape(s: Scanner, end: int) -> bool {
    &&& s.pos() + 3 <= end
    &&& s.text()[s.pos()] == '['
    &&& s.text()[end - 1] == ']'
    &&& forall|i: int| s.pos() < i < end - 1 ==> field_char(#[trigger] s.text()[i])
}

/// Reads a bracket atom: `[`, an optional mass number, an element (a symbol,
/// an aromatic lower-case symbol, or `*`), an optional configuration, an
/// optional hydrogen count, an optional charge, and `]`.
pub fn read_bracket(scanner: &mut Scanner) -> (r: Result<Option<Atom>, Error>)
    requires
        old(scanner).wf(),
    ensures
        advanced(*old(scanner), *final(scanner)),
        old(scanner).spec_peek() != Some('[') ==> r == Ok::<Option<Atom>, Error>(None) && final(scanner).pos() == old(scanner).pos(),
        r matches Ok(None) ==> old(scanner).spec_peek() != Some('[') && final(scanner).pos() == old(scanner).pos(),
        old(scanner).spec_peek() == Some('[') ==> match bracket_result(old(scanner).text(), old(scanner).pos()) {
            Ok(end) => (r matches Ok(Some(a)) && bracket_atom_ok(a, old(scanner).text(), old(scanner).pos())
                && a.hydrogens as int == bracket_hcount(old(scanner).text(), old(scanner).pos()))
                && final(scanner).pos() == end,
            Err(e) => r == Err::<Option<Atom>, Error>(e),
        },
        r matches Ok(Some(a)) ==> {
            &&& bracket_shape(*old(scanner), final(scanner).pos())
            &&& bracket_atom_ok(a, old(scanner).text(), old(scanner).pos())
            &&& a.outgoing_bond@.len() == 0
            &&& a.element <= MAX_ATOMIC_NUMBER
            &&& !a.ring
            &&& a.symmetry_class == 0
        },
{
    match scanner.peek() {
        Some('[') => {},
        _ => return Ok(None),
    }
    let ghost s0 = *scanner;
    scanner.pop();
    let ghost s1 = *scanner;
    let isotope = read_isotope(scanner);
    let ghost s2 = *scanner;
    proof {
        lemma_digit_span(s0.text(), s1.pos(), s2.pos() - s1.pos(), 3);
    }
    let (element, aromatic) = match scanner.peek() {
        Some('*') => {
            scanner.pop();
            (0u8, false)
        },
        Some(c) => {
            let z = aromatic_element(c);
            if z != 0 {
                scanner.pop();
                (z, true)
            } else {
                proof {
                    if scanner.ahead(1) is Some {
                        lemma_symbol_letters(c, scanner.ahead(1)->0);
                    } else {
                        lemma_symbol_letters(c, c);
                    }
                }
                let z = read_symbol(scanner)?;
                (z, false)
            }
        },
        None => return Err(Error::EndOfLine),
    };
    assert(consumed_field(s2, *scanner));
    let configuration = read_configuration(scanner)?;
    let hydrogens = read_hcount(scanner);
    let f_charge = read_charge(scanner);
    let ghost s3 = *scanner;
    assert(consumed_field(s1, s3));
    match scanner.peek() {
        Some(']') => {
            scanner.pop();
            assert(s3.pos() > s1.pos());
            Ok(
                Some(
                    Atom {
                        outgoing_bond: Vec::new(),
                        element,
                        isotope,
                        hydrogens,
                        aromatic,
                        f_charge,
                        configuration,
                        ring: false,
                        symmetry_class: 0,
                    },
                ),
            )
        },
        _ => Err(missing_character(scanner)),
    }
}

/// What an atom reads as: `*`, an organic-subset symbol, or a bracket atom.
pub open spec fn atom_chunk(u: Seq<char>) -> bool {
    ||| u.len() == 1 && (u[0] == '*' || organic_initial(u[0]))
    ||| u.len() == 2 && organic_initial(u[0]) && (u[1] == 'l' || u[1] == 'r')
    ||| u.len() >= 3 && u[0] == '[' && u.last() == ']' && forall|i: int|
        0 < i < u.len() - 1 ==> field_char(#[trigger] u[i])
}

/// Reads one atom: the wildcard `*`, a bracket atom, or an atom of the
/// organic subset.
pub fn parse_atom(scanner: &mut Scanner) -> (r: Result<Atom, Error>)
    requires
        old(scanner).wf(),
    ensures
        advanced(*old(scanner), *final(scanner)),
        r matches Ok(a) ==> {
            &&& atom_chunk(consumed(*old(scanner), *final(scanner)))
            &&& a.outgoing_bond@.len() == 0
            &&& a.element <= MAX_ATOMIC_NUMBER
            &&& !a.ring
        },
        old(scanner).spec_peek() == Some('*') ==> (r matches Ok(a) && plain_atom(a, 0, false)),
        match atom_result(old(scanner).text(), old(scanner).pos()) {
            Ok(end) => r is Ok && final(scanner).pos() == end,
            Err(e) => r == Err::<Atom, Error>(e),
        },
        old(scanner).spec_peek() == Some('[') ==> (r matches Ok(a) ==> bracket_atom_ok(
            a,
            old(scanner).text(),
            old(scanner).pos(),
        )),
        match organic_at(*old(scanner)) {
            Some((z, arom, n)) => (r matches Ok(a) && plain_atom(a, z, arom)) && final(scanner).pos()
                == old(scanner).pos() + n,
            None => old(scanner).spec_peek() != Some('*') && old(scanner).spec_peek() != Some('[')
                ==> r == Err::<Atom, Error>(missing_at(old(scanner))),
        },
{
    let ghost s0 = *scanner;
    if let Some(star) = read_star(scanner) {
        assert(consumed(s0, *scanner) =~= seq![s0.text()[s0.pos()]]);
        return Ok(star);
    }
    if let Some(bracket_atom) = read_bracket(scanner)? {
        proof {
            let u = consumed(s0, *scanner);
            assert forall|i: int| 0 < i < u.len() - 1 implies field_char(#[trigger] u[i]) by {
                assert(u[i] == s0.text()[s0.pos() + i]);
            }
        }
        return Ok(bracket_atom);
    }
    match read_organic_subset(scanner) {
        Some((element, aromatic)) => {
            proof {
                let u = consumed(s0, *scanner);
                let a = s0.text()[s0.pos()];
                assert(aromatic_of(a) != 0 ==> organic_initial(a));
                assert(aliphatic_of(a) != 0 ==> organic_initial(a));
                assert(u.len() == scanner.pos() - s0.pos());
                assert(u[0] == s0.text()[s0.pos()]);
                if u.len() == 2 {
                    assert(u[1] == s0.text()[s0.pos() + 1]);
                }
            }
            Ok(
                Atom {
                    outgoing_bond: Vec::new(),
                    element,
                    isotope: 0,
                    hydrogens: 0,
                    aromatic,
                    f_charge: 0,
                    configuration: None,
                    ring: false,
                    symmetry_class: 0,
                },
            )
        },
        None => Err(missing_character(scanner)),
    }
}

} // verus!

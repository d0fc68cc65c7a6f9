//! Readers for the stereo configuration of a bracket atom: `@`, `@@`, and
//! the classes `@TH`, `@AL`, `@SP`, `@TB` and `@OH` with their numbers.

use vstd::prelude::*;
use crate::error::Error;
use crate::molecule::Configuration;
use crate::scanner::{advanced, consumed_field, missing_at, missing_character, missing_in, Scanner};
use crate::smiles_utils::{class_at, class_in, read_class};
use crate::text::char_at;

verus! {

broadcast use Scanner::lemma_wf;

/// The class written by two letters after `@`: 1 `TH`, 2 `AL`, 3 `SP`,
/// 4 `TB`, 5 `OH`; 0 for none.
pub open spec fn class_code(a: Option<char>, b: Option<char>) -> u8 {
    match (a, b) {
        (Some('T'), Some('H')) => 1,
        (Some('A'), Some('L')) => 2,
        (Some('S'), Some('P')) => 3,
        (Some('T'), Some('B')) => 4,
        (Some('O'), Some('H')) => 5,
        _ => 0,
    }
}

/// The largest number of each class.
pub open spec fn class_max(code: u8) -> int {
    match code {
        1 => 2,
        2 => 2,
        3 => 3,
        4 => 20,
        5 => 30,
        _ => 0,
    }
}

pub open spec fn spec_configuration(code: u8, n: u8) -> Configuration {
    match (code, n) {
        (1, 1) => Configuration::TH1, (1, 2) => Configuration::TH2,
        (2, 1) => Configuration::AL1, (2, 2) => Configuration::AL2,
        (3, 1) => Configuration::SP1, (3, 2) => Configuration::SP2,
        (3, 3) => Configuration::SP3,
        (4, 1) => Configuration::TB1, (4, 2) => Configuration::TB2,
        (4, 3) => Configuration::TB3, (4, 4) => Configuration::TB4,
        (4, 5) => Configuration::TB5, (4, 6) => Configuration::TB6,
        (4, 7) => Configuration::TB7, (4, 8) => Configuration::TB8,
        (4, 9) => Configuration::TB9, (4, 10) => Configuration::TB10,
        (4, 11) => Configuration::TB11, (4, 12) => Configuration::TB12,
        (4, 13) => Configuration::TB13, (4, 14) => Configuration::TB14,
        (4, 15) => Configuration::TB15, (4, 16) => Configuration::TB16,
        (4, 17) => Configuration::TB17, (4, 18) => Configuration::TB18,
        (4, 19) => Configuration::TB19, (4, 20) => Configuration::TB20,
        (5, 1) => Configuration::OH1, (5, 2) => Configuration::OH2,
        (5, 3) => Configuration::OH3, (5, 4) => Configuration::OH4,
        (5, 5) => Configuration::OH5, (5, 6) => Configuration::OH6,
        (5, 7) => Configuration::OH7, (5, 8) => Configuration::OH8,
        (5, 9) => Configuration::OH9, (5, 10) => Configuration::OH10,
        (5, 11) => Configuration::OH11, (5, 12) => Configuration::OH12,
        (5, 13) => Configuration::OH13, (5, 14) => Configuration::OH14,
        (5, 15) => Configuration::OH15, (5, 16) => Configuration::OH16,
        (5, 17) => Configuration::OH17, (5, 18) => Configuration::OH18,
        (5, 19) => Configuration::OH19, (5, 20) => Configuration::OH20,
        (5, 21) => Configuration::OH21, (5, 22) => Configuration::OH22,
        (5, 23) => Configuration::OH23, (5, 24) => Configuration::OH24,
        (5, 25) => Configuration::OH25, (5, 26) => Configuration::OH26,
        (5, 27) => Configuration::OH27, (5, 28) => Configuration::OH28,
        (5, 29) => Configuration::OH29, (5, 30) => Configuration::OH30,
        _ => Configuration::Unknown,
    }
}

fn configuration_of(code: u8, n: u8) -> (r: Configuration)
    ensures
        r == spec_configuration(code, n),
{
    match (code, n) {
        (1, 1) => Configuration::TH1, (1, 2) => Configuration::TH2,
        (2, 1) => Configuration::AL1, (2, 2) => Configuration::AL2,
        (3, 1) => Configuration::SP1, (3, 2) => Configuration::SP2,
        (3, 3) => Configuration::SP3,
        (4, 1) => Configuration::TB1, (4, 2) => Configuration::TB2,
        (4, 3) => Configuration::TB3, (4, 4) => Configuration::TB4,
        (4, 5) => Configuration::TB5, (4, 6) => Configuration::TB6,
        (4, 7) => Configuration::TB7, (4, 8) => Configuration::TB8,
        (4, 9) => Configuration::TB9, (4, 10) => Configuration::TB10,
        (4, 11) => Configuration::TB11, (4, 12) => Configuration::TB12,
        (4, 13) => Configuration::TB13, (4, 14) => Configuration::TB14,
        (4, 15) => Configuration::TB15, (4, 16) => Configuration::TB16,
        (4, 17) => Configuration::TB17, (4, 18) => Configuration::TB18,
        (4, 19) => Configuration::TB19, (4, 20) => Configuration::TB20,
        (5, 1) => Configuration::OH1, (5, 2) => Configuration::OH2,
        (5, 3) => Configuration::OH3, (5, 4) => Configuration::OH4,
        (5, 5) => Configuration::OH5, (5, 6) => Configuration::OH6,
        (5, 7) => Configuration::OH7, (5, 8) => Configuration::OH8,
        (5, 9) => Configuration::OH9, (5, 10) => Configuration::OH10,
        (5, 11) => Configuration::OH11, (5, 12) => Configuration::OH12,
        (5, 13) => Configuration::OH13, (5, 14) => Configuration::OH14,
        (5, 15) => Configuration::OH15, (5, 16) => Configuration::OH16,
        (5, 17) => Configuration::OH17, (5, 18) => Configuration::OH18,
        (5, 19) => Configuration::OH19, (5, 20) => Configuration::OH20,
        (5, 21) => Configuration::OH21, (5, 22) => Configuration::OH22,
        (5, 23) => Configuration::OH23, (5, 24) => Configuration::OH24,
        (5, 25) => Configuration::OH25, (5, 26) => Configuration::OH26,
        (5, 27) => Configuration::OH27, (5, 28) => Configuration::OH28,
        (5, 29) => Configuration::OH29, (5, 30) => Configuration::OH30,
        _ => Configuration::Unknown,
    }
}

fn class_limit(code: u8) -> (r: u8)
    ensures
        r as int == class_max(code),
{
    match code {
        1 => 2,
        2 => 2,
        3 => 3,
        4 => 20,
        5 => 30,
        _ => 0,
    }
}

/// What reading the number of class `code` at the cursor gives.
pub open spec fn class_result(s: Scanner, code: u8) -> (Result<Configuration, Error>, int) {
    match class_at(s, 0, class_max(code)) {
        Some((n, len)) => (Ok(spec_configuration(code, n as u8)), len),
        None => (Err(missing_at(&s)), 0),
    }
}

/// Reads the number of class `code` and gives the configuration it names.
fn class_configuration(scanner: &mut Scanner, code: u8) -> (r: Result<Configuration, Error>)
    requires
        old(scanner).wf(),
    ensures
        advanced(*old(scanner), *final(scanner)),
        consumed_field(*old(scanner), *final(scanner)),
        r == class_result(*old(scanner), code).0,
        final(scanner).pos() == old(scanner).pos() + class_result(*old(scanner), code).1,
{
    let limit = class_limit(code);
    match read_class(scanner, limit) {
        Some(n) => Ok(configuration_of(code, n)),
        None => Err(missing_character(scanner)),
    }
}

/// `@TH1` or `@TH2`, after the letters.
pub fn tetrahedral(scanner: &mut Scanner) -> (r: Result<Configuration, Error>)
    requires
        old(scanner).wf(),
    ensures
        advanced(*old(scanner), *final(scanner)),
        consumed_field(*old(scanner), *final(scanner)),
        r == class_result(*old(scanner), 1).0,
        final(scanner).pos() == old(scanner).pos() + class_result(*old(scanner), 1).1,
{
    class_configuration(scanner, 1)
}

/// `@AL1` or `@AL2`, after the letters.
pub fn allene(scanner: &mut Scanner) -> (r: Result<Configuration, Error>)
    requires
        old(scanner).wf(),
    ensures
        advanced(*old(scanner), *final(scanner)),
        consumed_field(*old(scanner), *final(scanner)),
        r == class_result(*old(scanner), 2).0,
        final(scanner).pos() == old(scanner).pos() + class_result(*old(scanner), 2).1,
{
    class_configuration(scanner, 2)
}

/// `@SP1` to `@SP3`, after the letters.
pub fn square_planar(scanner: &mut Scanner) -> (r: Result<Configuration, Error>)
    requires
        old(scanner).wf(),
    ensures
        advanced(*old(scanner), *final(scanner)),
        consumed_field(*old(scanner), *final(scanner)),
        r == class_result(*old(scanner), 3).0,
        final(scanner).pos() == old(scanner).pos() + class_result(*old(scanner), 3).1,
{
    class_configuration(scanner, 3)
}

/// `@TB1` to `@TB20`, after the letters.
pub fn trigonal_bipyramidal(scanner: &mut Scanner) -> (r: Result<Configuration, Error>)
    requires
        old(scanner).wf(),
    ensures
        advanced(*old(scanner), *final(scanner)),
        consumed_field(*old(scanner), *final(scanner)),
        r == class_result(*old(scanner), 4).0,
        final(scanner).pos() == old(scanner).pos() + class_result(*old(scanner), 4).1,
{
    class_configuration(scanner, 4)
}

/// `@OH1` to `@OH30`, after the letters.
pub fn octahedral(scanner: &mut Scanner) -> (r: Result<Configuration, Error>)
    requires
        old(scanner).wf(),
    ensures
        advanced(*old(scanner), *final(scanner)),
        consumed_field(*old(scanner), *final(scanner)),
        r == class_result(*old(scanner), 5).0,
        final(scanner).pos() == old(scanner).pos() + class_result(*old(scanner), 5).1,
{
    class_configuration(scanner, 5)
}

/// Whether `c` starts a class name after `@`.
pub open spec fn class_initial(c: Option<char>) -> bool {
    c == Some('T') || c == Some('A') || c == Some('S') || c == Some('O')
}

/// What reading a configuration at `p` gives, with its length: nothing
/// without `@`; `TH2` for `@@`; a class and its number; `TH1` for a lone
/// `@`. A class without its number, or a class initial not followed by a
/// class name, is an error at the character that is missing.
pub open spec fn config_in(t: Seq<char>, p: int) -> Result<(Option<Configuration>, int), Error> {
    if char_at(t, p) != Some('@') {
        Ok((None, 0))
    } else if char_at(t, p + 1) == Some('@') {
        Ok((Some(Configuration::TH2), 2))
    } else {
        let code = class_code(char_at(t, p + 1), char_at(t, p + 2));
        if code != 0 {
            match class_in(t, p + 3, class_max(code)) {
                Some((n, len)) => Ok((Some(spec_configuration(code, n as u8)), 3 + len)),
                None => Err(missing_in(t, p + 3)),
            }
        } else if class_initial(char_at(t, p + 1)) {
            Err(missing_in(t, p + 2))
        } else {
            Ok((Some(Configuration::TH1), 1))
        }
    }
}

/// Reads a stereo configuration: nothing unless `@` is next; `@@` is `TH2`;
/// `@` with a class and its number is that configuration, and an error when
/// the number is missing; a lone `@` is `TH1`.
pub fn read_configuration(scanner: &mut Scanner) -> (r: Result<Option<Configuration>, Error>)
    requires
        old(scanner).wf(),
    ensures
        advanced(*old(scanner), *final(scanner)),
        consumed_field(*old(scanner), *final(scanner)),
        match config_in(old(scanner).text(), old(scanner).pos()) {
            Ok((c, n)) => r == Ok::<Option<Configuration>, Error>(c) && final(scanner).pos() == old(scanner).pos() + n,
            Err(e) => r == Err::<Option<Configuration>, Error>(e),
        },
{
    match scanner.peek() {
        Some('@') => {},
        _ => return Ok(None),
    }
    let second = scanner.peek_ahead(1);
    if second == Some('@') {
        scanner.pop();
        scanner.pop();
        return Ok(Some(Configuration::TH2));
    }
    let third = scanner.peek_ahead(2);
    let code: u8 = match (second, third) {
        (Some('T'), Some('H')) => 1,
        (Some('A'), Some('L')) => 2,
        (Some('S'), Some('P')) => 3,
        (Some('T'), Some('B')) => 4,
        (Some('O'), Some('H')) => 5,
        _ => 0,
    };
    scanner.pop();
    if code == 0 {
        if second == Some('T') || second == Some('A') || second == Some('S') || second == Some('O') {
            scanner.pop();
            return Err(missing_character(scanner));
        }
        return Ok(Some(Configuration::TH1));
    }
    scanner.pop();
    scanner.pop();
    let ghost s3 = *scanner;
    let c = match code {
        1 => tetrahedral(scanner),
        2 => allene(scanner),
        3 => square_planar(scanner),
        4 => trigonal_bipyramidal(scanner),
        _ => octahedral(scanner),
    };
    assert(s3.wf() && s3.pos() == old(scanner).pos() + 3);
    match c {
        Ok(c) => Ok(Some(c)),
        Err(e) => Err(e),
    }
}

} // verus!

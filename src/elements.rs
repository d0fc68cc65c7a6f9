//! The periodic-table facts that the parsers need: element symbols,
//! valence-electron counts and the mass number of each element's most
//! abundant isotope.

use vstd::prelude::*;
use crate::error::Error;
use crate::text::{char_at, is_letter};
use crate::scanner::{Scanner, missing_at, missing_character};

verus! {

broadcast use Scanner::lemma_wf;

/// Highest atomic number known to the table.
pub const MAX_ATOMIC_NUMBER: u8 = 118;

/// The valence-electron count of an element; 0 outside `1..=118`.
pub open spec fn spec_valence_electrons(atomic_number: int) -> int {
    if atomic_number == 1 {
        1
    } else if atomic_number == 2 {
        2
    } else if 3 <= atomic_number <= 10 {
        (atomic_number - 2) % 8
    } else if 11 <= atomic_number <= 18 {
        (atomic_number - 10) % 8
    } else if 19 <= atomic_number <= 36 {
        (atomic_number - 18) % 8
    } else if 37 <= atomic_number <= 54 {
        (atomic_number - 36) % 8
    } else if 55 <= atomic_number <= 86 {
        (atomic_number - 54) % 8
    } else if 87 <= atomic_number <= 118 {
        (atomic_number - 86) % 8
    } else {
        0
    }
}

pub fn valence_electrons(atomic_number: usize) -> (r: usize)
    ensures
        r == spec_valence_electrons(atomic_number as int),
        r < 8,
{
    match atomic_number {
        1 => 1,
        2 => 2,
        3..=10 => (atomic_number - 2) % 8,
        11..=18 => (atomic_number - 10) % 8,
        19..=36 => (atomic_number - 18) % 8,
        37..=54 => (atomic_number - 36) % 8,
        55..=86 => (atomic_number - 54) % 8,
        87..=118 => (atomic_number - 86) % 8,
        _ => 0,
    }
}

/// The element whose one-letter symbol is `a`, or 0.
pub open spec fn spec_one_letter(a: char) -> u8 {
        match a {
            'H' => 1, 'B' => 5, 'C' => 6, 'N' => 7, 'O' => 8, 'F' => 9, 'P' => 15, 'S' => 16,
            'K' => 19, 'V' => 23, 'Y' => 39, 'I' => 53, 'W' => 74, 'U' => 92, _ => 0,
        }
}

/// The element whose two-letter symbol is `a` then `b`, or 0.
pub open spec fn spec_two_letter(a: char, b: char) -> u8 {
        match a {
            'A' => match b {
                'l' => 13, 'r' => 18, 's' => 33, 'g' => 47, 'u' => 79, 't' => 85, 'c' => 89,
                'm' => 95, _ => 0,
            },
            'B' => match b {
                'e' => 4, 'r' => 35, 'a' => 56, 'i' => 83, 'k' => 97, 'h' => 107, _ => 0,
            },
            'C' => match b {
                'l' => 17, 'a' => 20, 'r' => 24, 'o' => 27, 'u' => 29, 'd' => 48, 's' => 55,
                'e' => 58, 'm' => 96, 'f' => 98, 'n' => 112, _ => 0,
            },
            'D' => match b {
                'y' => 66, 'b' => 105, 's' => 110, _ => 0,
            },
            'E' => match b {
                'u' => 63, 'r' => 68, 's' => 99, _ => 0,
            },
            'F' => match b {
                'e' => 26, 'r' => 87, 'm' => 100, 'l' => 114, _ => 0,
            },
            'G' => match b {
                'a' => 31, 'e' => 32, 'd' => 64, _ => 0,
            },
            'H' => match b {
                'e' => 2, 'o' => 67, 'f' => 72, 'g' => 80, 's' => 108, _ => 0,
            },
            'I' => match b {
                'n' => 49, 'r' => 77, _ => 0,
            },
            'K' => match b {
                'r' => 36, _ => 0,
            },
            'L' => match b {
                'i' => 3, 'a' => 57, 'u' => 71, 'r' => 103, 'v' => 116, _ => 0,
            },
            'M' => match b {
                'g' => 12, 'n' => 25, 'o' => 42, 'd' => 101, 't' => 109, 'c' => 115, _ => 0,
            },
            'N' => match b {
                'e' => 10, 'a' => 11, 'i' => 28, 'b' => 41, 'd' => 60, 'p' => 93, 'o' => 102,
                'h' => 113, _ => 0,
            },
            'O' => match b {
                's' => 76, 'g' => 118, _ => 0,
            },
            'P' => match b {
                'd' => 46, 'r' => 59, 'm' => 61, 't' => 78, 'b' => 82, 'o' => 84, 'a' => 91,
                'u' => 94, _ => 0,
            },
            'R' => match b {
                'b' => 37, 'u' => 44, 'h' => 45, 'e' => 75, 'n' => 86, 'a' => 88, 'f' => 104,
                'g' => 111, _ => 0,
            },
            'S' => match b {
                'i' => 14, 'c' => 21, 'e' => 34, 'r' => 38, 'n' => 50, 'b' => 51, 'm' => 62,
                'g' => 106, _ => 0,
            },
            'T' => match b {
                'i' => 22, 'c' => 43, 'e' => 52, 'b' => 65, 'm' => 69, 'a' => 73, 'l' => 81,
                'h' => 90, 's' => 117, _ => 0,
            },
            'X' => match b {
                'e' => 54, _ => 0,
            },
            'Y' => match b {
                'b' => 70, _ => 0,
            },
            'Z' => match b {
                'n' => 30, 'r' => 40, _ => 0,
            },
            _ => 0,
        }
}

/// The mass number of the most abundant (or longest-lived) isotope of an
/// element; 0 outside `1..=118`. An atom written without an isotope counts
/// as having this mass when a pattern asks for one.
pub open spec fn spec_default_mass(z: u8) -> u16 {
        match z {
            1 => 1, 2 => 4, 3 => 7, 4 => 9, 5 => 11, 6 => 12, 7 => 14, 8 => 16, 9 => 19,
            10 => 20, 11 => 23, 12 => 24, 13 => 27, 14 => 28, 15 => 31, 16 => 32, 17 => 35,
            18 => 40, 19 => 39, 20 => 40, 21 => 45, 22 => 48, 23 => 51, 24 => 52, 25 => 55,
            26 => 56, 27 => 59, 28 => 58, 29 => 63, 30 => 64, 31 => 69, 32 => 74, 33 => 75,
            34 => 80, 35 => 79, 36 => 84, 37 => 85, 38 => 88, 39 => 89, 40 => 90, 41 => 93,
            42 => 98, 43 => 98, 44 => 102, 45 => 103, 46 => 106, 47 => 107, 48 => 114,
            49 => 115, 50 => 120, 51 => 121, 52 => 130, 53 => 127, 54 => 132, 55 => 133,
            56 => 138, 57 => 139, 58 => 140, 59 => 141, 60 => 142, 61 => 145, 62 => 152,
            63 => 153, 64 => 158, 65 => 159, 66 => 164, 67 => 165, 68 => 166, 69 => 169,
            70 => 174, 71 => 175, 72 => 180, 73 => 181, 74 => 184, 75 => 187, 76 => 192,
            77 => 193, 78 => 195, 79 => 197, 80 => 202, 81 => 205, 82 => 208, 83 => 209,
            84 => 209, 85 => 210, 86 => 222, 87 => 223, 88 => 226, 89 => 227, 90 => 232,
            91 => 231, 92 => 238, 93 => 237, 94 => 244, 95 => 243, 96 => 247, 97 => 247,
            98 => 251, 99 => 252, 100 => 257, 101 => 258, 102 => 259, 103 => 266, 104 => 267,
            105 => 268, 106 => 269, 107 => 270, 108 => 269, 109 => 278, 110 => 281, 111 => 282,
            112 => 285, 113 => 286, 114 => 289, 115 => 290, 116 => 293, 117 => 294, 118 => 294, _ => 0,
        }
}

fn one_letter(a: char) -> (r: u8)
    ensures
        r == spec_one_letter(a),
{
        match a {
            'H' => 1, 'B' => 5, 'C' => 6, 'N' => 7, 'O' => 8, 'F' => 9, 'P' => 15, 'S' => 16,
            'K' => 19, 'V' => 23, 'Y' => 39, 'I' => 53, 'W' => 74, 'U' => 92, _ => 0,
        }
}

pub fn two_letter_element(a: char, b: char) -> (r: u8)
    ensures
        r == spec_two_letter(a, b),
{
        match a {
            'A' => match b {
                'l' => 13, 'r' => 18, 's' => 33, 'g' => 47, 'u' => 79, 't' => 85, 'c' => 89,
                'm' => 95, _ => 0,
            },
            'B' => match b {
                'e' => 4, 'r' => 35, 'a' => 56, 'i' => 83, 'k' => 97, 'h' => 107, _ => 0,
            },
            'C' => match b {
                'l' => 17, 'a' => 20, 'r' => 24, 'o' => 27, 'u' => 29, 'd' => 48, 's' => 55,
                'e' => 58, 'm' => 96, 'f' => 98, 'n' => 112, _ => 0,
            },
            'D' => match b {
                'y' => 66, 'b' => 105, 's' => 110, _ => 0,
            },
            'E' => match b {
                'u' => 63, 'r' => 68, 's' => 99, _ => 0,
            },
            'F' => match b {
                'e' => 26, 'r' => 87, 'm' => 100, 'l' => 114, _ => 0,
            },
            'G' => match b {
                'a' => 31, 'e' => 32, 'd' => 64, _ => 0,
            },
            'H' => match b {
                'e' => 2, 'o' => 67, 'f' => 72, 'g' => 80, 's' => 108, _ => 0,
            },
            'I' => match b {
                'n' => 49, 'r' => 77, _ => 0,
            },
            'K' => match b {
                'r' => 36, _ => 0,
            },
            'L' => match b {
                'i' => 3, 'a' => 57, 'u' => 71, 'r' => 103, 'v' => 116, _ => 0,
            },
            'M' => match b {
                'g' => 12, 'n' => 25, 'o' => 42, 'd' => 101, 't' => 109, 'c' => 115, _ => 0,
            },
            'N' => match b {
                'e' => 10, 'a' => 11, 'i' => 28, 'b' => 41, 'd' => 60, 'p' => 93, 'o' => 102,
                'h' => 113, _ => 0,
            },
            'O' => match b {
                's' => 76, 'g' => 118, _ => 0,
            },
            'P' => match b {
                'd' => 46, 'r' => 59, 'm' => 61, 't' => 78, 'b' => 82, 'o' => 84, 'a' => 91,
                'u' => 94, _ => 0,
            },
            'R' => match b {
                'b' => 37, 'u' => 44, 'h' => 45, 'e' => 75, 'n' => 86, 'a' => 88, 'f' => 104,
                'g' => 111, _ => 0,
            },
            'S' => match b {
                'i' => 14, 'c' => 21, 'e' => 34, 'r' => 38, 'n' => 50, 'b' => 51, 'm' => 62,
                'g' => 106, _ => 0,
            },
            'T' => match b {
                'i' => 22, 'c' => 43, 'e' => 52, 'b' => 65, 'm' => 69, 'a' => 73, 'l' => 81,
                'h' => 90, 's' => 117, _ => 0,
            },
            'X' => match b {
                'e' => 54, _ => 0,
            },
            'Y' => match b {
                'b' => 70, _ => 0,
            },
            'Z' => match b {
                'n' => 30, 'r' => 40, _ => 0,
            },
            _ => 0,
        }
}

pub fn default_mass(z: u8) -> (r: u16)
    ensures
        r == spec_default_mass(z),
{
        match z {
            1 => 1, 2 => 4, 3 => 7, 4 => 9, 5 => 11, 6 => 12, 7 => 14, 8 => 16, 9 => 19,
            10 => 20, 11 => 23, 12 => 24, 13 => 27, 14 => 28, 15 => 31, 16 => 32, 17 => 35,
            18 => 40, 19 => 39, 20 => 40, 21 => 45, 22 => 48, 23 => 51, 24 => 52, 25 => 55,
            26 => 56, 27 => 59, 28 => 58, 29 => 63, 30 => 64, 31 => 69, 32 => 74, 33 => 75,
            34 => 80, 35 => 79, 36 => 84, 37 => 85, 38 => 88, 39 => 89, 40 => 90, 41 => 93,
            42 => 98, 43 => 98, 44 => 102, 45 => 103, 46 => 106, 47 => 107, 48 => 114,
            49 => 115, 50 => 120, 51 => 121, 52 => 130, 53 => 127, 54 => 132, 55 => 133,
            56 => 138, 57 => 139, 58 => 140, 59 => 141, 60 => 142, 61 => 145, 62 => 152,
            63 => 153, 64 => 158, 65 => 159, 66 => 164, 67 => 165, 68 => 166, 69 => 169,
            70 => 174, 71 => 175, 72 => 180, 73 => 181, 74 => 184, 75 => 187, 76 => 192,
            77 => 193, 78 => 195, 79 => 197, 80 => 202, 81 => 205, 82 => 208, 83 => 209,
            84 => 209, 85 => 210, 86 => 222, 87 => 223, 88 => 226, 89 => 227, 90 => 232,
            91 => 231, 92 => 238, 93 => 237, 94 => 244, 95 => 243, 96 => 247, 97 => 247,
            98 => 251, 99 => 252, 100 => 257, 101 => 258, 102 => 259, 103 => 266, 104 => 267,
            105 => 268, 106 => 269, 107 => 270, 108 => 269, 109 => 278, 110 => 281, 111 => 282,
            112 => 285, 113 => 286, 114 => 289, 115 => 290, 116 => 293, 117 => 294, 118 => 294, _ => 0,
        }
}

/// The element symbol at the cursor, with its length: a two-letter symbol is
/// preferred over the one-letter symbol it starts with.
pub open spec fn symbol_at(s: Scanner) -> Option<(u8, int)> {
    symbol_in(s.text(), s.pos())
}

/// The element symbol written at `q`, with its length.
pub open spec fn symbol_in(t: Seq<char>, q: int) -> Option<(u8, int)> {
    match char_at(t, q) {
        Some(a) => {
            if char_at(t, q + 1) is Some && spec_two_letter(a, char_at(t, q + 1)->0) != 0 {
                Some((spec_two_letter(a, char_at(t, q + 1)->0), 2))
            } else if spec_one_letter(a) != 0 {
                Some((spec_one_letter(a), 1))
            } else {
                None
            }
        },
        None => None,
    }
}

/// Reads an element symbol and returns its atomic number.
pub fn read_symbol(scanner: &mut Scanner) -> (r: Result<u8, Error>)
    requires
        old(scanner).wf(),
    ensures
        final(scanner).wf(),
        final(scanner).text() == old(scanner).text(),
        match symbol_at(*old(scanner)) {
            Some((z, n)) => r == Ok::<u8, Error>(z) && final(scanner).pos() == old(scanner).pos() + n,
            None => r == Err::<u8, Error>(missing_at(old(scanner))) && final(scanner).pos() == old(
                scanner,
            ).pos(),
        },
        r matches Ok(z) ==> 1 <= z <= MAX_ATOMIC_NUMBER,
{
    let a = match scanner.peek() {
        Some(a) => a,
        None => return Err(missing_character(scanner)),
    };
    if let Some(b) = scanner.peek_ahead(1) {
        let z = two_letter_element(a, b);
        if z != 0 {
            scanner.pop();
            scanner.pop();
            return Ok(z);
        }
    }
    let z = one_letter(a);
    if z != 0 {
        scanner.pop();
        Ok(z)
    } else {
        Err(missing_character(scanner))
    }
}

} // verus!

verus! {

/// Element symbols are made of letters.
pub proof fn lemma_symbol_letters(a: char, b: char)
    ensures
        spec_one_letter(a) != 0 ==> is_letter(a),
        spec_two_letter(a, b) != 0 ==> is_letter(a) && is_letter(b),
{
}

} // verus!

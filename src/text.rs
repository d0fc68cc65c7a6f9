//! Character classes of the line notation, and counts over a text that
//! describe what a parse of it must hold: atoms, branches, ring marks.

use vstd::prelude::*;
use crate::scanner::Scanner;

verus! {

broadcast use Scanner::lemma_wf;

/// The character at `i`, if `i` is inside the text.
pub open spec fn char_at(t: Seq<char>, i: int) -> Option<char> {
    if 0 <= i < t.len() {
        Some(t[i])
    } else {
        None
    }
}

pub open spec fn is_digit(c: char) -> bool {
    48 <= c as u32 <= 57
}

pub open spec fn digit_value(c: char) -> int {
    c as u32 - 48
}

pub open spec fn is_letter(c: char) -> bool {
    (97 <= c as u32 <= 122) || (65 <= c as u32 <= 90)
}

/// The value of the digit at the cursor, if a digit is there.
pub fn peek_digit(scanner: &Scanner) -> (r: Option<u8>)
    requires
        scanner.wf(),
    ensures
        match scanner.spec_peek() {
            Some(c) => if is_digit(c) {
                r == Some(digit_value(c) as u8) && digit_value(c) < 10
            } else {
                r is None
            },
            None => r is None,
        },
{
    match scanner.peek() {
        Some(c) => {
            let v = c as u32;
            if 48 <= v && v <= 57 {
                Some((v - 48) as u8)
            } else {
                None
            }
        },
        None => None,
    }
}

/// The value of the digit `k` places after the cursor, if a digit is there.
pub fn peek_digit_ahead(scanner: &Scanner, k: usize) -> (r: Option<u8>)
    requires
        scanner.wf(),
    ensures
        match scanner.ahead(k as int) {
            Some(c) => if is_digit(c) {
                r == Some(digit_value(c) as u8) && digit_value(c) < 10
            } else {
                r is None
            },
            None => r is None,
        },
{
    match scanner.peek_ahead(k) {
        Some(c) => {
            let v = c as u32;
            if 48 <= v && v <= 57 {
                Some((v - 48) as u8)
            } else {
                None
            }
        },
        None => None,
    }
}

/// A letter that starts an atom written without brackets.
pub open spec fn organic_initial(c: char) -> bool {
    c == 'B' || c == 'C' || c == 'N' || c == 'O' || c == 'P' || c == 'S' || c == 'F' || c == 'I'
        || c == 'b' || c == 'c' || c == 'n' || c == 'o' || c == 'p' || c == 's'
}

/// A character that starts an atom outside brackets.
pub open spec fn atom_start(c: char) -> bool {
    c == '[' || c == '*' || organic_initial(c)
}

/// A character that may stand inside a bracket atom.
pub open spec fn field_char(c: char) -> bool {
    is_digit(c) || is_letter(c) || c == '@' || c == '+' || c == '-' || c == '*'
}

/// Whether the text ends inside a bracket atom.
pub open spec fn in_bracket(t: Seq<char>) -> bool
    decreases t.len(),
{
    if t.len() == 0 {
        false
    } else if t.last() == '[' {
        true
    } else if t.last() == ']' {
        false
    } else {
        in_bracket(t.drop_last())
    }
}

/// The number of atoms written in the text: each `[`, `*` or organic
/// initial letter outside brackets starts one.
pub open spec fn atom_count(t: Seq<char>) -> nat
    decreases t.len(),
{
    if t.len() == 0 {
        0
    } else {
        atom_count(t.drop_last()) + if !in_bracket(t.drop_last()) && atom_start(t.last()) {
            1nat
        } else {
            0nat
        }
    }
}

/// The number of digits outside brackets: the ring-closure digits.
pub open spec fn ring_digit_count(t: Seq<char>) -> nat
    decreases t.len(),
{
    if t.len() == 0 {
        0
    } else {
        ring_digit_count(t.drop_last()) + if !in_bracket(t.drop_last()) && is_digit(t.last()) {
            1nat
        } else {
            0nat
        }
    }
}

/// The number of times `c` occurs in the text.
pub open spec fn char_count(t: Seq<char>, c: char) -> nat
    decreases t.len(),
{
    if t.len() == 0 {
        0
    } else {
        char_count(t.drop_last(), c) + if t.last() == c {
            1nat
        } else {
            0nat
        }
    }
}

/// The number of ring-closure marks: a `%` with its two digits is one mark,
/// a lone digit outside brackets is another.
pub open spec fn ring_mark_count(t: Seq<char>) -> int {
    ring_digit_count(t) - char_count(t, '%')
}

/// Where the next atom attaches, and the open branch points (as atom
/// indices), after reading `c` with `st` as the state before it and `u` as
/// the text before it: an atom becomes the attachment point, `(` opens a
/// branch at it, `)` returns to the last branch point, `.` clears it.
pub open spec fn attach_step(st: (Option<int>, Seq<int>), u: Seq<char>, c: char) -> (
    Option<int>,
    Seq<int>,
) {
    if in_bracket(u) {
        st
    } else if atom_start(c) {
        (Some(atom_count(u) as int), st.1)
    } else if c == '(' {
        match st.0 {
            Some(a) => (st.0, st.1.push(a)),
            None => st,
        }
    } else if c == ')' {
        if st.1.len() > 0 {
            (Some(st.1.last()), st.1.drop_last())
        } else {
            st
        }
    } else if c == '.' {
        (None, st.1)
    } else {
        st
    }
}

/// Where the next atom attaches after the text, and the open branch points.
pub open spec fn attachment(t: Seq<char>) -> (Option<int>, Seq<int>)
    decreases t.len(),
{
    if t.len() == 0 {
        (None, Seq::empty())
    } else {
        attach_step(attachment(t.drop_last()), t.drop_last(), t.last())
    }
}

/// What the ring-closure marks read so far leave: for each ring number the
/// atom that holds it open; the two-digit mark being read (`None` outside
/// one, `Some(None)` after `%`, `Some(Some(d))` after `%` and the digit
/// `d`); and the rings closed, in order, as (opening atom, closing atom).
pub type RingMarks = (Seq<Option<int>>, Option<Option<int>>, Seq<(int, int)>);

/// Ring number `n` marked at atom `last`: a second mark closes the ring
/// opened by the first.
pub open spec fn ring_mark(st: RingMarks, n: int, last: int) -> RingMarks {
    match st.0[n] {
        Some(a) => (st.0.update(n, None), None, st.2.push((a, last))),
        None => (st.0.update(n, Some(last)), None, st.2),
    }
}

/// The ring-mark state after reading `c` outside brackets with `u` before
/// it; ring marks belong to the last atom written.
pub open spec fn ring_step(st: RingMarks, u: Seq<char>, c: char) -> RingMarks {
    let last = atom_count(u) - 1;
    if in_bracket(u) {
        st
    } else {
        match st.1 {
            Some(None) => if is_digit(c) {
                (st.0, Some(Some(digit_value(c))), st.2)
            } else {
                (st.0, None, st.2)
            },
            Some(Some(d)) => if is_digit(c) {
                ring_mark(st, d * 10 + digit_value(c), last)
            } else {
                (st.0, None, st.2)
            },
            None => if is_digit(c) {
                ring_mark(st, digit_value(c), last)
            } else if c == '%' {
                (st.0, Some(None), st.2)
            } else {
                st
            },
        }
    }
}

/// The ring-mark state after the text.
pub open spec fn ring_marks(t: Seq<char>) -> RingMarks
    decreases t.len(),
{
    if t.len() == 0 {
        (Seq::new(100, |i: int| None), None, Seq::empty())
    } else {
        ring_step(ring_marks(t.drop_last()), t.drop_last(), t.last())
    }
}

/// How the counts change when one character is appended.
pub proof fn lemma_push(t: Seq<char>, c: char)
    ensures
        in_bracket(t.push(c)) == if c == '[' {
            true
        } else if c == ']' {
            false
        } else {
            in_bracket(t)
        },
        atom_count(t.push(c)) == atom_count(t) + if !in_bracket(t) && atom_start(c) {
            1nat
        } else {
            0nat
        },
        ring_digit_count(t.push(c)) == ring_digit_count(t) + if !in_bracket(t) && is_digit(c) {
            1nat
        } else {
            0nat
        },
        forall|d: char| #[trigger] char_count(t.push(c), d) == char_count(t, d) + if c == d {
            1nat
        } else {
            0nat
        },
        attachment(t.push(c)) == attach_step(attachment(t), t, c),
        ring_marks(t.push(c)) == ring_step(ring_marks(t), t, c),
{
    assert(t.push(c).drop_last() =~= t);
}

/// Characters that change nothing outside brackets.
pub open spec fn neutral_outside(c: char) -> bool {
    !atom_start(c) && c != ']' && !is_digit(c) && c != '(' && c != ')' && c != '.' && c != '%'
}

/// Characters that change nothing inside brackets.
pub open spec fn neutral_inside(c: char) -> bool {
    c != '[' && c != ']' && c != '(' && c != ')' && c != '.' && c != '%'
}

/// The counts that a parse keeps track of stay the same over `u`.
pub open spec fn same_counts(t: Seq<char>, u: Seq<char>) -> bool {
    &&& in_bracket(t + u) == in_bracket(t)
    &&& atom_count(t + u) == atom_count(t)
    &&& ring_digit_count(t + u) == ring_digit_count(t)
    &&& char_count(t + u, '(') == char_count(t, '(')
    &&& char_count(t + u, ')') == char_count(t, ')')
    &&& char_count(t + u, '.') == char_count(t, '.')
    &&& char_count(t + u, '%') == char_count(t, '%')
    &&& attachment(t + u) == attachment(t)
}

/// Characters that are neither digits nor `%` leave the ring marks alone
/// between marks.
pub proof fn lemma_ring_marks_outside(t: Seq<char>, u: Seq<char>)
    requires
        !in_bracket(t),
        ring_marks(t).1 is None,
        forall|i: int| 0 <= i < u.len() ==> neutral_outside(#[trigger] u[i]),
    ensures
        ring_marks(t + u) == ring_marks(t),
        !in_bracket(t + u),
    decreases u.len(),
{
    if u.len() == 0 {
        assert(t + u =~= t);
    } else {
        let v = u.drop_last();
        lemma_ring_marks_outside(t, v);
        lemma_neutral_outside(t, v);
        assert(t + u =~= (t + v).push(u.last()));
        lemma_push(t + v, u.last());
    }
}

/// Inside brackets the ring marks stay as they are.
pub proof fn lemma_ring_marks_inside(t: Seq<char>, u: Seq<char>)
    requires
        in_bracket(t),
        forall|i: int| 0 <= i < u.len() ==> neutral_inside(#[trigger] u[i]),
    ensures
        ring_marks(t + u) == ring_marks(t),
    decreases u.len(),
{
    if u.len() == 0 {
        assert(t + u =~= t);
    } else {
        let v = u.drop_last();
        lemma_ring_marks_inside(t, v);
        lemma_neutral_inside(t, v);
        assert(t + u =~= (t + v).push(u.last()));
        lemma_push(t + v, u.last());
    }
}

pub proof fn lemma_neutral_outside(t: Seq<char>, u: Seq<char>)
    requires
        !in_bracket(t),
        forall|i: int| 0 <= i < u.len() ==> neutral_outside(#[trigger] u[i]),
    ensures
        same_counts(t, u),
    decreases u.len(),
{
    if u.len() == 0 {
        assert(t + u =~= t);
    } else {
        let v = u.drop_last();
        lemma_neutral_outside(t, v);
        assert(t + u =~= (t + v).push(u.last()));
        lemma_push(t + v, u.last());
    }
}

pub proof fn lemma_neutral_inside(t: Seq<char>, u: Seq<char>)
    requires
        in_bracket(t),
        forall|i: int| 0 <= i < u.len() ==> neutral_inside(#[trigger] u[i]),
    ensures
        same_counts(t, u),
    decreases u.len(),
{
    if u.len() == 0 {
        assert(t + u =~= t);
    } else {
        let v = u.drop_last();
        lemma_neutral_inside(t, v);
        assert(t + u =~= (t + v).push(u.last()));
        lemma_push(t + v, u.last());
    }
}

} // verus!

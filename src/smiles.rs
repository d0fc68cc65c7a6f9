//! The line-notation parser: builds a molecular graph from text, with
//! branches, ring closures, fragments and derived hydrogen counts.

use vstd::prelude::*;
use crate::bonds::BondType;
use crate::elements::valence_electrons;
use crate::error::Error;
use crate::molecule::{Atom, Axialness, Bond, Molecule, incident, ring_bond_count, ring_pairs};
use crate::scanner::{Scanner, advanced};
use crate::smiles_utils::{
    atom_chunk, atom_result, bond_type_of, bracket_atom_ok, organic_in, parse_atom, read_axial,
    read_bond,
};
use crate::text::{
    RingMarks, atom_count, atom_start, attachment, char_count, field_char, in_bracket, is_digit,
    lemma_neutral_inside, lemma_neutral_outside, lemma_push, lemma_ring_marks_inside,
    lemma_ring_marks_outside, neutral_inside, neutral_outside, organic_initial, peek_digit, char_at,
    digit_value,
    peek_digit_ahead, ring_digit_count, ring_mark, ring_mark_count, ring_marks,
};

verus! {

broadcast use Scanner::lemma_wf;

/// The number of fragments written: none for an empty text, else one more
/// than the number of `.` separators.
pub open spec fn fragments(t: Seq<char>) -> nat {
    if atom_count(t) == 0 {
        0
    } else {
        1 + char_count(t, '.')
    }
}

/// The atom written at `p` (an atom start outside brackets) is the atom of
/// index "atoms started before `p`", with the element and aromaticity that
/// a wildcard or an organic-subset symbol there gives, or with what a
/// bracket atom there writes (see [`bracket_atom_ok`]).
pub open spec fn written_atom_ok(m: Molecule, s: Seq<char>, p: int) -> bool {
    let k = atom_count(s.take(p)) as int;
    &&& k < m.atoms@.len()
    &&& (s[p] == '*' ==> m.atoms@[k].element == 0 && !m.atoms@[k].aromatic)
    &&& (organic_initial(s[p]) ==> (organic_in(s, p) matches Some((z, arom, _)) && m.atoms@[k].element
        == z && m.atoms@[k].aromatic == arom))
    &&& (s[p] == '[' ==> bracket_atom_ok(m.atoms@[k], s, p))
}

/// Every atom written before `upto` is in the graph as written.
pub open spec fn atoms_as_written(m: Molecule, s: Seq<char>, upto: int) -> bool {
    forall|p: int|
        0 <= p < upto && !in_bracket(s.take(p)) && atom_start(s[p]) ==> #[trigger] written_atom_ok(
            m,
            s,
            p,
        )
}

/// An atom index as an integer, if there is one.
pub open spec fn opt_int(o: Option<usize>) -> Option<int> {
    match o {
        Some(a) => Some(a as int),
        None => None,
    }
}

/// The branch points held by the parser, as atom indices.
pub open spec fn branch_atoms(b: Seq<(usize, usize)>) -> Seq<int> {
    Seq::new(b.len(), |i: int| b[i].0 as int)
}

/// The atom written at `p` is bonded, by a bond that closes no ring, to the
/// atom it attaches to (see [`attachment`]), if any; an explicit order
/// symbol just before the atom gives that bond its order.
pub open spec fn chain_bond_ok(m: Molecule, s: Seq<char>, p: int) -> bool {
    match attachment(s.take(p)).0 {
        Some(a) => exists|b: int|
            0 <= b < m.bonds@.len() && (#[trigger] m.bonds@[b]).source == a && m.bonds@[b].dest
                == atom_count(s.take(p)) && !m.bonds@[b].ring && (p >= 1 && order_symbol(s[p - 1])
                is Some ==> m.bonds@[b].bond_order == order_symbol(s[p - 1])->0 && !m.bonds@[b].arom),
        None => true,
    }
}

/// Every atom written before `upto` is bonded to the atom it attaches to.
pub open spec fn atoms_bonded_as_written(m: Molecule, s: Seq<char>, upto: int) -> bool {
    forall|p: int|
        0 <= p < upto && !in_bracket(s.take(p)) && atom_start(s[p]) ==> #[trigger] chain_bond_ok(
            m,
            s,
            p,
        )
}

/// `m1` holds the bonds of `m0` at the same indices, and maybe more.
pub open spec fn bonds_kept(m0: Molecule, m1: Molecule) -> bool {
    &&& m0.bonds@.len() <= m1.bonds@.len()
    &&& forall|i: int| 0 <= i < m0.bonds@.len() ==> #[trigger] m1.bonds@[i] == m0.bonds@[i]
}

/// `m1` keeps the atoms of `m0` with their elements, aromaticity, mass
/// numbers, charges and configurations.
pub open spec fn same_identity(m0: Molecule, m1: Molecule) -> bool {
    &&& m0.atoms@.len() <= m1.atoms@.len()
    &&& forall|k: int|
        0 <= k < m0.atoms@.len() ==> (#[trigger] m1.atoms@[k]).element == m0.atoms@[k].element
            && m1.atoms@[k].aromatic == m0.atoms@[k].aromatic && m1.atoms@[k].isotope
            == m0.atoms@[k].isotope && m1.atoms@[k].f_charge == m0.atoms@[k].f_charge
            && m1.atoms@[k].configuration == m0.atoms@[k].configuration
}

/// The order an explicit bond symbol writes: `-`, `=`, `#`, `$`.
pub open spec fn order_symbol(c: char) -> Option<u8> {
    if c == '-' {
        Some(1u8)
    } else if c == '=' {
        Some(2u8)
    } else if c == '#' {
        Some(3u8)
    } else if c == '$' {
        Some(4u8)
    } else {
        None
    }
}

/// The order and aromatic flag of a bond written with `sym` (or with no
/// symbol), given whether both ends are aromatic and the current value of
/// the alternating aromatic order.
pub open spec fn order_of(sym: Option<BondType>, both_aromatic: bool, alt: u8) -> (u8, bool) {
    match sym {
        Some(BondType::Single) => (1, false),
        Some(BondType::Double) => (2, false),
        Some(BondType::Triple) => (3, false),
        Some(BondType::Quadruple) => (4, false),
        Some(BondType::Aromatic) => (alt, true),
        Some(_) => (1, false),
        None => if both_aromatic {
            (alt, true)
        } else {
            (1, false)
        },
    }
}

/// Gives the order and aromatic flag of a new bond. Aromatic bonds take
/// orders 1 and 2 in turn: a simplification of Kekulé assignment that can
/// misassign fused or odd-membered aromatic rings.
fn bond_order_for(sym: Option<BondType>, both_aromatic: bool, alt: &mut u8) -> (r: (u8, bool))
    requires
        *old(alt) == 1 || *old(alt) == 2,
    ensures
        r == order_of(sym, both_aromatic, *old(alt)),
        *final(alt) == if r.1 {
            3 - *old(alt)
        } else {
            *old(alt) as int
        },
        1 <= r.0 <= 4,
{
    let r = match sym {
        Some(BondType::Single) => (1, false),
        Some(BondType::Double) => (2, false),
        Some(BondType::Triple) => (3, false),
        Some(BondType::Quadruple) => (4, false),
        Some(BondType::Aromatic) => (*alt, true),
        Some(_) => (1, false),
        None => if both_aromatic {
            (*alt, true)
        } else {
            (1, false)
        },
    };
    if r.1 {
        *alt = 3 - *alt;
    }
    r
}

/// Recomputes the hydrogen count of atom `a` from its bonds.
fn refresh_hydrogens(mol: &mut Molecule, a: usize)
    requires
        old(mol).wf(),
        a < old(mol).atoms@.len(),
    ensures
        final(mol).wf(),
        final(mol).bonds@ == old(mol).bonds@,
        final(mol).atoms@.len() == old(mol).atoms@.len(),
        final(mol).hydrogen_ok(a as int),
        final(mol).atoms@[a as int].aromatic == old(mol).atoms@[a as int].aromatic,
        final(mol).atoms@[a as int].element == old(mol).atoms@[a as int].element,
        final(mol).atoms@[a as int].isotope == old(mol).atoms@[a as int].isotope,
        final(mol).atoms@[a as int].f_charge == old(mol).atoms@[a as int].f_charge,
        final(mol).atoms@[a as int].configuration == old(mol).atoms@[a as int].configuration,
        forall|b: int| 0 <= b < old(mol).atoms@.len() && b != a ==> #[trigger] final(mol).atoms@[b]
            == old(mol).atoms@[b],
{
    let h = mol.derived_hydrogens(a);
    mol.h_count_update(a, h);
}

/// Adds a bond from `p` to `cur` written with `sym` and `axial`, and
/// recomputes the hydrogen counts of both ends.
fn connect(
    mol: &mut Molecule,
    p: usize,
    cur: usize,
    sym: Option<BondType>,
    axial: Axialness,
    ring: bool,
    alt: &mut u8,
)
    requires
        old(mol).wf(),
        old(mol).hydrogens_derived(),
        p < old(mol).atoms@.len(),
        cur < old(mol).atoms@.len(),
        p != cur,
        *old(alt) == 1 || *old(alt) == 2,
    ensures
        final(mol).wf(),
        final(mol).hydrogens_derived(),
        final(mol).atoms@.len() == old(mol).atoms@.len(),
        final(mol).bonds@.len() == old(mol).bonds@.len() + 1,
        ring_bond_count(final(mol).bonds@) == ring_bond_count(old(mol).bonds@) + if ring {
            1nat
        } else {
            0nat
        },
        same_identity(*old(mol), *final(mol)),
        final(mol).bonds@.drop_last() == old(mol).bonds@,
        final(mol).bonds@.last().source == p,
        final(mol).bonds@.last().dest == cur,
        final(mol).bonds@.last().ring == ring,
        (final(mol).bonds@.last().bond_order, final(mol).bonds@.last().arom) == order_of(
            sym,
            old(mol).atoms@[p as int].aromatic && old(mol).atoms@[cur as int].aromatic,
            *old(alt),
        ),
        ring_pairs(final(mol).bonds@) == if ring {
            ring_pairs(old(mol).bonds@).push((p as int, cur as int))
        } else {
            ring_pairs(old(mol).bonds@)
        },
        *final(alt) == 1 || *final(alt) == 2,
{
    let both = mol.atoms[p].aromatic && mol.atoms[cur].aromatic;
    let (order, arom) = bond_order_for(sym, both, alt);
    let ghost m0 = *mol;
    mol.add_bond(Bond { source: p, dest: cur, arom, ring, bond_order: order, axialness: axial });
    let ghost m1 = *mol;
    proof {
        assert(m1.bonds@.drop_last() =~= m0.bonds@);
        assert forall|b: int| 0 <= b < m1.atoms@.len() && b != p && b != cur implies #[trigger] m1.hydrogen_ok(b) by {
            assert(m0.hydrogen_ok(b));
        }
    }
    refresh_hydrogens(mol, p);
    let ghost m2 = *mol;
    proof {
        assert forall|b: int| 0 <= b < m2.atoms@.len() && b != cur implies #[trigger] m2.hydrogen_ok(b) by {
            if b != p {
                assert(m1.hydrogen_ok(b));
            }
        }
    }
    refresh_hydrogens(mol, cur);
    proof {
        assert forall|b: int| 0 <= b < mol.atoms@.len() implies #[trigger] mol.hydrogen_ok(b) by {
            if b != cur {
                assert(m2.hydrogen_ok(b));
            }
        }
    }
}

/// A pending ring-closure slot: the atom that opened it and the bond
/// symbol written there.
pub type RingSlot = Option<(usize, Option<BondType>)>;

/// The parser's open ring slots hold the atoms that the ring marks read so
/// far hold open.
pub open spec fn slots_match(pending: Seq<RingSlot>, open: Seq<Option<int>>) -> bool {
    &&& pending.len() == 100
    &&& open.len() == 100
    &&& forall|n: int|
        0 <= n < 100 ==> ((#[trigger] pending[n]) is Some) == (open[n] is Some) && (pending[n] is Some
            ==> (pending[n]->0).0 as int == open[n]->0)
}

/// The atoms holding each ring number open, as the parser's slots say.
pub open spec fn open_of(pending: Seq<RingSlot>) -> Seq<Option<int>> {
    Seq::new(
        pending.len(),
        |n: int|
            match pending[n] {
                Some((o, _)) => Some(o as int),
                None => None,
            },
    )
}

/// What reading a ring mark at `q` gives: nothing when no mark is there,
/// else its number and where it ends (a bond symbol may stand before it),
/// or the error for `%` without two digits.
pub open spec fn ring_mark_in(t: Seq<char>, q: int) -> Result<Option<(int, int)>, Error> {
    let next_mark = (char_at(t, q + 1) is Some && is_digit(char_at(t, q + 1)->0)) || char_at(t, q + 1)
        == Some('%');
    let q1 = if next_mark && char_at(t, q) is Some && bond_type_of(char_at(t, q)->0) is Some {
        q + 1
    } else {
        q
    };
    if char_at(t, q1) is Some && is_digit(char_at(t, q1)->0) {
        Ok(Some((digit_value(char_at(t, q1)->0), q1 + 1)))
    } else if char_at(t, q1) == Some('%') {
        if char_at(t, q1 + 1) is Some && is_digit(char_at(t, q1 + 1)->0) && char_at(t, q1 + 2) is Some
            && is_digit(char_at(t, q1 + 2)->0) {
            Ok(
                Some(
                    (
                        digit_value(char_at(t, q1 + 1)->0) * 10 + digit_value(char_at(t, q1 + 2)->0),
                        q1 + 3,
                    ),
                ),
            )
        } else {
            Err(Error::InvalidNumber(q1 as usize))
        }
    } else {
        Ok(None)
    }
}

/// What reading the ring marks after atom `cur` from `q` gives: where they
/// end and the ring slots after them, or the error; a mark may not close a
/// ring on the atom that opened it.
pub open spec fn rings_in(t: Seq<char>, q: int, cur: int, open: Seq<Option<int>>) -> Result<
    (int, Seq<Option<int>>),
    Error,
>
    decreases t.len() - q,
{
    match ring_mark_in(t, q) {
        Err(e) => Err(e),
        Ok(None) => Ok((q, open)),
        Ok(Some((n, end))) => if !(q < end <= t.len()) || !(0 <= n < open.len()) {
            Err(Error::EndOfLine)
        } else if open[n] == Some(cur) {
            Err(Error::InvalidNumber(q as usize))
        } else {
            rings_in(
                t,
                end,
                cur,
                open.update(
                    n,
                    if open[n] is Some {
                        None
                    } else {
                        Some(cur)
                    },
                ),
            )
        },
    }
}

/// What reading one atom step at `p` gives (bond symbol, atom, ring marks),
/// with `cur` the new atom's index: where it ends and the ring slots after
/// it, or the error. A bond symbol needs an atom before it.
pub open spec fn step_in(t: Seq<char>, p: int, prev_some: bool, cur: int, open: Seq<Option<int>>) -> Result<
    (int, Seq<Option<int>>),
    Error,
> {
    let b1 = if char_at(t, p) is Some && bond_type_of(char_at(t, p)->0) is Some {
        p + 1
    } else {
        p
    };
    let a1 = if char_at(t, b1) == Some('/') || char_at(t, b1) == Some('\\') {
        b1 + 1
    } else {
        b1
    };
    if !prev_some && a1 > p {
        Err(Error::Character(p as usize))
    } else {
        match atom_result(t, a1) {
            Err(e) => Err(e),
            Ok(end) => rings_in(t, end, cur, open),
        }
    }
}

/// The first open ring number from `k` on.
pub open spec fn first_open(open: Seq<Option<int>>, k: int) -> Option<int>
    decreases open.len() - k,
{
    if k < 0 || k >= open.len() {
        None
    } else if open[k] is Some {
        Some(k)
    } else {
        first_open(open, k + 1)
    }
}

/// What parsing the text from `pos` on gives, with `n_atoms` atoms read,
/// whether an atom is there to attach to, the positions of the open `(`,
/// and the ring slots: `Ok` when the rest reads, else the first error.
pub open spec fn smiles_run(
    t: Seq<char>,
    pos: int,
    n_atoms: int,
    prev_some: bool,
    branches: Seq<int>,
    open: Seq<Option<int>>,
) -> Result<(), Error>
    decreases t.len() - pos,
{
    if pos < 0 || pos >= t.len() {
        if branches.len() > 0 {
            Err(Error::UnclosedBranch(branches.last() as usize))
        } else {
            match first_open(open, 0) {
                Some(n) => Err(Error::UnclosedRing(n as u8)),
                None => Ok(()),
            }
        }
    } else if t[pos] == '(' {
        if !prev_some {
            Err(Error::EmptyBranch(pos as usize))
        } else {
            smiles_run(t, pos + 1, n_atoms, true, branches.push(pos), open)
        }
    } else if t[pos] == ')' {
        if branches.len() == 0 {
            Err(Error::UnmatchedBranch(pos as usize))
        } else {
            smiles_run(t, pos + 1, n_atoms, true, branches.drop_last(), open)
        }
    } else if t[pos] == '.' && !prev_some {
        Err(Error::EmptyBranch(pos as usize))
    } else {
        let dot = t[pos] == '.';
        let p = if dot {
            pos + 1
        } else {
            pos
        };
        match step_in(t, p, prev_some && !dot, n_atoms, open) {
            Err(e) => Err(e),
            Ok((q, open2)) => if pos < q <= t.len() {
                smiles_run(t, q, n_atoms + 1, true, branches, open2)
            } else {
                Err(Error::EndOfLine)
            },
        }
    }
}

/// The positions of the parser's open `(`.
pub open spec fn branch_pos(b: Seq<(usize, usize)>) -> Seq<int> {
    Seq::new(b.len(), |i: int| b[i].1 as int)
}

pub proof fn lemma_first_open_at(open: Seq<Option<int>>, i: int, k: int)
    requires
        0 <= i <= k < open.len(),
        forall|j: int| i <= j < k ==> (#[trigger] open[j]) is None,
        open[k] is Some,
    ensures
        first_open(open, i) == Some(k),
    decreases k - i,
{
    if i < k {
        lemma_first_open_at(open, i + 1, k);
    }
}

pub proof fn lemma_first_open_none(open: Seq<Option<int>>, i: int)
    requires
        0 <= i <= open.len(),
        forall|j: int| i <= j < open.len() ==> (#[trigger] open[j]) is None,
    ensures
        first_open(open, i) is None,
    decreases open.len() - i,
{
    if i < open.len() {
        lemma_first_open_none(open, i + 1);
    }
}

/// What parsing the whole text gives: `Ok` exactly for valid line
/// notation, else the first error met reading left to right.
pub open spec fn smiles_result(t: Seq<char>) -> Result<(), Error> {
    smiles_run(t, 0, 0, false, Seq::empty(), no_rings_open())
}

/// A hundred ring numbers, none open.
pub open spec fn no_rings_open() -> Seq<Option<int>> {
    Seq::new(100, |n: int| None)
}

/// The number of open ring closures.
pub open spec fn open_count(p: Seq<RingSlot>) -> nat
    decreases p.len(),
{
    if p.len() == 0 {
        0
    } else {
        open_count(p.drop_last()) + if p.last() is Some {
            1nat
        } else {
            0nat
        }
    }
}

proof fn lemma_open_count_update(p: Seq<RingSlot>, i: int, x: RingSlot)
    requires
        0 <= i < p.len(),
    ensures
        open_count(p.update(i, x)) + (if p[i] is Some { 1nat } else { 0nat }) == open_count(p) + (
        if x is Some {
            1nat
        } else {
            0nat
        }),
    decreases p.len(),
{
    let q = p.update(i, x);
    if i == p.len() - 1 {
        assert(q.drop_last() =~= p.drop_last());
    } else {
        lemma_open_count_update(p.drop_last(), i, x);
        assert(q.drop_last() =~= p.drop_last().update(i, x));
    }
}

proof fn lemma_open_count_zero(p: Seq<RingSlot>)
    requires
        forall|i: int| 0 <= i < p.len() ==> (#[trigger] p[i]) is None,
    ensures
        open_count(p) == 0,
    decreases p.len(),
{
    if p.len() > 0 {
        lemma_open_count_zero(p.drop_last());
    }
}

proof fn lemma_take_push(s: Seq<char>, p: int)
    requires
        0 <= p < s.len(),
    ensures
        s.take(p + 1) == s.take(p).push(s[p]),
{
    assert(s.take(p + 1) =~= s.take(p).push(s[p]));
}

proof fn lemma_take_concat(s: Seq<char>, p: int, q: int)
    requires
        0 <= p <= q <= s.len(),
    ensures
        s.take(q) == s.take(p) + s.subrange(p, q),
{
    assert(s.take(q) =~= s.take(p) + s.subrange(p, q));
}

/// An atom adds one to the atom count and leaves the other counts.
proof fn lemma_atom_chunk(t: Seq<char>, u: Seq<char>)
    requires
        !in_bracket(t),
        atom_chunk(u),
        ring_marks(t).1 is None,
    ensures
        ring_marks(t + u) == ring_marks(t),
        !in_bracket(t + u),
        atom_count(t + u) == atom_count(t) + 1,
        ring_digit_count(t + u) == ring_digit_count(t),
        char_count(t + u, '(') == char_count(t, '('),
        char_count(t + u, ')') == char_count(t, ')'),
        char_count(t + u, '.') == char_count(t, '.'),
        char_count(t + u, '%') == char_count(t, '%'),
        attachment(t + u) == (Some(atom_count(t) as int), attachment(t).1),
{
    if u.len() == 1 {
        assert(t + u =~= t.push(u[0]));
        lemma_push(t, u[0]);
    } else if u.len() == 2 && u[0] != '[' {
        assert(t + u =~= t.push(u[0]).push(u[1]));
        lemma_push(t, u[0]);
        lemma_push(t.push(u[0]), u[1]);
    } else {
        let t1 = t.push('[');
        let v = u.subrange(1, u.len() - 1);
        lemma_push(t, '[');
        assert forall|i: int| 0 <= i < v.len() implies neutral_inside(#[trigger] v[i]) by {
            assert(v[i] == u[i + 1]);
        }
        lemma_neutral_inside(t1, v);
        lemma_ring_marks_inside(t1, v);
        assert(t + u =~= (t1 + v).push(']'));
        lemma_push(t1 + v, ']');
    }
}

/// Past the `[` of a bracket atom, up to its `]`, the text is inside
/// brackets.
proof fn lemma_bracket_prefix(t: Seq<char>, u: Seq<char>, i: int)
    requires
        !in_bracket(t),
        u.len() >= 3,
        u[0] == '[',
        forall|j: int| 0 < j < u.len() - 1 ==> field_char(#[trigger] u[j]),
        0 < i < u.len(),
    ensures
        in_bracket(t + u.take(i)),
    decreases i,
{
    if i == 1 {
        assert(t + u.take(1) =~= t.push('['));
        lemma_push(t, '[');
    } else {
        lemma_bracket_prefix(t, u, i - 1);
        assert(t + u.take(i) =~= (t + u.take(i - 1)).push(u[i - 1]));
        lemma_push(t + u.take(i - 1), u[i - 1]);
        assert(field_char(u[i - 1]));
    }
}

/// Inside an atom's text no second atom starts.
proof fn lemma_chunk_positions(t: Seq<char>, u: Seq<char>, i: int)
    requires
        !in_bracket(t),
        atom_chunk(u),
        0 < i < u.len(),
    ensures
        !(!in_bracket(t + u.take(i)) && atom_start(u[i])),
{
    if u.len() >= 3 && u[0] == '[' {
        lemma_bracket_prefix(t, u, i);
    }
}

/// Sets the ring flag of atom `a`.
fn mark_ring(mol: &mut Molecule, a: usize)
    requires
        old(mol).wf(),
        old(mol).hydrogens_derived(),
        a < old(mol).atoms@.len(),
    ensures
        final(mol).wf(),
        final(mol).hydrogens_derived(),
        final(mol).bonds@ == old(mol).bonds@,
        final(mol).atoms@.len() == old(mol).atoms@.len(),
        same_identity(*old(mol), *final(mol)),
{
    let ghost m0 = *mol;
    mol.flag_ring(a);
    proof {
        assert forall|b: int| 0 <= b < mol.atoms@.len() implies #[trigger] mol.hydrogen_ok(b) by {
            assert(m0.hydrogen_ok(b));
        }
    }
}

/// The parse state a ring-mark reader keeps: graph well formed, hydrogens
/// derived, open slots pointing at existing atoms.
pub open spec fn ring_state(mol: Molecule, pending: Seq<RingSlot>) -> bool {
    &&& mol.wf()
    &&& mol.hydrogens_derived()
    &&& pending.len() == 100
    &&& forall|i: int| 0 <= i < 100 && (#[trigger] pending[i]) is Some ==> ((pending[i]->0).0 as int) < mol.atoms@.len()
}

/// Reads one ring-closure mark, optionally preceded by a bond symbol, and
/// gives its number and symbol; nothing is read when no mark is next.
fn read_ring_mark(scanner: &mut Scanner) -> (r: Result<Option<(u8, Option<BondType>)>, Error>)
    requires
        old(scanner).wf(),
        !in_bracket(old(scanner).text().take(old(scanner).pos())),
        ring_marks(old(scanner).text().take(old(scanner).pos())).1 is None,
    ensures
        advanced(*old(scanner), *final(scanner)),
        forall|p: int|
            old(scanner).pos() <= p < final(scanner).pos() ==> !atom_start(#[trigger] old(scanner).text()[p]),
        r matches Ok(None) ==> final(scanner).pos() == old(scanner).pos(),
        match ring_mark_in(old(scanner).text(), old(scanner).pos()) {
            Ok(None) => r matches Ok(None),
            Ok(Some((n, end))) => (r matches Ok(Some((m, _))) && m as int == n) && final(scanner).pos()
                == end,
            Err(e) => r == Err::<Option<(u8, Option<BondType>)>, Error>(e),
        },
        r matches Ok(Some((n, _))) ==> ({
            let s = old(scanner).text();
            let t0 = s.take(old(scanner).pos());
            let t1 = s.take(final(scanner).pos());
            &&& n < 100
            &&& final(scanner).pos() > old(scanner).pos()
            &&& !in_bracket(t1)
            &&& atom_count(t1) == atom_count(t0)
            &&& char_count(t1, '(') == char_count(t0, '(')
            &&& char_count(t1, ')') == char_count(t0, ')')
            &&& char_count(t1, '.') == char_count(t0, '.')
            &&& ring_mark_count(t1) == ring_mark_count(t0) + 1
            &&& attachment(t1) == attachment(t0)
            &&& ring_marks(t1) == ring_mark(ring_marks(t0), n as int, atom_count(t0) - 1)
            &&& is_digit(s[final(scanner).pos() - 1])
        }),
{
    let ghost s = scanner.text();
    let ghost pa = scanner.pos();
    let next_mark = peek_digit_ahead(scanner, 1).is_some() || scanner.peek_ahead(1) == Some('%');
    let sym = if next_mark {
        read_bond(scanner)
    } else {
        None
    };
    let ghost pb = scanner.pos();
    proof {
        if sym is Some {
            lemma_take_push(s, pa);
            lemma_push(s.take(pa), s[pa]);
        }
    }
    if let Some(d) = peek_digit(scanner) {
        scanner.pop();
        proof {
            lemma_take_push(s, pb);
            lemma_push(s.take(pb), s[pb]);
        }
        return Ok(Some((d, sym)));
    }
    if scanner.peek() == Some('%') {
        let mark_pos = scanner.cursor();
        match (peek_digit_ahead(scanner, 1), peek_digit_ahead(scanner, 2)) {
            (Some(a), Some(b)) => {
                scanner.pop();
                scanner.pop();
                scanner.pop();
                proof {
                    lemma_take_push(s, pb);
                    lemma_push(s.take(pb), s[pb]);
                    lemma_take_push(s, pb + 1);
                    lemma_push(s.take(pb + 1), s[pb + 1]);
                    lemma_take_push(s, pb + 2);
                    lemma_push(s.take(pb + 2), s[pb + 2]);
                }
                return Ok(Some((a * 10 + b, sym)));
            },
            _ => return Err(Error::InvalidNumber(mark_pos)),
        }
    }
    Ok(None)
}

/// Opens ring number `number` at `cur`, or closes it with a ring bond from
/// the atom that opened it.
fn apply_ring_mark(
    mol: &mut Molecule,
    pending: &mut Vec<RingSlot>,
    cur: usize,
    number: u8,
    sym: Option<BondType>,
    mark_pos: usize,
    alt: &mut u8,
    marks: Ghost<RingMarks>,
) -> (r: Result<(), Error>)
    requires
        ring_state(*old(mol), old(pending)@),
        slots_match(old(pending)@, marks@.0),
        ring_pairs(old(mol).bonds@) == marks@.2,
        cur < old(mol).atoms@.len(),
        number < 100,
        *old(alt) == 1 || *old(alt) == 2,
    ensures
        (r is Err) == (open_of(old(pending)@)[number as int] == Some(cur as int)),
        r is Err ==> r == Err::<(), Error>(Error::InvalidNumber(mark_pos)),
        r is Ok ==> open_of(final(pending)@) == open_of(old(pending)@).update(
            number as int,
            if open_of(old(pending)@)[number as int] is Some {
                None
            } else {
                Some(cur as int)
            },
        ),
        r is Ok ==> ({
            &&& ring_state(*final(mol), final(pending)@)
            &&& final(mol).atoms@.len() == old(mol).atoms@.len()
            &&& same_identity(*old(mol), *final(mol))
            &&& bonds_kept(*old(mol), *final(mol))
            &&& slots_match(final(pending)@, ring_mark(marks@, number as int, cur as int).0)
            &&& ring_pairs(final(mol).bonds@) == ring_mark(marks@, number as int, cur as int).2
            &&& (*final(alt) == 1 || *final(alt) == 2)
            &&& open_count(final(pending)@) + 2 * ring_bond_count(final(mol).bonds@) == open_count(
                old(pending)@,
            ) + 2 * ring_bond_count(old(mol).bonds@) + 1
            &&& final(mol).bonds@.len() - old(mol).bonds@.len() == ring_bond_count(final(mol).bonds@)
                - ring_bond_count(old(mol).bonds@)
        }),
{
    let ghost qb = pending@;
    let slot = pending[number as usize];
    match slot {
        Some((o, osym)) => {
            if o == cur {
                return Err(Error::InvalidNumber(mark_pos));
            }
            pending.set(number as usize, None);
            proof {
                lemma_open_count_update(qb, number as int, None);
                assert(open_of(pending@) =~= open_of(qb).update(number as int, None));
            }
            let bsym = if sym.is_some() {
                sym
            } else {
                osym
            };
            connect(mol, o, cur, bsym, Axialness::UNKNOWN, true, alt);
        },
        None => {
            pending.set(number as usize, Some((cur, sym)));
            proof {
                lemma_open_count_update(qb, number as int, Some((cur, sym)));
                assert(open_of(pending@) =~= open_of(qb).update(number as int, Some(cur as int)));
            }
        },
    }
    mark_ring(mol, cur);
    Ok(())
}

/// Reads the ring-closure marks that follow atom `cur`: a digit or `%` and
/// two digits, each optionally preceded by a bond symbol. The first mark of
/// a number opens it at `cur`; the second closes it with a ring bond.
fn read_ring_marks(
    scanner: &mut Scanner,
    mol: &mut Molecule,
    pending: &mut Vec<RingSlot>,
    cur: usize,
    alt: &mut u8,
) -> (r: Result<(), Error>)
    requires
        old(scanner).wf(),
        ring_state(*old(mol), old(pending)@),
        cur < old(mol).atoms@.len(),
        *old(alt) == 1 || *old(alt) == 2,
        !in_bracket(old(scanner).text().take(old(scanner).pos())),
        cur == atom_count(old(scanner).text().take(old(scanner).pos())) - 1,
        ring_marks(old(scanner).text().take(old(scanner).pos())).1 is None,
        slots_match(old(pending)@, ring_marks(old(scanner).text().take(old(scanner).pos())).0),
        ring_pairs(old(mol).bonds@) == ring_marks(old(scanner).text().take(old(scanner).pos())).2,
    ensures
        match rings_in(old(scanner).text(), old(scanner).pos(), cur as int, open_of(old(pending)@)) {
            Ok((q, o2)) => r is Ok && final(scanner).pos() == q && open_of(final(pending)@) == o2,
            Err(e) => r == Err::<(), Error>(e),
        },
        r is Ok ==> ({
            let s = old(scanner).text();
            let t0 = s.take(old(scanner).pos());
            let t1 = s.take(final(scanner).pos());
            &&& advanced(*old(scanner), *final(scanner))
            &&& ring_state(*final(mol), final(pending)@)
            &&& final(mol).atoms@.len() == old(mol).atoms@.len()
            &&& same_identity(*old(mol), *final(mol))
            &&& bonds_kept(*old(mol), *final(mol))
            &&& forall|p: int| old(scanner).pos() <= p < final(scanner).pos() ==> !atom_start(#[trigger] s[p])
            &&& (*final(alt) == 1 || *final(alt) == 2)
            &&& !in_bracket(t1)
            &&& atom_count(t1) == atom_count(t0)
            &&& char_count(t1, '(') == char_count(t0, '(')
            &&& char_count(t1, ')') == char_count(t0, ')')
            &&& char_count(t1, '.') == char_count(t0, '.')
            &&& ring_mark_count(t1) - ring_mark_count(t0) == (open_count(final(pending)@) + 2
                * ring_bond_count(final(mol).bonds@)) - (open_count(old(pending)@) + 2 * ring_bond_count(
                old(mol).bonds@,
            ))
            &&& final(mol).bonds@.len() - old(mol).bonds@.len() == ring_bond_count(final(mol).bonds@)
                - ring_bond_count(old(mol).bonds@)
            &&& attachment(t1) == attachment(t0)
            &&& ring_marks(t1).1 is None
            &&& slots_match(final(pending)@, ring_marks(t1).0)
            &&& ring_pairs(final(mol).bonds@) == ring_marks(t1).2
            &&& (final(scanner).pos() > old(scanner).pos() ==> is_digit(s[final(scanner).pos() - 1]))
        }),
{
    let ghost s = scanner.text();
    let ghost at0 = scanner.pos();
    let ghost m0 = *mol;
    let ghost q0 = pending@;
    let mut stop = false;
    while !stop
        invariant
            scanner.wf(),
            scanner.text() == s,
            at0 <= scanner.pos(),
            ring_state(*mol, pending@),
            cur < mol.atoms@.len(),
            mol.atoms@.len() == m0.atoms@.len(),
            same_identity(m0, *mol),
            bonds_kept(m0, *mol),
            forall|p: int| at0 <= p < scanner.pos() ==> !atom_start(#[trigger] s[p]),
            *alt == 1 || *alt == 2,
            !in_bracket(s.take(scanner.pos())),
            atom_count(s.take(scanner.pos())) == atom_count(s.take(at0)),
            char_count(s.take(scanner.pos()), '(') == char_count(s.take(at0), '('),
            char_count(s.take(scanner.pos()), ')') == char_count(s.take(at0), ')'),
            char_count(s.take(scanner.pos()), '.') == char_count(s.take(at0), '.'),
            attachment(s.take(scanner.pos())) == attachment(s.take(at0)),
            cur == atom_count(s.take(at0)) - 1,
            ring_marks(s.take(scanner.pos())).1 is None,
            slots_match(pending@, ring_marks(s.take(scanner.pos())).0),
            ring_pairs(mol.bonds@) == ring_marks(s.take(scanner.pos())).2,
            ring_mark_count(s.take(scanner.pos())) - ring_mark_count(s.take(at0)) == (open_count(
                pending@,
            ) + 2 * ring_bond_count(mol.bonds@)) - (open_count(q0) + 2 * ring_bond_count(m0.bonds@)),
            mol.bonds@.len() - m0.bonds@.len() == ring_bond_count(mol.bonds@) - ring_bond_count(
                m0.bonds@,
            ),
            scanner.pos() > at0 ==> is_digit(s[scanner.pos() - 1]),
            rings_in(s, scanner.pos(), cur as int, open_of(pending@)) == rings_in(s, at0, cur as int, open_of(q0)),
            s == old(scanner).text(),
            at0 == old(scanner).pos(),
            q0 == old(pending)@,
            stop ==> rings_in(s, scanner.pos(), cur as int, open_of(pending@)) == Ok::<
                (int, Seq<Option<int>>),
                Error,
            >((scanner.pos(), open_of(pending@))),
        decreases s.len() - scanner.pos(), if stop {
            0int
        } else {
            1int
        },
    {
        let mark_pos = scanner.cursor();
        let ghost marks = ring_marks(s.take(scanner.pos()));
        match read_ring_mark(scanner)? {
            Some((number, sym)) => {
                apply_ring_mark(mol, pending, cur, number, sym, mark_pos, alt, Ghost(marks))?;
            },
            None => {
                stop = true;
            },
        }
    }
    Ok(())
}

/// One atom step keeps every atom written so far as written and bonded as
/// written, and adds the atom written at `at1`.
#[verifier::rlimit(60)]
proof fn lemma_step_written(
    s: Seq<char>,
    at0: int,
    at1: int,
    at2: int,
    at3: int,
    m0: Molecule,
    m3: Molecule,
    cur: int,
    prev: Option<int>,
    written: Atom,
)
    requires
        0 <= at0 <= at1 < at2 <= at3 <= s.len(),
        !in_bracket(s.take(at1)),
        atom_chunk(s.subrange(at1, at2)),
        forall|p: int| at0 <= p < at1 ==> !atom_start(#[trigger] s[p]),
        forall|p: int| at2 <= p < at3 ==> !atom_start(#[trigger] s[p]),
        atom_count(s.take(at1)) == cur,
        cur == m0.atoms@.len(),
        attachment(s.take(at1)).0 == prev,
        atoms_as_written(m0, s, at0),
        atoms_bonded_as_written(m0, s, at0),
        same_identity(m0, m3),
        bonds_kept(m0, m3),
        m3.atoms@.len() == cur + 1,
        m3.atoms@[cur].element == written.element,
        m3.atoms@[cur].aromatic == written.aromatic,
        m3.atoms@[cur].isotope == written.isotope,
        m3.atoms@[cur].f_charge == written.f_charge,
        m3.atoms@[cur].configuration == written.configuration,
        s[at1] == '*' ==> written.element == 0 && !written.aromatic,
        organic_initial(s[at1]) ==> (organic_in(s, at1) matches Some((z, arom, _)) && written.element == z
            && written.aromatic == arom),
        s[at1] == '[' ==> bracket_atom_ok(written, s, at1),
        prev matches Some(a) ==> {
            &&& m0.bonds@.len() < m3.bonds@.len()
            &&& m3.bonds@[m0.bonds@.len() as int].source == a
            &&& m3.bonds@[m0.bonds@.len() as int].dest == cur
            &&& !m3.bonds@[m0.bonds@.len() as int].ring
            &&& (at1 >= 1 && order_symbol(s[at1 - 1]) is Some ==> m3.bonds@[m0.bonds@.len() as int].bond_order
                == order_symbol(s[at1 - 1])->0 && !m3.bonds@[m0.bonds@.len() as int].arom)
        },
    ensures
        atoms_as_written(m3, s, at3),
        atoms_bonded_as_written(m3, s, at3),
{
    assert forall|p: int|
        0 <= p < at3 && !in_bracket(s.take(p)) && atom_start(s[p]) implies #[trigger] chain_bond_ok(
        m3,
        s,
        p,
    ) by {
        if p < at0 {
            assert(chain_bond_ok(m0, s, p));
            if attachment(s.take(p)).0 is Some {
                let b = choose|b: int|
                    0 <= b < m0.bonds@.len() && (#[trigger] m0.bonds@[b]).source == attachment(s.take(p)).0->0
                        && m0.bonds@[b].dest == atom_count(s.take(p)) && !m0.bonds@[b].ring && (p >= 1
                        && order_symbol(s[p - 1]) is Some ==> m0.bonds@[b].bond_order == order_symbol(
                        s[p - 1],
                    )->0 && !m0.bonds@[b].arom);
                assert(m3.bonds@[b] == m0.bonds@[b]);
            }
        } else if p == at1 {
            if prev is Some {
                let b = m0.bonds@.len() as int;
                assert(m3.bonds@[b].source == prev->0);
                assert(m3.bonds@[b].dest == atom_count(s.take(p)));
            }
        } else if at1 < p < at2 {
            let u = s.subrange(at1, at2);
            lemma_chunk_positions(s.take(at1), u, p - at1);
            assert(s.take(p) =~= s.take(at1) + u.take(p - at1));
            assert(s[p] == u[p - at1]);
        }
    }
    assert forall|p: int|
        0 <= p < at3 && !in_bracket(s.take(p)) && atom_start(s[p]) implies #[trigger] written_atom_ok(
        m3,
        s,
        p,
    ) by {
        if p < at0 {
            assert(written_atom_ok(m0, s, p));
        } else if p == at1 {
        } else if at1 < p < at2 {
            let u = s.subrange(at1, at2);
            lemma_chunk_positions(s.take(at1), u, p - at1);
            assert(s.take(p) =~= s.take(at1) + u.take(p - at1));
            assert(s[p] == u[p - at1]);
        }
    }
}

/// Reads one atom with the bond symbol before it and the ring marks after
/// it, adds it to the graph, and bonds it to `prev` when there is one.
#[verifier::rlimit(100)]
#[verifier::spinoff_prover]
fn atom_step(
    scanner: &mut Scanner,
    mol: &mut Molecule,
    pending: &mut Vec<RingSlot>,
    prev: Option<usize>,
    alt: &mut u8,
) -> (r: Result<usize, Error>)
    requires
        old(scanner).wf(),
        ring_state(*old(mol), old(pending)@),
        prev matches Some(p) ==> p < old(mol).atoms@.len(),
        *old(alt) == 1 || *old(alt) == 2,
        !in_bracket(old(scanner).text().take(old(scanner).pos())),
        atoms_as_written(*old(mol), old(scanner).text(), old(scanner).pos()),
        atoms_bonded_as_written(*old(mol), old(scanner).text(), old(scanner).pos()),
        old(mol).atoms@.len() == atom_count(old(scanner).text().take(old(scanner).pos())),
        opt_int(prev) == attachment(old(scanner).text().take(old(scanner).pos())).0,
        ring_marks(old(scanner).text().take(old(scanner).pos())).1 is None,
        slots_match(old(pending)@, ring_marks(old(scanner).text().take(old(scanner).pos())).0),
        ring_pairs(old(mol).bonds@) == ring_marks(old(scanner).text().take(old(scanner).pos())).2,
        old(scanner).pos() > 0 ==> order_symbol(old(scanner).text()[old(scanner).pos() - 1]) is None,
    ensures
        match step_in(
            old(scanner).text(),
            old(scanner).pos(),
            prev is Some,
            old(mol).atoms@.len() as int,
            open_of(old(pending)@),
        ) {
            Ok((q, o2)) => r == Ok::<usize, Error>(old(mol).atoms@.len() as usize) && final(scanner).pos()
                == q && open_of(final(pending)@) == o2,
            Err(e) => r == Err::<usize, Error>(e),
        },
        r matches Ok(cur) ==> ({
            let s = old(scanner).text();
            let t0 = s.take(old(scanner).pos());
            let t1 = s.take(final(scanner).pos());
            &&& advanced(*old(scanner), *final(scanner))
            &&& ring_state(*final(mol), final(pending)@)
            &&& cur == old(mol).atoms@.len()
            &&& final(mol).atoms@.len() == old(mol).atoms@.len() + 1
            &&& atoms_as_written(*final(mol), s, final(scanner).pos())
            &&& atoms_bonded_as_written(*final(mol), s, final(scanner).pos())
            &&& attachment(t1) == (Some(cur as int), attachment(t0).1)
            &&& ring_marks(t1).1 is None
            &&& slots_match(final(pending)@, ring_marks(t1).0)
            &&& ring_pairs(final(mol).bonds@) == ring_marks(t1).2
            &&& order_symbol(s[final(scanner).pos() - 1]) is None
            &&& (*final(alt) == 1 || *final(alt) == 2)
            &&& !in_bracket(t1)
            &&& atom_count(t1) == atom_count(t0) + 1
            &&& char_count(t1, '(') == char_count(t0, '(')
            &&& char_count(t1, ')') == char_count(t0, ')')
            &&& char_count(t1, '.') == char_count(t0, '.')
            &&& ring_mark_count(t1) - ring_mark_count(t0) == (open_count(final(pending)@) + 2
                * ring_bond_count(final(mol).bonds@)) - (open_count(old(pending)@) + 2 * ring_bond_count(
                old(mol).bonds@,
            ))
            &&& final(mol).bonds@.len() - old(mol).bonds@.len() == (if prev is Some {
                1int
            } else {
                0
            }) + ring_bond_count(final(mol).bonds@) - ring_bond_count(old(mol).bonds@)
        }),
{
    let ghost s = scanner.text();
    let ghost at0 = scanner.pos();
    let bpos = scanner.cursor();
    let sym = read_bond(scanner);
    let ghost atb = scanner.pos();
    let axial = read_axial(scanner);
    if prev.is_none() && (sym.is_some() || !matches!(axial, Axialness::UNKNOWN)) {
        return Err(Error::Character(bpos));
    }
    let ghost at1 = scanner.pos();
    proof {
        let u = s.subrange(at0, at1);
        assert forall|i: int| 0 <= i < u.len() implies neutral_outside(#[trigger] u[i]) by {
            assert(u[i] == s[at0 + i]);
        }
        lemma_neutral_outside(s.take(at0), u);
        lemma_ring_marks_outside(s.take(at0), u);
        lemma_take_concat(s, at0, at1);
    }
    let mut atom = parse_atom(scanner)?;
    let ghost at2 = scanner.pos();
    proof {
        lemma_atom_chunk(s.take(at1), s.subrange(at1, at2));
        lemma_take_concat(s, at1, at2);
    }
    let ghost written = atom;
    atom.hydrogens = valence_electrons(atom.element as usize) as u8;
    let ghost m0 = *mol;
    let cur = mol.add_atom(atom);
    proof {
        let m1 = *mol;
        assert(m1.atoms@[cur as int].outgoing_bond@ == incident(m1.bonds@, cur as int));
        assert(incident(m1.bonds@, cur as int).len() == 0);
        assert forall|b: int| 0 <= b < m1.atoms@.len() implies #[trigger] m1.hydrogen_ok(b) by {
            if b < cur {
                assert(m0.hydrogen_ok(b));
            }
        }
    }
    if let Some(p) = prev {
        connect(mol, p, cur, sym, axial, false, alt);
    }
    let ghost m2 = *mol;
    proof {
        if prev is Some {
            assert(m2.bonds@[m0.bonds@.len() as int] == m2.bonds@.last());
            if at1 >= 1 && order_symbol(s[at1 - 1]) is Some {
                if at1 > atb {
                    assert(s[atb] == s[at1 - 1]);
                } else if atb > at0 {
                    assert(s[at0] == s[at1 - 1]);
                }
            }
        }
        assert(bonds_kept(m0, m2));
    }
    read_ring_marks(scanner, mol, pending, cur, alt)?;
    proof {
        let at3 = scanner.pos();
        let m3 = *mol;
        assert(same_identity(m0, m3));
        assert(m3.atoms@[cur as int].element == written.element);
        assert(m3.atoms@[cur as int].aromatic == written.aromatic);
        assert(m3.atoms@[cur as int].isotope == written.isotope);
        assert(m3.atoms@[cur as int].f_charge == written.f_charge);
        assert(m3.atoms@[cur as int].configuration == written.configuration);
        assert(bonds_kept(m0, m3));
        assert forall|p: int| at0 <= p < at1 implies !atom_start(#[trigger] s[p]) by {
            assert(s[p] == s.subrange(at0, at1)[p - at0]);
        }
        lemma_step_written(s, at0, at1, at2, at3, m0, m3, cur as int, opt_int(prev), written);
        if at3 == at2 {
            let u = s.subrange(at1, at2);
            assert(s[at2 - 1] == u[u.len() - 1]);
        }
    }
    Ok(cur)
}

/// What the parser keeps between tokens of `s`, with the cursor at `sc`.
pub open spec fn parse_inv(
    s: Seq<char>,
    sc: Scanner,
    mol: Molecule,
    prev: Option<usize>,
    branches: Seq<(usize, usize)>,
    pending: Seq<RingSlot>,
    alt: u8,
) -> bool {
    let t = s.take(sc.pos());
    &&& sc.wf()
    &&& sc.text() == s
    &&& ring_state(mol, pending)
    &&& (alt == 1 || alt == 2)
    &&& !in_bracket(t)
    &&& mol.atoms@.len() == atom_count(t)
    &&& (prev is None) == (mol.atoms@.len() == 0)
    &&& (prev matches Some(p) ==> p < mol.atoms@.len())
    &&& (mol.atoms@.len() == 0 ==> char_count(t, '.') == 0)
    &&& (forall|k: int| 0 <= k < branches.len() ==> (#[trigger] branches[k]).0 < mol.atoms@.len())
    &&& char_count(t, '(') == char_count(t, ')') + branches.len()
    &&& mol.bonds@.len() + fragments(t) == mol.atoms@.len() + ring_bond_count(mol.bonds@)
    &&& ring_mark_count(t) == open_count(pending) + 2 * ring_bond_count(mol.bonds@)
    &&& atoms_as_written(mol, s, sc.pos())
    &&& atoms_bonded_as_written(mol, s, sc.pos())
    &&& opt_int(prev) == attachment(t).0
    &&& branch_atoms(branches) == attachment(t).1
    &&& ring_marks(t).1 is None
    &&& slots_match(pending, ring_marks(t).0)
    &&& ring_pairs(mol.bonds@) == ring_marks(t).2
    &&& (sc.pos() > 0 ==> order_symbol(s[sc.pos() - 1]) is None)
    &&& smiles_run(s, sc.pos(), mol.atoms@.len() as int, prev is Some, branch_pos(branches), open_of(pending))
        == smiles_result(s)
}

/// Reads one token of the text: a branch mark, or an atom step (with a `.`
/// before it when there is one).
#[verifier::rlimit(100)]
#[verifier::spinoff_prover]
fn parse_step(
    scanner: &mut Scanner,
    mol: &mut Molecule,
    prev: &mut Option<usize>,
    branches: &mut Vec<(usize, usize)>,
    pending: &mut Vec<RingSlot>,
    alt: &mut u8,
) -> (r: Result<(), Error>)
    requires
        parse_inv(old(scanner).text(), *old(scanner), *old(mol), *old(prev), old(branches)@, old(pending)@, *old(alt)),
        old(scanner).pos() < old(scanner).text().len(),
    ensures
        r is Ok ==> parse_inv(old(scanner).text(), *final(scanner), *final(mol), *final(prev), final(branches)@, final(pending)@, *final(alt))
            && final(scanner).pos() > old(scanner).pos(),
        r matches Err(e) ==> smiles_result(old(scanner).text()) == Err::<(), Error>(e),
{
    let ghost s = scanner.text();
        let pos = scanner.cursor();
        let ghost t = s.take(pos as int);
        proof {
            lemma_take_push(s, pos as int);
            lemma_push(t, s[pos as int]);
        }
        match scanner.peek() {
            Some('(') => {
                match *prev {
                    Some(p) => {
                        let ghost b0 = branches@;
                        branches.push((p, pos));
                        scanner.pop();
                        proof {
                            assert(branch_atoms(branches@) =~= branch_atoms(b0).push(p as int));
                            assert(branch_pos(branches@) =~= branch_pos(b0).push(pos as int));
                        }
                    },
                    None => return Err(Error::EmptyBranch(pos)),
                }
            },
            Some(')') => {
                let ghost b0 = branches@;
                match branches.pop() {
                    Some((p, _)) => {
                        *prev = Some(p);
                        scanner.pop();
                        proof {
                            assert(branch_atoms(branches@) =~= branch_atoms(b0).drop_last());
                            assert(branch_atoms(b0).last() == p as int);
                            assert(branch_pos(branches@) =~= branch_pos(b0).drop_last());
                        }
                    },
                    None => return Err(Error::UnmatchedBranch(pos)),
                }
            },
            _ => {
                if scanner.peek() == Some('.') {
                    if prev.is_none() {
                        return Err(Error::EmptyBranch(pos));
                    }
                    scanner.pop();
                    *prev = None;
                }
                let ghost m0 = *mol;
                let ghost q0 = pending@;
                let cur = atom_step(scanner, mol, pending, *prev, alt)?;
                proof {
                    assert forall|k: int| 0 <= k < branches@.len() implies (#[trigger] branches@[k]).0
                        < mol.atoms@.len() by {
                        assert(branches@[k].0 < m0.atoms@.len());
                    }
                }
                *prev = Some(cur);
            },
        }
        Ok(())
}

/// Parses a line-notation string into a molecular graph.
///
/// `(` opens a branch at the last atom and `)` returns to it; `.` starts a
/// new fragment. An atom is bonded to the atom before it, with the bond
/// symbol written between them or, when none is written, a single bond (an
/// aromatic one, of alternating order, between two aromatic atoms). A ring
/// mark opens its number at an atom and a second mark of that number closes
/// it with a ring bond. Every atom's hydrogen count is
/// `max(0, valence_electrons(element) - Σ bond order)`.
///
/// The result is `Ok` exactly when [`smiles_result`] says the text reads,
/// and otherwise the first error it names.
///
/// On success the graph has one atom per atom written, each with the
/// element and aromaticity written and, in brackets, the mass number,
/// configuration and charge written; one bond from
/// each atom to the atom it attaches to, except for the first atom of each
/// fragment; and one ring bond per pair of ring marks, joining the atoms that
/// carry them. Parentheses balance and every ring mark is paired.
pub fn parse_smiles(smiles: &str) -> (r: Result<Molecule, Error>)
    ensures
        match smiles_result(smiles@) {
            Ok(_) => r is Ok,
            Err(e) => r == Err::<Molecule, Error>(e),
        },
        r matches Ok(m) ==> {
            &&& m.wf()
            &&& m.hydrogens_derived()
            &&& m.atoms@.len() == atom_count(smiles@)
            &&& m.bonds@.len() + fragments(smiles@) == m.atoms@.len() + ring_bond_count(m.bonds@)
            &&& char_count(smiles@, '(') == char_count(smiles@, ')')
            &&& 2 * ring_bond_count(m.bonds@) == ring_mark_count(smiles@)
            &&& atoms_as_written(m, smiles@, smiles@.len() as int)
            &&& atoms_bonded_as_written(m, smiles@, smiles@.len() as int)
            &&& ring_pairs(m.bonds@) == ring_marks(smiles@).2
        },
{
    let mut scanner = Scanner::new(smiles);
    let ghost s = smiles@;
    let mut mol = Molecule::new();
    let mut prev: Option<usize> = None;
    let mut branches: Vec<(usize, usize)> = Vec::new();
    let mut pending: Vec<RingSlot> = Vec::new();
    let mut alt: u8 = 1;
    let mut i: usize = 0;
    while i < 100
        invariant
            i <= 100,
            pending@.len() == i,
            forall|k: int| 0 <= k < i ==> (#[trigger] pending@[k]) is None,
        decreases 100 - i,
    {
        pending.push(None);
        i += 1;
    }
    proof {
        lemma_open_count_zero(pending@);
        assert(s.take(0) =~= Seq::<char>::empty());
        assert(ring_pairs(mol.bonds@) =~= Seq::<(int, int)>::empty());
        assert(open_of(pending@) =~= no_rings_open());
        assert(branch_pos(branches@) =~= Seq::<int>::empty());
        assert(branch_atoms(branches@) =~= Seq::<int>::empty());
        assert(smiles_run(s, 0, 0, false, branch_pos(branches@), open_of(pending@)) == smiles_result(s));
        assert(ring_marks(s.take(0)).1 is None);
        assert(slots_match(pending@, ring_marks(s.take(0)).0));
        assert(ring_pairs(mol.bonds@) == ring_marks(s.take(0)).2);
        assert(ring_state(mol, pending@));
        assert(opt_int(prev) == attachment(s.take(0)).0);
    }
    while !scanner.is_done()
        invariant
            s == smiles@,
            scanner.wf(),
            scanner.text() == s,
            parse_inv(s, scanner, mol, prev, branches@, pending@, alt),
        decreases s.len() - scanner.pos(),
    {
        match parse_step(&mut scanner, &mut mol, &mut prev, &mut branches, &mut pending, &mut alt) {
            Ok(()) => {},
            Err(e) => return Err(e),
        }
    }
    proof {
        assert(s.take(scanner.pos()) =~= s);
    }
    if branches.len() > 0 {
        let last = branches.len() - 1;
        proof {
            assert(branch_pos(branches@).last() == branches@[last as int].1 as int);
        }
        return Err(Error::UnclosedBranch(branches[last].1));
    }
    let mut k: usize = 0;
    while k < 100
        invariant
            k <= 100,
            pending@.len() == 100,
            forall|j: int| 0 <= j < k ==> (#[trigger] pending@[j]) is None,
            branches@.len() == 0,
            s == smiles@,
            smiles_run(
                s,
                s.len() as int,
                mol.atoms@.len() as int,
                prev is Some,
                branch_pos(branches@),
                open_of(pending@),
            ) == smiles_result(s),
        decreases 100 - k,
    {
        if pending[k].is_some() {
            proof {
                assert forall|j: int| 0 <= j < k implies (#[trigger] open_of(pending@)[j]) is None by {
                    assert(pending@[j] is None);
                }
                lemma_first_open_at(open_of(pending@), 0, k as int);
                assert(smiles_run(
                    s,
                    s.len() as int,
                    mol.atoms@.len() as int,
                    prev is Some,
                    branch_pos(branches@),
                    open_of(pending@),
                ) == Err::<(), Error>(Error::UnclosedRing(k as u8)));
            }
            return Err(Error::UnclosedRing(k as u8));
        }
        k += 1;
    }
    proof {
        lemma_open_count_zero(pending@);
        assert forall|j: int| 0 <= j < 100 implies (#[trigger] open_of(pending@)[j]) is None by {
            assert(pending@[j] is None);
        }
        lemma_first_open_none(open_of(pending@), 0);
    }
    Ok(mol)
}

} // verus!

//! The molecular graph: an append-only arena of atoms and an append-only
//! arena of bonds, each addressed by a stable index, with every atom holding
//! the indices of its incident bonds.

use vstd::prelude::*;
use crate::elements::{spec_valence_electrons, valence_electrons};

verus! {

/// Stereo configuration of an atom, as written after `@` in a bracket atom.
#[derive(Clone, Copy, Debug, PartialEq, Eq, Structural)]
pub enum Configuration {
    AL1, AL2,
    OH1, OH2, OH3, OH4, OH5, OH6, OH7, OH8, OH9, OH10, OH11, OH12, OH13, OH14, OH15,
    OH16, OH17, OH18, OH19, OH20, OH21, OH22, OH23, OH24, OH25, OH26, OH27, OH28, OH29,
    OH30,
    SP1, SP2, SP3,
    TB1, TB2, TB3, TB4, TB5, TB6, TB7, TB8, TB9, TB10, TB11, TB12, TB13, TB14, TB15,
    TB16, TB17, TB18, TB19, TB20,
    TH1, TH2,
    DB1, DB2,
    Unknown,
}

/// Direction tag of a bond written with `/` (up) or `\` (down).
#[derive(Clone, Copy, Debug, PartialEq, Eq, Structural)]
pub enum Axialness {
    UP,
    DOWN,
    UNKNOWN,
}

/// One atom of a molecule.
#[derive(Clone, Debug)]
pub struct Atom {
    /// Indices of the bonds incident to this atom, in the order they were added.
    pub outgoing_bond: Vec<usize>,
    /// Atomic number; 0 for the wildcard atom `*`.
    pub element: u8,
    /// Mass number as written; 0 when none was written.
    pub isotope: u16,
    /// Number of hydrogens on the atom, derived from its bonds.
    pub hydrogens: u8,
    pub aromatic: bool,
    /// Formal charge.
    pub f_charge: i8,
    pub configuration: Option<Configuration>,
    /// Whether the atom carries a ring-closure mark.
    pub ring: bool,
    pub symmetry_class: usize,
}

/// One undirected bond between two distinct atoms.
#[derive(Clone, Copy, Debug, PartialEq, Eq, Structural)]
pub struct Bond {
    pub source: usize,
    pub dest: usize,
    pub arom: bool,
    /// Whether the bond closes a ring.
    pub ring: bool,
    /// 1, 2, 3 or 4.
    pub bond_order: u8,
    pub axialness: Axialness,
}

impl Atom {
    pub fn add_to_bond_list(&mut self, bond: usize)
        ensures
            final(self).outgoing_bond@ == old(self).outgoing_bond@.push(bond),
            same_record(*final(self), *old(self)),
    {
        self.outgoing_bond.push(bond)
    }

    pub fn aromatic_reverse(&mut self)
        ensures
            final(self).aromatic == !old(self).aromatic,
            final(self).outgoing_bond@ == old(self).outgoing_bond@,
            final(self).element == old(self).element,
            final(self).ring == old(self).ring,
            final(self).hydrogens == old(self).hydrogens,
    {
        self.aromatic = !self.aromatic;
    }

    pub fn ring_reverse(&mut self)
        ensures
            final(self).ring == !old(self).ring,
            final(self).outgoing_bond@ == old(self).outgoing_bond@,
            final(self).element == old(self).element,
            final(self).isotope == old(self).isotope,
            final(self).f_charge == old(self).f_charge,
            final(self).configuration == old(self).configuration,
            final(self).aromatic == old(self).aromatic,
            final(self).hydrogens == old(self).hydrogens,
    {
        self.ring = !self.ring;
    }

    pub fn sym_class_update(&mut self, sym: usize)
        ensures
            final(self).symmetry_class == sym,
            final(self).outgoing_bond@ == old(self).outgoing_bond@,
            final(self).element == old(self).element,
            final(self).hydrogens == old(self).hydrogens,
    {
        self.symmetry_class = sym;
    }

    pub fn h_count_update(&mut self, h_count: u8)
        ensures
            final(self).hydrogens == h_count,
            final(self).outgoing_bond@ == old(self).outgoing_bond@,
            final(self).element == old(self).element,
            final(self).isotope == old(self).isotope,
            final(self).aromatic == old(self).aromatic,
            final(self).f_charge == old(self).f_charge,
            final(self).configuration == old(self).configuration,
            final(self).ring == old(self).ring,
            final(self).symmetry_class == old(self).symmetry_class,
    {
        self.hydrogens = h_count;
    }
}

/// Two atoms agree on everything but their bond lists.
pub open spec fn same_record(a: Atom, b: Atom) -> bool {
    &&& a.element == b.element
    &&& a.isotope == b.isotope
    &&& a.hydrogens == b.hydrogens
    &&& a.aromatic == b.aromatic
    &&& a.f_charge == b.f_charge
    &&& a.configuration == b.configuration
    &&& a.ring == b.ring
    &&& a.symmetry_class == b.symmetry_class
}

/// Whether `b` has `a` as one of its endpoints.
pub open spec fn touches(b: Bond, a: int) -> bool {
    b.source == a || b.dest == a
}

/// Whether `b` joins atoms `x` and `y`, in either direction.
pub open spec fn connects(b: Bond, x: int, y: int) -> bool {
    (b.source == x && b.dest == y) || (b.source == y && b.dest == x)
}

/// The indices of the bonds incident to atom `a`, in ascending order.
pub open spec fn incident(bonds: Seq<Bond>, a: int) -> Seq<usize>
    decreases bonds.len(),
{
    if bonds.len() == 0 {
        Seq::empty()
    } else {
        let p = incident(bonds.drop_last(), a);
        if touches(bonds.last(), a) {
            p.push((bonds.len() - 1) as usize)
        } else {
            p
        }
    }
}

/// The sum of the orders of the bonds listed in `l`.
pub open spec fn list_order_sum(bonds: Seq<Bond>, l: Seq<usize>) -> int
    decreases l.len(),
{
    if l.len() == 0 {
        0
    } else {
        list_order_sum(bonds, l.drop_last()) + bonds[l.last() as int].bond_order
    }
}

/// The sum of the orders of the bonds incident to atom `a`.
pub open spec fn bond_order_sum(bonds: Seq<Bond>, a: int) -> int {
    list_order_sum(bonds, incident(bonds, a))
}

/// `max(0, valence_electrons(element) - order_sum)`.
pub open spec fn hydrogens_for(element: u8, order_sum: int) -> int {
    let v = spec_valence_electrons(element as int);
    if v - order_sum > 0 {
        v - order_sum
    } else {
        0
    }
}

/// The incident list holds exactly the bonds touching `a`, ascending.
pub proof fn lemma_incident(bonds: Seq<Bond>, a: int)
    requires
        bonds.len() <= usize::MAX,
    ensures
        forall|k: int|
            0 <= k < incident(bonds, a).len() ==> (incident(bonds, a)[k] as int) < bonds.len()
                && touches(bonds[incident(bonds, a)[k] as int], a),
        forall|b: int|
            0 <= b < bonds.len() && touches(#[trigger] bonds[b], a) ==> incident(
                bonds,
                a,
            ).contains(b as usize),
        forall|i: int, j: int|
            0 <= i < j < incident(bonds, a).len() ==> incident(bonds, a)[i] < incident(bonds, a)[j],
    decreases bonds.len(),
{
    if bonds.len() > 0 {
        let pre = bonds.drop_last();
        lemma_incident(pre, a);
        let p = incident(pre, a);
        let l = incident(bonds, a);
        let n = bonds.len() - 1;
        assert forall|k: int| 0 <= k < p.len() implies (p[k] as int) < n && #[trigger] bonds[p[k] as int]
            == pre[p[k] as int] by {}
        if touches(bonds.last(), a) {
            assert(l == p.push(n as usize));
        } else {
            assert(l == p);
        }
        assert forall|k: int| 0 <= k < l.len() implies (l[k] as int) < bonds.len() && touches(
            bonds[l[k] as int],
            a,
        ) by {
            if k < p.len() {
                assert(l[k] == p[k]);
                assert(bonds[p[k] as int] == pre[p[k] as int]);
            }
        }
        assert forall|i: int, j: int| 0 <= i < j < l.len() implies l[i] < l[j] by {
            if j < p.len() {
                assert(l[i] == p[i] && l[j] == p[j]);
            } else {
                assert(l[i] == p[i]);
            }
        }
        assert forall|b: int| 0 <= b < bonds.len() && touches(#[trigger] bonds[b], a) implies l.contains(
            b as usize,
        ) by {
            if b < n {
                assert(pre[b] == bonds[b]);
                assert(p.contains(b as usize));
                let k = choose|k: int| 0 <= k < p.len() && p[k] == b as usize;
                assert(l[k] == b as usize);
            } else {
                assert(l[l.len() - 1] == b as usize);
            }
        }
    }
}

/// Bonds added after the ones listed in `l` do not change their order sum.
pub proof fn lemma_list_order_sum_extend(bonds: Seq<Bond>, l: Seq<usize>, x: Bond)
    requires
        forall|k: int| 0 <= k < l.len() ==> (l[k] as int) < bonds.len(),
    ensures
        list_order_sum(bonds.push(x), l) == list_order_sum(bonds, l),
    decreases l.len(),
{
    if l.len() > 0 {
        lemma_list_order_sum_extend(bonds, l.drop_last(), x);
    }
}

/// The number of ring-closure bonds.
pub open spec fn ring_bond_count(bonds: Seq<Bond>) -> nat
    decreases bonds.len(),
{
    if bonds.len() == 0 {
        0
    } else {
        ring_bond_count(bonds.drop_last()) + if bonds.last().ring {
            1nat
        } else {
            0nat
        }
    }
}

/// The ring-closure bonds, in index order, as (source, dest).
pub open spec fn ring_pairs(bonds: Seq<Bond>) -> Seq<(int, int)>
    decreases bonds.len(),
{
    if bonds.len() == 0 {
        Seq::empty()
    } else {
        let p = ring_pairs(bonds.drop_last());
        if bonds.last().ring {
            p.push((bonds.last().source as int, bonds.last().dest as int))
        } else {
            p
        }
    }
}

/// A molecular graph.
#[derive(Clone, Debug)]
pub struct Molecule {
    pub atoms: Vec<Atom>,
    pub bonds: Vec<Bond>,
}

impl Molecule {
    /// Every bond joins two distinct existing atoms, and every atom lists
    /// exactly its incident bonds, ascending.
    pub open spec fn wf(&self) -> bool {
        &&& forall|i: int|
            0 <= i < self.bonds@.len() ==> {
                let b = #[trigger] self.bonds@[i];
                &&& b.source < self.atoms@.len()
                &&& b.dest < self.atoms@.len()
                &&& b.source != b.dest
                &&& 1 <= b.bond_order <= 4
            }
        &&& forall|a: int|
            0 <= a < self.atoms@.len() ==> #[trigger] self.atoms@[a].outgoing_bond@ == incident(
                self.bonds@,
                a,
            )
    }

    /// The sum of the orders of the bonds incident to atom `a`.
    pub open spec fn order_sum(&self, a: int) -> int {
        bond_order_sum(self.bonds@, a)
    }

    /// Every atom's hydrogen count is derived from its bonds.
    pub open spec fn hydrogens_derived(&self) -> bool {
        forall|a: int| 0 <= a < self.atoms@.len() ==> #[trigger] self.hydrogen_ok(a)
    }

    pub fn new() -> (r: Molecule)
        ensures
            r.wf(),
            r.atoms@.len() == 0,
            r.bonds@.len() == 0,
    {
        Molecule { atoms: Vec::new(), bonds: Vec::new() }
    }

    /// Appends an atom that has no bonds yet and returns its index.
    pub fn add_atom(&mut self, atom: Atom) -> (r: usize)
        requires
            old(self).wf(),
            atom.outgoing_bond@.len() == 0,
        ensures
            final(self).wf(),
            r == old(self).atoms@.len(),
            final(self).atoms@ == old(self).atoms@.push(atom),
            final(self).bonds@ == old(self).bonds@,
    {
        let r = self.atoms.len();
        self.atoms.push(atom);
        proof {
            assert(atom.outgoing_bond@ =~= Seq::<usize>::empty());
            assert(incident(self.bonds@, r as int) =~= Seq::empty()) by {
                assert(self.bonds@.len() == self.bonds.len());
                lemma_incident(self.bonds@, r as int);
                if incident(self.bonds@, r as int).len() > 0 {
                    let b = incident(self.bonds@, r as int)[0] as int;
                    assert(self.bonds@[b].source < r && self.bonds@[b].dest < r);
                }
            }
        }
        r
    }

    /// Appends a bond, adds it to both endpoints' lists and returns its index.
    pub fn add_bond(&mut self, bond: Bond) -> (r: usize)
        requires
            old(self).wf(),
            bond.source < old(self).atoms@.len(),
            bond.dest < old(self).atoms@.len(),
            bond.source != bond.dest,
            1 <= bond.bond_order <= 4,
        ensures
            final(self).wf(),
            r == old(self).bonds@.len(),
            final(self).bonds@ == old(self).bonds@.push(bond),
            final(self).atoms@.len() == old(self).atoms@.len(),
            forall|a: int|
                0 <= a < old(self).atoms@.len() ==> same_record(
                    #[trigger] final(self).atoms@[a],
                    old(self).atoms@[a],
                ),
            forall|a: int|
                0 <= a < old(self).atoms@.len() ==> #[trigger] final(self).order_sum(a) == old(self).order_sum(a) + if touches(bond, a) {
                    bond.bond_order as int
                } else {
                    0
                },
    {
        let r = self.bonds.len();
        let ghost old_bonds = self.bonds@;
        let ghost old_atoms = self.atoms@;
        self.bonds.push(bond);
        self.atoms[bond.source].add_to_bond_list(r);
        self.atoms[bond.dest].add_to_bond_list(r);
        proof {
            assert(self.bonds@.drop_last() =~= old_bonds);
            assert forall|a: int| 0 <= a < self.atoms@.len() implies #[trigger] self.atoms@[
                a
            ].outgoing_bond@ == incident(self.bonds@, a) by {
                assert(old_atoms[a].outgoing_bond@ == incident(old_bonds, a));
            }
            assert forall|a: int| 0 <= a < old_atoms.len() implies #[trigger] self.order_sum(a)
                == bond_order_sum(old_bonds, a) + if touches(bond, a) {
                bond.bond_order as int
            } else {
                0
            } by {
                lemma_incident(old_bonds, a);
                let l = incident(old_bonds, a);
                lemma_list_order_sum_extend(old_bonds, l, bond);
                if touches(bond, a) {
                    assert(incident(self.bonds@, a).drop_last() =~= l);
                }
            }
        }
        r
    }

    pub fn h_count_update(&mut self, atom_index: usize, h_count: u8)
        requires
            atom_index < old(self).atoms@.len(),
        ensures
            old(self).wf() ==> final(self).wf(),
            final(self).atoms@[atom_index as int].aromatic == old(self).atoms@[atom_index as int].aromatic,
            final(self).atoms@[atom_index as int].isotope == old(self).atoms@[atom_index as int].isotope,
            final(self).atoms@[atom_index as int].f_charge == old(self).atoms@[atom_index as int].f_charge,
            final(self).atoms@[atom_index as int].configuration == old(self).atoms@[
                atom_index as int
            ].configuration,
            final(self).atoms@[atom_index as int].ring == old(self).atoms@[atom_index as int].ring,
            final(self).bonds@ == old(self).bonds@,
            final(self).atoms@.len() == old(self).atoms@.len(),
            final(self).atoms@[atom_index as int].hydrogens == h_count,
            final(self).atoms@[atom_index as int].outgoing_bond@ == old(self).atoms@[
                atom_index as int
            ].outgoing_bond@,
            final(self).atoms@[atom_index as int].element == old(self).atoms@[atom_index as int].element,
            forall|a: int|
                0 <= a < old(self).atoms@.len() && a != atom_index ==> #[trigger] final(self).atoms@[a]
                    == old(self).atoms@[a],
    {
        self.atoms[atom_index].h_count_update(h_count);
    }

    /// Whether atom `a` has the hydrogen count its bonds give it.
    pub open spec fn hydrogen_ok(&self, a: int) -> bool {
        self.atoms@[a].hydrogens as int == hydrogens_for(self.atoms@[a].element, self.order_sum(a))
    }

    /// Marks atom `a` as carrying a ring-closure mark.
    pub fn flag_ring(&mut self, a: usize)
        requires
            old(self).wf(),
            a < old(self).atoms@.len(),
        ensures
            final(self).wf(),
            final(self).bonds@ == old(self).bonds@,
            final(self).atoms@.len() == old(self).atoms@.len(),
            final(self).atoms@[a as int].ring,
            final(self).atoms@[a as int].element == old(self).atoms@[a as int].element,
            final(self).atoms@[a as int].isotope == old(self).atoms@[a as int].isotope,
            final(self).atoms@[a as int].f_charge == old(self).atoms@[a as int].f_charge,
            final(self).atoms@[a as int].configuration == old(self).atoms@[a as int].configuration,
            final(self).atoms@[a as int].aromatic == old(self).atoms@[a as int].aromatic,
            final(self).atoms@[a as int].hydrogens == old(self).atoms@[a as int].hydrogens,
            forall|b: int| 0 <= b < old(self).atoms@.len() && b != a ==> #[trigger] final(self).atoms@[b]
                == old(self).atoms@[b],
    {
        if !self.atoms[a].ring {
            self.atoms[a].ring_reverse();
        }
    }

    /// The bonds incident to atom `a`, ascending.
    pub fn incident_bonds(&self, a: usize) -> (r: &Vec<usize>)
        requires
            self.wf(),
            a < self.atoms@.len(),
        ensures
            r@ == incident(self.bonds@, a as int),
    {
        &self.atoms[a].outgoing_bond
    }

    /// `max(0, valence_electrons(element) - Σ bond order)` for atom `a`.
    pub fn derived_hydrogens(&self, a: usize) -> (r: u8)
        requires
            self.wf(),
            a < self.atoms@.len(),
        ensures
            r as int == hydrogens_for(self.atoms@[a as int].element, self.order_sum(a as int)),
    {
        let list = &self.atoms[a].outgoing_bond;
        let ghost l = list@;
        proof {
            assert(self.bonds@.len() == self.bonds.len());
            lemma_incident(self.bonds@, a as int);
        }
        let mut h: u8 = valence_electrons(self.atoms[a].element as usize) as u8;
        let mut k: usize = 0;
        while k < list.len()
            invariant
                self.wf(),
                a < self.atoms@.len(),
                l == list@,
                l == incident(self.bonds@, a as int),
                forall|j: int| 0 <= j < l.len() ==> (l[j] as int) < self.bonds@.len(),
                k <= l.len(),
                h as int == hydrogens_for(
                    self.atoms@[a as int].element,
                    list_order_sum(self.bonds@, l.take(k as int)),
                ),
            decreases l.len() - k,
        {
            let order = self.bonds[list[k]].bond_order;
            h = h.saturating_sub(order);
            proof {
                assert(l.take(k as int + 1).drop_last() =~= l.take(k as int));
            }
            k += 1;
        }
        assert(l.take(k as int) =~= l);
        h
    }

    /// The lowest-index bond joining atoms `atom1` and `atom2`, if any.
    pub fn get_bond(&self, atom1: usize, atom2: usize) -> (r: Option<usize>)
        requires
            self.wf(),
            atom1 < self.atoms@.len(),
        ensures
            match r {
                Some(b) => (b as int) < self.bonds@.len() && connects(self.bonds@[b as int], atom1 as int, atom2 as int)
                    && forall|c: int| 0 <= c < b ==> !connects(#[trigger] self.bonds@[c], atom1 as int, atom2 as int),
                None => forall|c: int|
                    0 <= c < self.bonds@.len() ==> !connects(#[trigger] self.bonds@[c], atom1 as int, atom2 as int),
            },
    {
        let list = &self.atoms[atom1].outgoing_bond;
        let ghost l = list@;
        proof {
            assert(self.bonds@.len() == self.bonds.len());
            lemma_incident(self.bonds@, atom1 as int);
        }
        let mut k: usize = 0;
        while k < list.len()
            invariant
                self.wf(),
                atom1 < self.atoms@.len(),
                l == list@,
                l == incident(self.bonds@, atom1 as int),
                forall|j: int| 0 <= j < l.len() ==> (l[j] as int) < self.bonds@.len(),
                forall|i: int, j: int| 0 <= i < j < l.len() ==> l[i] < l[j],
                k <= l.len(),
                forall|j: int| 0 <= j < k ==> !connects(self.bonds@[#[trigger] l[j] as int], atom1 as int, atom2 as int),
            decreases l.len() - k,
        {
            let b = list[k];
            let bond = &self.bonds[b];
            if (bond.source == atom1 && bond.dest == atom2) || (bond.source == atom2 && bond.dest == atom1) {
                proof {
                    assert forall|c: int| 0 <= c < b implies !connects(#[trigger] self.bonds@[c], atom1 as int, atom2 as int) by {
                        if connects(self.bonds@[c], atom1 as int, atom2 as int) {
                            assert(self.bonds@.len() == self.bonds.len());
                            lemma_incident(self.bonds@, atom1 as int);
                            assert(touches(self.bonds@[c], atom1 as int));
                            assert(l.contains(c as usize));
                            let j = choose|j: int| 0 <= j < l.len() && l[j] == c as usize;
                            if j >= k {
                                if j > k {
                                    assert(l[k as int] < l[j]);
                                }
                            }
                        }
                    }
                }
                return Some(b);
            }
            k += 1;
        }
        proof {
            assert forall|c: int| 0 <= c < self.bonds@.len() implies !connects(#[trigger] self.bonds@[c], atom1 as int, atom2 as int) by {
                if connects(self.bonds@[c], atom1 as int, atom2 as int) {
                    assert(touches(self.bonds@[c], atom1 as int));
                    assert(l.contains(c as usize));
                }
            }
        }
        None
    }
}

} // verus!

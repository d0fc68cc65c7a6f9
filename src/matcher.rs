//! The subgraph matcher: runs a compiled program against a molecular graph
//! by backtracking, binding pattern atoms in program order.

use vstd::prelude::*;
use crate::elements::{default_mass, spec_default_mass};
use crate::molecule::{
    Atom, Axialness, Bond, Configuration, Molecule, connects, incident, lemma_incident, list_order_sum, touches,
};
use crate::smarts_defs::{Expr, ExprType, OpCode, SmartsPattern, TreeNode, binds_atom};

verus! {

/// Whether an atom answers a mass query `v`: it answers the mass number
/// written on it and the mass number of its element's most abundant
/// isotope, and, when no mass number is written, also 0.
pub open spec fn mass_matches(at: Atom, v: int) -> bool {
    ||| v == spec_default_mass(at.element) as int
    ||| (at.isotope != 0 && v == at.isotope as int)
    ||| (at.isotope == 0 && v == 0)
}

/// The number of ring-closure bonds listed in `l`.
pub open spec fn list_ring_count(bonds: Seq<Bond>, l: Seq<usize>) -> int
    decreases l.len(),
{
    if l.len() == 0 {
        0
    } else {
        list_ring_count(bonds, l.drop_last()) + if bonds[l.last() as int].ring {
            1int
        } else {
            0
        }
    }
}

/// The highest order among the bonds listed in `l`, or 0.
pub open spec fn list_max_order(bonds: Seq<Bond>, l: Seq<usize>) -> int
    decreases l.len(),
{
    if l.len() == 0 {
        0
    } else {
        let m = list_max_order(bonds, l.drop_last());
        let o = bonds[l.last() as int].bond_order as int;
        if o > m {
            o
        } else {
            m
        }
    }
}

/// 1 with a triple or quadruple bond, 2 with a double bond or when
/// aromatic, 3 otherwise.
pub open spec fn hybridization(m: Molecule, a: int) -> int {
    let mo = list_max_order(m.bonds@, incident(m.bonds@, a));
    if mo >= 3 {
        1
    } else if mo == 2 || m.atoms@[a].aromatic {
        2
    } else {
        3
    }
}

/// What a leaf atom predicate says of atom `a`.
pub open spec fn atom_leaf(t: ExprType, v: int, m: Molecule, a: int) -> bool {
    let at = m.atoms@[a];
    let l = incident(m.bonds@, a);
    match t {
        ExprType::True => true,
        ExprType::AeAromatic => at.aromatic,
        ExprType::AeAliphatic => !at.aromatic,
        ExprType::AeCyclic => at.ring,
        ExprType::AeAcyclic => !at.ring,
        ExprType::AeMass => mass_matches(at, v),
        ExprType::AeElem => at.element == v,
        ExprType::AeAromelem => at.element == v && at.aromatic,
        ExprType::AeAliphelem => at.element == v && !at.aromatic,
        ExprType::AeHcount => at.hydrogens == v,
        ExprType::AeImplicit => at.hydrogens == v,
        ExprType::AeCharge => at.f_charge == v,
        ExprType::AeDegree => l.len() == v,
        ExprType::AeConnect => l.len() + at.hydrogens == v,
        ExprType::AeValence => list_order_sum(m.bonds@, l) + at.hydrogens == v,
        ExprType::AeRingconnect => list_ring_count(m.bonds@, l) == v,
        ExprType::AeRings => list_ring_count(m.bonds@, l) == v,
        ExprType::AeSize => if v == 0 {
            !at.ring
        } else {
            at.ring
        },
        ExprType::AeChiral => at.configuration is Some,
        ExprType::AlClockwise => at.configuration == Some(Configuration::TH2),
        ExprType::AlAnticlockwise => at.configuration == Some(Configuration::TH1),
        ExprType::AlUnspecified => at.configuration is None,
        ExprType::AeHyb => hybridization(m, a) == v,
        _ => false,
    }
}

/// What a leaf bond predicate says of bond `b`.
pub open spec fn bond_leaf(t: ExprType, b: Bond) -> bool {
    match t {
        ExprType::BeAny => true,
        ExprType::BeDefault => b.bond_order == 1 || b.arom,
        ExprType::BeSingle => b.bond_order == 1 && !b.arom,
        ExprType::BeDouble => b.bond_order == 2 && !b.arom,
        ExprType::BeTriple => b.bond_order == 3,
        ExprType::BeQuad => b.bond_order == 4,
        ExprType::BeArom => b.arom,
        ExprType::BeRing => b.ring,
        ExprType::BeUp => b.axialness == crate::molecule::Axialness::UP,
        ExprType::BeDown => b.axialness == crate::molecule::Axialness::DOWN,
        ExprType::BeUpunspec => b.axialness != crate::molecule::Axialness::DOWN,
        ExprType::BeDownunspec => b.axialness != crate::molecule::Axialness::UP,
        _ => false,
    }
}

/// Whether bond `b` satisfies bond expression `e`. A connective without
/// its operands holds of nothing.
pub open spec fn bond_sat(e: Expr, b: Bond) -> bool
    decreases e,
{
    match e.expr_type {
        ExprType::BeAndhi | ExprType::BeAndlo => match (e.left, e.right) {
            (Some(l), Some(r)) => bond_sat(*l, b) && bond_sat(*r, b),
            _ => false,
        },
        ExprType::BeOr => match (e.left, e.right) {
            (Some(l), Some(r)) => bond_sat(*l, b) || bond_sat(*r, b),
            _ => false,
        },
        ExprType::BeNot => match e.left {
            Some(l) => !bond_sat(*l, b),
            None => false,
        },
        _ => bond_leaf(e.expr_type, b),
    }
}

/// Whether atom `a` satisfies atom expression `e` of program `i`, where
/// `rows[k][a]` says whether program `k` matches with its first atom on `a`.
/// An embedded pattern must have a later program index than its user.
pub open spec fn atom_sat(
    progs: Seq<Vec<TreeNode>>,
    i: int,
    e: Expr,
    m: Molecule,
    a: int,
    rows: Seq<Seq<bool>>,
) -> bool
    decreases e,
{
    match e.expr_type {
        ExprType::AeAndhi | ExprType::AeAndlo => match (e.left, e.right) {
            (Some(l), Some(r)) => atom_sat(progs, i, *l, m, a, rows) && atom_sat(progs, i, *r, m, a, rows),
            _ => false,
        },
        ExprType::AeOr => match (e.left, e.right) {
            (Some(l), Some(r)) => atom_sat(progs, i, *l, m, a, rows) || atom_sat(progs, i, *r, m, a, rows),
            _ => false,
        },
        ExprType::AeNot => match e.left {
            Some(l) => !atom_sat(progs, i, *l, m, a, rows),
            None => false,
        },
        ExprType::AeRecur => 0 <= i < e.val < progs.len() && e.val < rows.len() && 0 <= a < rows[e.val as int].len()
            && rows[e.val as int][a],
        _ => atom_leaf(e.expr_type, e.val as int, m, a),
    }
}

/// `b` is the lowest-index bond joining atoms `x` and `y`.
pub open spec fn first_bond(m: Molecule, x: int, y: int, b: int) -> bool {
    &&& 0 <= b < m.bonds@.len()
    &&& connects(m.bonds@[b], x, y)
    &&& forall|c: int| 0 <= c < b ==> !connects(#[trigger] m.bonds@[c], x, y)
}

/// Node `k` of program `j` holds under atom binding `f` and bond binding `g`.
pub open spec fn node_ok(
    progs: Seq<Vec<TreeNode>>,
    j: int,
    m: Molecule,
    f: Seq<usize>,
    g: Seq<usize>,
    k: int,
    rows: Seq<Seq<bool>>,
) -> bool {
    if 0 <= j < progs.len() && 0 <= k < progs[j]@.len() {
        let p = progs[j]@;
        let n = p[k];
        match n.op_code {
            OpCode::SeedAtom => f[k] < m.atoms@.len() && atom_sat(progs, j, n.data, m, f[k] as int, rows),
            OpCode::GrowBond => {
                &&& n.src < k
                &&& binds_atom(p[n.src as int])
                &&& f[k] < m.atoms@.len()
                &&& g[k] < m.bonds@.len()
                &&& connects(m.bonds@[g[k] as int], f[n.src as int] as int, f[k] as int)
                &&& bond_sat(n.bond, m.bonds@[g[k] as int])
                &&& atom_sat(progs, j, n.data, m, f[k] as int, rows)
            },
            OpCode::CloseRing => {
                &&& n.src < k
                &&& n.dst < k
                &&& binds_atom(p[n.src as int])
                &&& binds_atom(p[n.dst as int])
                &&& first_bond(m, f[n.src as int] as int, f[n.dst as int] as int, g[k] as int)
                &&& bond_sat(n.bond, m.bonds@[g[k] as int])
            },
        }
    } else {
        false
    }
}

/// Distinct atom nodes among the first `n` are bound to distinct atoms.
pub open spec fn distinct_upto(p: Seq<TreeNode>, f: Seq<usize>, n: int) -> bool {
    forall|k1: int, k2: int|
        0 <= k1 < n && 0 <= k2 < n && k1 != k2 && binds_atom(#[trigger] p[k1]) && binds_atom(
            #[trigger] p[k2],
        ) ==> f[k1] != f[k2]
}

/// The first `n` nodes of program `j` hold under `f` and `g`.
pub open spec fn partial_ok(
    progs: Seq<Vec<TreeNode>>,
    j: int,
    m: Molecule,
    f: Seq<usize>,
    g: Seq<usize>,
    n: int,
    rows: Seq<Seq<bool>>,
) -> bool {
    &&& 0 <= j < progs.len()
    &&& forall|k: int| 0 <= k < n ==> #[trigger] node_ok(progs, j, m, f, g, k, rows)
    &&& distinct_upto(progs[j]@, f, n)
}

/// `f` and `g` embed the whole of program `j` in `m`.
pub open spec fn embeds(
    progs: Seq<Vec<TreeNode>>,
    j: int,
    m: Molecule,
    f: Seq<usize>,
    g: Seq<usize>,
    rows: Seq<Seq<bool>>,
) -> bool {
    &&& 0 <= j < progs.len()
    &&& f.len() == progs[j]@.len()
    &&& g.len() == progs[j]@.len()
    &&& partial_ok(progs, j, m, f, g, progs[j]@.len() as int, rows)
}

/// Program `j` embeds in `m`, with its first atom on `start` when given.
pub open spec fn prog_matches(
    progs: Seq<Vec<TreeNode>>,
    j: int,
    m: Molecule,
    start: Option<int>,
    rows: Seq<Seq<bool>>,
) -> bool {
    exists|f: Seq<usize>, g: Seq<usize>|
        #[trigger] embeds(progs, j, m, f, g, rows) && (start matches Some(a) ==> f.len() > 0 && f[0] == a)
}

/// For every program from `j` on, whether it matches with its first atom on
/// each atom of `m`; the rows of earlier programs are empty.
pub open spec fn rows_from(progs: Seq<Vec<TreeNode>>, m: Molecule, j: int) -> Seq<Seq<bool>>
    decreases progs.len() - j,
{
    if 0 <= j < progs.len() {
        let later = rows_from(progs, m, j + 1);
        later.update(
            j,
            Seq::new(m.atoms@.len(), |a: int| prog_matches(progs, j, m, Some(a), later)),
        )
    } else {
        Seq::new(progs.len(), |k: int| Seq::<bool>::empty())
    }
}

/// Whether a compiled pattern matches a molecule: some embedding of its
/// program 0, with each embedded pattern holding of its atom exactly when
/// that pattern's program matches there.
pub open spec fn smarts_matches(progs: Seq<Vec<TreeNode>>, m: Molecule) -> bool {
    progs.len() > 0 && prog_matches(progs, 0, m, None, rows_from(progs, m, 1))
}

/// `f` agrees with `f0` below `n` on the nodes that bind an atom.
pub open spec fn agree(p: Seq<TreeNode>, f: Seq<usize>, f0: Seq<usize>, n: int) -> bool {
    forall|k: int| 0 <= k < n && binds_atom(p[k]) ==> #[trigger] f[k] == f0[k]
}

/// `g` agrees with `g0` below `n` on the nodes that bind a bond.
pub open spec fn agree_bonds(p: Seq<TreeNode>, g: Seq<usize>, g0: Seq<usize>, n: int) -> bool {
    forall|k: int| 0 <= k < n && p[k].op_code != OpCode::SeedAtom ==> #[trigger] g[k] == g0[k]
}

/// Some embedding of program `j` extends the bindings below `pos`.
pub open spec fn extends(
    progs: Seq<Vec<TreeNode>>,
    j: int,
    m: Molecule,
    f0: Seq<usize>,
    g0: Seq<usize>,
    pos: int,
    rows: Seq<Seq<bool>>,
) -> bool {
    exists|f: Seq<usize>, g: Seq<usize>|
        #[trigger] embeds(progs, j, m, f, g, rows) && agree(progs[j]@, f, f0, pos) && agree_bonds(progs[j]@, g, g0, pos)
}

/// Whether node `k` holds depends only on the bindings up to `k`.
proof fn lemma_node_agree(
    progs: Seq<Vec<TreeNode>>,
    j: int,
    m: Molecule,
    f1: Seq<usize>,
    g1: Seq<usize>,
    f2: Seq<usize>,
    g2: Seq<usize>,
    k: int,
    rows: Seq<Seq<bool>>,
)
    requires
        0 <= j < progs.len(),
        0 <= k < progs[j]@.len(),
        node_ok(progs, j, m, f1, g1, k, rows),
        agree(progs[j]@, f1, f2, k + 1),
        agree_bonds(progs[j]@, g1, g2, k + 1),
    ensures
        node_ok(progs, j, m, f2, g2, k, rows),
{
    let n = progs[j]@[k];
    if binds_atom(n) {
        assert(f1[k] == f2[k]);
    }
    if n.op_code != OpCode::SeedAtom {
        assert(g1[k] == g2[k]);
        assert(f1[n.src as int] == f2[n.src as int]);
    }
    if n.op_code == OpCode::CloseRing {
        assert(f1[n.dst as int] == f2[n.dst as int]);
    }
}

/// Whether the first `n` nodes hold depends only on the bindings below `n`.
proof fn lemma_partial_agree(
    progs: Seq<Vec<TreeNode>>,
    j: int,
    m: Molecule,
    f1: Seq<usize>,
    g1: Seq<usize>,
    f2: Seq<usize>,
    g2: Seq<usize>,
    n: int,
    rows: Seq<Seq<bool>>,
)
    requires
        0 <= j < progs.len(),
        0 <= n <= progs[j]@.len(),
        partial_ok(progs, j, m, f1, g1, n, rows),
        agree(progs[j]@, f1, f2, n),
        agree_bonds(progs[j]@, g1, g2, n),
    ensures
        partial_ok(progs, j, m, f2, g2, n, rows),
{
    assert forall|k: int| 0 <= k < n implies #[trigger] node_ok(progs, j, m, f2, g2, k, rows) by {
        assert(node_ok(progs, j, m, f1, g1, k, rows));
        lemma_node_agree(progs, j, m, f1, g1, f2, g2, k, rows);
    }
    let p = progs[j]@;
    assert forall|k1: int, k2: int|
        0 <= k1 < n && 0 <= k2 < n && k1 != k2 && binds_atom(#[trigger] p[k1]) && binds_atom(
            #[trigger] p[k2],
        ) implies f2[k1] != f2[k2] by {
        assert(f1[k1] == f2[k1] && f1[k2] == f2[k2]);
    }
}

/// Adding node `pos` to a partial binding.
proof fn lemma_partial_extend(
    progs: Seq<Vec<TreeNode>>,
    j: int,
    m: Molecule,
    f: Seq<usize>,
    g: Seq<usize>,
    pos: int,
    rows: Seq<Seq<bool>>,
)
    requires
        0 <= j < progs.len(),
        0 <= pos < progs[j]@.len(),
        partial_ok(progs, j, m, f, g, pos, rows),
        node_ok(progs, j, m, f, g, pos, rows),
        binds_atom(progs[j]@[pos]) ==> forall|k: int|
            0 <= k < pos && binds_atom(#[trigger] progs[j]@[k]) ==> f[k] != f[pos],
    ensures
        partial_ok(progs, j, m, f, g, pos + 1, rows),
{
    let p = progs[j]@;
    assert forall|k: int| 0 <= k < pos + 1 implies #[trigger] node_ok(progs, j, m, f, g, k, rows) by {
        if k < pos {
            assert(node_ok(progs, j, m, f, g, k, rows));
        }
    }
    assert forall|k1: int, k2: int|
        0 <= k1 < pos + 1 && 0 <= k2 < pos + 1 && k1 != k2 && binds_atom(#[trigger] p[k1])
            && binds_atom(#[trigger] p[k2]) implies f[k1] != f[k2] by {
        if k1 < pos && k2 < pos {
            assert(distinct_upto(p, f, pos));
        }
    }
}

/// A binding that extends one more node extends the shorter prefix too.
proof fn lemma_extends_shorter(
    progs: Seq<Vec<TreeNode>>,
    j: int,
    m: Molecule,
    f0: Seq<usize>,
    g0: Seq<usize>,
    f1: Seq<usize>,
    g1: Seq<usize>,
    pos: int,
    rows: Seq<Seq<bool>>,
)
    requires
        0 <= j < progs.len(),
        extends(progs, j, m, f1, g1, pos + 1, rows),
        agree(progs[j]@, f1, f0, pos),
        agree_bonds(progs[j]@, g1, g0, pos),
    ensures
        extends(progs, j, m, f0, g0, pos, rows),
{
    let (f, g) = choose|f: Seq<usize>, g: Seq<usize>|
        #[trigger] embeds(progs, j, m, f, g, rows) && agree(progs[j]@, f, f1, pos + 1) && agree_bonds(
            progs[j]@,
            g,
            g1,
            pos + 1,
        );
    assert(agree(progs[j]@, f, f0, pos));
    assert(agree_bonds(progs[j]@, g, g0, pos));
}

/// Extending depends only on the bindings below `pos`.
proof fn lemma_extends_agree(
    progs: Seq<Vec<TreeNode>>,
    j: int,
    m: Molecule,
    f0: Seq<usize>,
    g0: Seq<usize>,
    f1: Seq<usize>,
    g1: Seq<usize>,
    pos: int,
    rows: Seq<Seq<bool>>,
)
    requires
        0 <= j < progs.len(),
        agree(progs[j]@, f1, f0, pos),
        agree_bonds(progs[j]@, g1, g0, pos),
    ensures
        extends(progs, j, m, f0, g0, pos, rows) == extends(progs, j, m, f1, g1, pos, rows),
{
    if extends(progs, j, m, f0, g0, pos, rows) {
        let (f, g) = choose|f: Seq<usize>, g: Seq<usize>|
            #[trigger] embeds(progs, j, m, f, g, rows) && agree(progs[j]@, f, f0, pos) && agree_bonds(progs[j]@, g, g0, pos);
        assert(agree(progs[j]@, f, f1, pos));
        assert(agree_bonds(progs[j]@, g, g1, pos));
    }
    if extends(progs, j, m, f1, g1, pos, rows) {
        let (f, g) = choose|f: Seq<usize>, g: Seq<usize>|
            #[trigger] embeds(progs, j, m, f, g, rows) && agree(progs[j]@, f, f1, pos) && agree_bonds(progs[j]@, g, g1, pos);
        assert(agree(progs[j]@, f, f0, pos));
        assert(agree_bonds(progs[j]@, g, g0, pos));
    }
}

/// The table that `rows` holds, as sequences.
pub open spec fn table_view(rows: Seq<Vec<bool>>) -> Seq<Seq<bool>> {
    Seq::new(rows.len(), |k: int| rows[k]@)
}

/// The end of bond `b` that is not `x`.
pub open spec fn other_end(b: Bond, x: usize) -> usize {
    if b.source == x {
        b.dest
    } else {
        b.source
    }
}

/// Whether atom `a` is already bound to one of the first `pos` nodes.
fn is_bound(p: &Vec<TreeNode>, fm: &Vec<usize>, pos: usize, a: usize) -> (r: bool)
    requires
        pos <= p@.len(),
        p@.len() == fm@.len(),
    ensures
        r == exists|k: int| 0 <= k < pos && binds_atom(#[trigger] p@[k]) && fm@[k] == a,
{
    let mut k: usize = 0;
    while k < pos
        invariant
            k <= pos,
            pos <= p@.len(),
            p@.len() == fm@.len(),
            forall|x: int| 0 <= x < k ==> !(binds_atom(#[trigger] p@[x]) && fm@[x] == a),
        decreases pos - k,
    {
        let op = p[k].op_code;
        if (matches!(op, OpCode::SeedAtom) || matches!(op, OpCode::GrowBond)) && fm[k] == a {
            return true;
        }
        k += 1;
    }
    false
}

pub fn eval_bond_expr(expr: &Expr, bond: &Bond) -> (r: bool)
    ensures
        r == bond_sat(*expr, *bond),
    decreases expr,
{
    match expr.expr_type {
        ExprType::BeAndhi | ExprType::BeAndlo => match (&expr.left, &expr.right) {
            (Some(l), Some(r)) => eval_bond_expr(l, bond) && eval_bond_expr(r, bond),
            _ => false,
        },
        ExprType::BeOr => match (&expr.left, &expr.right) {
            (Some(l), Some(r)) => eval_bond_expr(l, bond) || eval_bond_expr(r, bond),
            _ => false,
        },
        ExprType::BeNot => match &expr.left {
            Some(l) => !eval_bond_expr(l, bond),
            None => false,
        },
        ExprType::BeAny => true,
        ExprType::BeDefault => bond.bond_order == 1 || bond.arom,
        ExprType::BeSingle => bond.bond_order == 1 && !bond.arom,
        ExprType::BeDouble => bond.bond_order == 2 && !bond.arom,
        ExprType::BeTriple => bond.bond_order == 3,
        ExprType::BeQuad => bond.bond_order == 4,
        ExprType::BeArom => bond.arom,
        ExprType::BeRing => bond.ring,
        ExprType::BeUp => matches!(bond.axialness, Axialness::UP),
        ExprType::BeDown => matches!(bond.axialness, Axialness::DOWN),
        ExprType::BeUpunspec => !matches!(bond.axialness, Axialness::DOWN),
        ExprType::BeDownunspec => !matches!(bond.axialness, Axialness::UP),
        _ => false,
    }
}

/// The order sum, ring-bond count and highest order of the bonds of atom `a`.
fn bond_stats(mol: &Molecule, a: usize) -> (r: (u128, usize, u8))
    requires
        mol.wf(),
        a < mol.atoms@.len(),
    ensures
        r.0 as int == list_order_sum(mol.bonds@, incident(mol.bonds@, a as int)),
        r.1 as int == list_ring_count(mol.bonds@, incident(mol.bonds@, a as int)),
        r.2 as int == list_max_order(mol.bonds@, incident(mol.bonds@, a as int)),
        r.0 as int <= 4 * usize::MAX,
{
    let list = mol.incident_bonds(a);
    let ghost l = list@;
    proof {
        assert(mol.bonds@.len() == mol.bonds.len());
        lemma_incident(mol.bonds@, a as int);
    }
    let mut sum: u128 = 0;
    let mut rings: usize = 0;
    let mut top: u8 = 0;
    let mut k: usize = 0;
    while k < list.len()
        invariant
            mol.wf(),
            l == list@,
            l == incident(mol.bonds@, a as int),
            forall|x: int| 0 <= x < l.len() ==> (l[x] as int) < mol.bonds@.len(),
            k <= l.len(),
            sum as int == list_order_sum(mol.bonds@, l.take(k as int)),
            sum <= 4 * k,
            rings as int == list_ring_count(mol.bonds@, l.take(k as int)),
            rings <= k,
            top as int == list_max_order(mol.bonds@, l.take(k as int)),
        decreases l.len() - k,
    {
        let bond = &mol.bonds[list[k]];
        proof {
            assert(l.take(k as int + 1).drop_last() =~= l.take(k as int));
            assert(mol.bonds@[l[k as int] as int] == *bond);
        }
        sum = sum + bond.bond_order as u128;
        if bond.ring {
            rings = rings + 1;
        }
        if bond.bond_order > top {
            top = bond.bond_order;
        }
        k += 1;
    }
    assert(l.take(k as int) =~= l);
    (sum, rings, top)
}

/// Evaluates a leaf atom predicate on atom `a`.
fn eval_atom_leaf(t: ExprType, v: i32, mol: &Molecule, a: usize) -> (r: bool)
    requires
        mol.wf(),
        a < mol.atoms@.len(),
    ensures
        r == atom_leaf(t, v as int, *mol, a as int),
{
    let at = &mol.atoms[a];
    let degree = mol.incident_bonds(a).len();
    match t {
        ExprType::True => true,
        ExprType::AeAromatic => at.aromatic,
        ExprType::AeAliphatic => !at.aromatic,
        ExprType::AeCyclic => at.ring,
        ExprType::AeAcyclic => !at.ring,
        ExprType::AeMass => default_mass(at.element) as i32 == v || (at.isotope != 0
            && at.isotope as i32 == v) || (at.isotope == 0 && v == 0),
        ExprType::AeElem => at.element as i32 == v,
        ExprType::AeAromelem => at.element as i32 == v && at.aromatic,
        ExprType::AeAliphelem => at.element as i32 == v && !at.aromatic,
        ExprType::AeHcount => at.hydrogens as i32 == v,
        ExprType::AeImplicit => at.hydrogens as i32 == v,
        ExprType::AeCharge => at.f_charge as i32 == v,
        ExprType::AeDegree => v >= 0 && degree as u128 == v as u128,
        ExprType::AeConnect => v >= 0 && degree as u128 + at.hydrogens as u128 == v as u128,
        ExprType::AeValence => {
            let (sum, _, _) = bond_stats(mol, a);
            v >= 0 && sum + at.hydrogens as u128 == v as u128
        },
        ExprType::AeRingconnect => {
            let (_, rings, _) = bond_stats(mol, a);
            v >= 0 && rings as u128 == v as u128
        },
        ExprType::AeRings => {
            let (_, rings, _) = bond_stats(mol, a);
            v >= 0 && rings as u128 == v as u128
        },
        ExprType::AeSize => if v == 0 {
            !at.ring
        } else {
            at.ring
        },
        ExprType::AeChiral => at.configuration.is_some(),
        ExprType::AlClockwise => matches!(at.configuration, Some(Configuration::TH2)),
        ExprType::AlAnticlockwise => matches!(at.configuration, Some(Configuration::TH1)),
        ExprType::AlUnspecified => at.configuration.is_none(),
        ExprType::AeHyb => {
            let (_, _, top) = bond_stats(mol, a);
            let hyb: i32 = if top >= 3 {
                1
            } else if top == 2 || at.aromatic {
                2
            } else {
                3
            };
            hyb == v
        },
        _ => false,
    }
}

/// Evaluates atom expression `e` of program `i` on atom `a`; `rows` holds
/// the answers of the embedded patterns.
pub fn eval_atom_expr(
    progs: &Vec<Vec<TreeNode>>,
    i: usize,
    e: &Expr,
    mol: &Molecule,
    a: usize,
    rows: &Vec<Vec<bool>>,
) -> (r: bool)
    requires
        mol.wf(),
        a < mol.atoms@.len(),
    ensures
        r == atom_sat(progs@, i as int, *e, *mol, a as int, table_view(rows@)),
    decreases e,
{
    match e.expr_type {
        ExprType::AeAndhi | ExprType::AeAndlo => match (&e.left, &e.right) {
            (Some(l), Some(r)) => eval_atom_expr(progs, i, l, mol, a, rows) && eval_atom_expr(
                progs,
                i,
                r,
                mol,
                a,
                rows,
            ),
            _ => false,
        },
        ExprType::AeOr => match (&e.left, &e.right) {
            (Some(l), Some(r)) => eval_atom_expr(progs, i, l, mol, a, rows) || eval_atom_expr(
                progs,
                i,
                r,
                mol,
                a,
                rows,
            ),
            _ => false,
        },
        ExprType::AeNot => match &e.left {
            Some(l) => !eval_atom_expr(progs, i, l, mol, a, rows),
            None => false,
        },
        ExprType::AeRecur => {
            if e.val < 0 {
                return false;
            }
            let k = e.val as usize;
            if i < k && k < progs.len() && k < rows.len() && a < rows[k].len() {
                rows[k][a]
            } else {
                false
            }
        },
        _ => eval_atom_leaf(e.expr_type, e.val, mol, a),
    }
}

/// What every step of the search keeps: the bindings below `pos` hold.
pub open spec fn search_ok(
    progs: Seq<Vec<TreeNode>>,
    j: int,
    m: Molecule,
    rows: Seq<Seq<bool>>,
    fm: Seq<usize>,
    gm: Seq<usize>,
    pos: int,
) -> bool {
    &&& m.wf()
    &&& 0 <= j < progs.len()
    &&& progs[j]@.len() <= usize::MAX
    &&& fm.len() == progs[j]@.len()
    &&& gm.len() == progs[j]@.len()
    &&& 0 <= pos <= progs[j]@.len()
    &&& partial_ok(progs, j, m, fm, gm, pos, rows)
}

/// Runs program `j` from node `pos` on, with the nodes below `pos` bound as
/// `fm` and `gm` say; true when the bindings extend to a full embedding.
fn match_recursive(
    progs: &Vec<Vec<TreeNode>>,
    j: usize,
    mol: &Molecule,
    rows: &Vec<Vec<bool>>,
    pos: usize,
    fm: &mut Vec<usize>,
    gm: &mut Vec<usize>,
) -> (r: bool)
    requires
        search_ok(progs@, j as int, *mol, table_view(rows@), old(fm)@, old(gm)@, pos as int),
    ensures
        r == extends(progs@, j as int, *mol, old(fm)@, old(gm)@, pos as int, table_view(rows@)),
        final(fm)@.len() == old(fm)@.len(),
        final(gm)@.len() == old(gm)@.len(),
        agree(progs@[j as int]@, final(fm)@, old(fm)@, pos as int),
        agree_bonds(progs@[j as int]@, final(gm)@, old(gm)@, pos as int),
        !r ==> final(fm)@ == old(fm)@ && final(gm)@ == old(gm)@,
    decreases progs@[j as int]@.len() - pos, 1int,
{
    let n = progs[j].len();
    if pos == n {
        proof {
            let t = table_view(rows@);
            assert(embeds(progs@, j as int, *mol, fm@, gm@, t));
            assert(agree(progs@[j as int]@, fm@, fm@, pos as int));
            assert(agree_bonds(progs@[j as int]@, gm@, gm@, pos as int));
        }
        return true;
    }
    match progs[j][pos].op_code {
        OpCode::SeedAtom => seed_atom(progs, j, mol, rows, pos, fm, gm),
        OpCode::GrowBond => grow_bond(progs, j, mol, rows, pos, fm, gm),
        OpCode::CloseRing => close_ring(progs, j, mol, rows, pos, fm, gm),
    }
}

/// A seed node: tries every atom, in ascending order.
fn seed_atom(
    progs: &Vec<Vec<TreeNode>>,
    j: usize,
    mol: &Molecule,
    rows: &Vec<Vec<bool>>,
    pos: usize,
    fm: &mut Vec<usize>,
    gm: &mut Vec<usize>,
) -> (r: bool)
    requires
        search_ok(progs@, j as int, *mol, table_view(rows@), old(fm)@, old(gm)@, pos as int),
        pos < progs@[j as int]@.len(),
        progs@[j as int]@[pos as int].op_code == OpCode::SeedAtom,
    ensures
        r == extends(progs@, j as int, *mol, old(fm)@, old(gm)@, pos as int, table_view(rows@)),
        final(fm)@.len() == old(fm)@.len(),
        final(gm)@.len() == old(gm)@.len(),
        agree(progs@[j as int]@, final(fm)@, old(fm)@, pos as int),
        agree_bonds(progs@[j as int]@, final(gm)@, old(gm)@, pos as int),
        !r ==> final(fm)@ == old(fm)@ && final(gm)@ == old(gm)@,
    decreases progs@[j as int]@.len() - pos, 0int,
{
    let ghost f0 = fm@;
    let ghost g0 = gm@;
    let ghost t = table_view(rows@);
    let ghost ps = progs@;
    let ghost p = progs@[j as int]@;
    let node = &progs[j][pos];
    let saved_f = fm[pos];
    let n_atoms = mol.atoms.len();
    let mut a: usize = 0;
    while a < n_atoms
        invariant
            search_ok(ps, j as int, *mol, t, f0, g0, pos as int),
            f0 == old(fm)@,
            g0 == old(gm)@,
            ps == progs@,
            p == progs@[j as int]@,
            t == table_view(rows@),
            pos < p.len(),
            p[pos as int].op_code == OpCode::SeedAtom,
            *node == p[pos as int],
            n_atoms == mol.atoms@.len(),
            fm@ == f0,
            gm@ == g0,
            saved_f == f0[pos as int],
            a <= n_atoms,
            forall|x: usize|
                x < a ==> !#[trigger] extends(ps, j as int, *mol, f0.update(pos as int, x), g0, pos + 1, t),
        decreases n_atoms - a,
    {
        let bound = is_bound(&progs[j], fm, pos, a);
        let fits = if bound {
            false
        } else {
            eval_atom_expr(progs, j, &node.data, mol, a, rows)
        };
        let ghost f1 = f0.update(pos as int, a);
        if fits {
            let ghost gb = gm@;
            fm.set(pos, a);
            proof {
                lemma_partial_agree(ps, j as int, *mol, f0, g0, fm@, gm@, pos as int, t);
                assert(node_ok(ps, j as int, *mol, fm@, gm@, pos as int, t));
                lemma_partial_extend(ps, j as int, *mol, fm@, gm@, pos as int, t);
                assert(agree(p, fm@, f1, pos + 1));
                assert(agree_bonds(p, gm@, g0, pos + 1));
                lemma_extends_agree(ps, j as int, *mol, f1, g0, fm@, gm@, pos + 1, t);
            }
            let found = match_recursive(progs, j, mol, rows, pos + 1, fm, gm);
            if found {
                proof {
                    lemma_extends_shorter(ps, j as int, *mol, f0, g0, f1, g0, pos as int, t);
                }
                return true;
            }
            fm.set(pos, saved_f);
            proof {
                assert(fm@ =~= f0);
            }
        } else {
            proof {
                if extends(ps, j as int, *mol, f1, g0, pos + 1, t) {
                    let (f, g) = choose|f: Seq<usize>, g: Seq<usize>|
                        #[trigger] embeds(ps, j as int, *mol, f, g, t) && agree(p, f, f1, pos + 1)
                            && agree_bonds(p, g, g0, pos + 1);
                    assert(f[pos as int] == a);
                    assert(node_ok(ps, j as int, *mol, f, g, pos as int, t));
                    if bound {
                        let k = choose|k: int| 0 <= k < pos && binds_atom(#[trigger] p[k]) && fm@[k] == a;
                        assert(f[k] == f0[k]);
                        assert(distinct_upto(p, f, p.len() as int));
                        assert(binds_atom(p[pos as int]));
                    }
                }
            }
        }
        a += 1;
    }
    proof {
        if extends(ps, j as int, *mol, f0, g0, pos as int, t) {
            let (f, g) = choose|f: Seq<usize>, g: Seq<usize>|
                #[trigger] embeds(ps, j as int, *mol, f, g, t) && agree(p, f, f0, pos as int) && agree_bonds(p, g, g0, pos as int);
            let x = f[pos as int];
            assert(node_ok(ps, j as int, *mol, f, g, pos as int, t));
            assert(agree(p, f, f0.update(pos as int, x), pos + 1));
            assert(agree_bonds(p, g, g0, pos + 1));
            assert(extends(ps, j as int, *mol, f0.update(pos as int, x), g0, pos + 1, t));
        }
    }
    false
}

/// A grow node: tries each bond of the atom extended from, in the order
/// of the atom's bond list.
fn grow_bond(
    progs: &Vec<Vec<TreeNode>>,
    j: usize,
    mol: &Molecule,
    rows: &Vec<Vec<bool>>,
    pos: usize,
    fm: &mut Vec<usize>,
    gm: &mut Vec<usize>,
) -> (r: bool)
    requires
        search_ok(progs@, j as int, *mol, table_view(rows@), old(fm)@, old(gm)@, pos as int),
        pos < progs@[j as int]@.len(),
        progs@[j as int]@[pos as int].op_code == OpCode::GrowBond,
    ensures
        r == extends(progs@, j as int, *mol, old(fm)@, old(gm)@, pos as int, table_view(rows@)),
        final(fm)@.len() == old(fm)@.len(),
        final(gm)@.len() == old(gm)@.len(),
        agree(progs@[j as int]@, final(fm)@, old(fm)@, pos as int),
        agree_bonds(progs@[j as int]@, final(gm)@, old(gm)@, pos as int),
        !r ==> final(fm)@ == old(fm)@ && final(gm)@ == old(gm)@,
    decreases progs@[j as int]@.len() - pos, 0int,
{
    let ghost f0 = fm@;
    let ghost g0 = gm@;
    let ghost t = table_view(rows@);
    let ghost ps = progs@;
    let ghost p = progs@[j as int]@;
    let node = &progs[j][pos];
    let src = node.src;
    if src >= pos || matches!(progs[j][src].op_code, OpCode::CloseRing) {
        proof {
            if extends(ps, j as int, *mol, f0, g0, pos as int, t) {
                let (f, g) = choose|f: Seq<usize>, g: Seq<usize>|
                    #[trigger] embeds(ps, j as int, *mol, f, g, t) && agree(p, f, f0, pos as int) && agree_bonds(p, g, g0, pos as int);
                assert(node_ok(ps, j as int, *mol, f, g, pos as int, t));
            }
        }
        return false;
    }
    proof {
        assert(node_ok(ps, j as int, *mol, f0, g0, src as int, t));
        assert(mol.bonds@.len() == mol.bonds.len());
    }
    let a0 = fm[src];
    let saved_f = fm[pos];
    let saved_g = gm[pos];
    let list = mol.incident_bonds(a0);
    let ghost l = list@;
    proof {
        lemma_incident(mol.bonds@, a0 as int);
    }
    let mut k: usize = 0;
    while k < list.len()
        invariant
            search_ok(ps, j as int, *mol, t, f0, g0, pos as int),
            f0 == old(fm)@,
            g0 == old(gm)@,
            ps == progs@,
            p == progs@[j as int]@,
            t == table_view(rows@),
            pos < p.len(),
            p[pos as int].op_code == OpCode::GrowBond,
            *node == p[pos as int],
            src == node.src,
            src < pos,
            binds_atom(p[src as int]),
            a0 == f0[src as int],
            a0 < mol.atoms@.len(),
            l == list@,
            l == incident(mol.bonds@, a0 as int),
            forall|x: int| 0 <= x < l.len() ==> (l[x] as int) < mol.bonds@.len() && touches(mol.bonds@[l[x] as int], a0 as int),
            fm@ == f0,
            gm@ == g0,
            saved_f == f0[pos as int],
            saved_g == g0[pos as int],
            k <= l.len(),
            forall|x: int|
                0 <= x < k ==> !extends(
                    ps,
                    j as int,
                    *mol,
                    f0.update(pos as int, other_end(mol.bonds@[#[trigger] l[x] as int], a0)),
                    g0.update(pos as int, l[x]),
                    pos + 1,
                    t,
                ),
        decreases l.len() - k,
    {
        let b = list[k];
        let bond = &mol.bonds[b];
        let other = if bond.source == a0 {
            bond.dest
        } else {
            bond.source
        };
        proof {
            assert(mol.bonds@[b as int] == *bond);
        }
        let bound = is_bound(&progs[j], fm, pos, other);
        let fits = if bound {
            false
        } else {
            eval_bond_expr(&node.bond, bond) && eval_atom_expr(progs, j, &node.data, mol, other, rows)
        };
        let ghost f1 = f0.update(pos as int, other);
        let ghost g1 = g0.update(pos as int, b);
        proof {
            assert(other == other_end(mol.bonds@[l[k as int] as int], a0));
            assert(connects(*bond, a0 as int, other as int));
        }
        if fits {
            fm.set(pos, other);
            gm.set(pos, b);
            proof {
                lemma_partial_agree(ps, j as int, *mol, f0, g0, fm@, gm@, pos as int, t);
                assert(fm@[src as int] == a0);
                assert(node_ok(ps, j as int, *mol, fm@, gm@, pos as int, t));
                lemma_partial_extend(ps, j as int, *mol, fm@, gm@, pos as int, t);
                assert(agree(p, fm@, f1, pos + 1));
                assert(agree_bonds(p, gm@, g1, pos + 1));
                lemma_extends_agree(ps, j as int, *mol, f1, g1, fm@, gm@, pos + 1, t);
            }
            let found = match_recursive(progs, j, mol, rows, pos + 1, fm, gm);
            if found {
                proof {
                    lemma_extends_shorter(ps, j as int, *mol, f0, g0, f1, g1, pos as int, t);
                }
                return true;
            }
            fm.set(pos, saved_f);
            gm.set(pos, saved_g);
            proof {
                assert(fm@ =~= f0);
                assert(gm@ =~= g0);
            }
        } else {
            proof {
                if extends(ps, j as int, *mol, f1, g1, pos + 1, t) {
                    let (f, g) = choose|f: Seq<usize>, g: Seq<usize>|
                        #[trigger] embeds(ps, j as int, *mol, f, g, t) && agree(p, f, f1, pos + 1)
                            && agree_bonds(p, g, g1, pos + 1);
                    assert(f[pos as int] == other);
                    assert(g[pos as int] == b);
                    assert(node_ok(ps, j as int, *mol, f, g, pos as int, t));
                    if bound {
                        let kk = choose|kk: int| 0 <= kk < pos && binds_atom(#[trigger] p[kk]) && fm@[kk] == other;
                        assert(f[kk] == f0[kk]);
                        assert(distinct_upto(p, f, p.len() as int));
                        assert(binds_atom(p[pos as int]));
                    }
                }
            }
        }
        k += 1;
    }
    proof {
        if extends(ps, j as int, *mol, f0, g0, pos as int, t) {
            let (f, g) = choose|f: Seq<usize>, g: Seq<usize>|
                #[trigger] embeds(ps, j as int, *mol, f, g, t) && agree(p, f, f0, pos as int) && agree_bonds(p, g, g0, pos as int);
            assert(node_ok(ps, j as int, *mol, f, g, pos as int, t));
            let bb = g[pos as int];
            assert(f[src as int] == a0);
            let bond = mol.bonds@[bb as int];
            assert(touches(bond, a0 as int));
            assert(l.contains(bb));
            let x = choose|x: int| 0 <= x < l.len() && l[x] == bb;
            assert(other_end(mol.bonds@[l[x] as int], a0) == f[pos as int]);
            assert(agree(p, f, f0.update(pos as int, f[pos as int]), pos + 1));
            assert(agree_bonds(p, g, g0.update(pos as int, bb), pos + 1));
            assert(extends(ps, j as int, *mol, f0.update(pos as int, f[pos as int]), g0.update(pos as int, bb), pos + 1, t));
        }
    }
    false
}

/// A ring node: checks the lowest-index bond between its two atoms.
fn close_ring(
    progs: &Vec<Vec<TreeNode>>,
    j: usize,
    mol: &Molecule,
    rows: &Vec<Vec<bool>>,
    pos: usize,
    fm: &mut Vec<usize>,
    gm: &mut Vec<usize>,
) -> (r: bool)
    requires
        search_ok(progs@, j as int, *mol, table_view(rows@), old(fm)@, old(gm)@, pos as int),
        pos < progs@[j as int]@.len(),
        progs@[j as int]@[pos as int].op_code == OpCode::CloseRing,
    ensures
        r == extends(progs@, j as int, *mol, old(fm)@, old(gm)@, pos as int, table_view(rows@)),
        final(fm)@.len() == old(fm)@.len(),
        final(gm)@.len() == old(gm)@.len(),
        agree(progs@[j as int]@, final(fm)@, old(fm)@, pos as int),
        agree_bonds(progs@[j as int]@, final(gm)@, old(gm)@, pos as int),
        !r ==> final(fm)@ == old(fm)@ && final(gm)@ == old(gm)@,
    decreases progs@[j as int]@.len() - pos, 0int,
{
    let ghost f0 = fm@;
    let ghost g0 = gm@;
    let ghost t = table_view(rows@);
    let ghost ps = progs@;
    let ghost p = progs@[j as int]@;
    let node = &progs[j][pos];
    let src = node.src;
    let dst = node.dst;
    if src >= pos || dst >= pos || matches!(progs[j][src].op_code, OpCode::CloseRing) || matches!(
        progs[j][dst].op_code,
        OpCode::CloseRing,
    ) {
        proof {
            if extends(ps, j as int, *mol, f0, g0, pos as int, t) {
                let (f, g) = choose|f: Seq<usize>, g: Seq<usize>|
                    #[trigger] embeds(ps, j as int, *mol, f, g, t) && agree(p, f, f0, pos as int) && agree_bonds(p, g, g0, pos as int);
                assert(node_ok(ps, j as int, *mol, f, g, pos as int, t));
            }
        }
        return false;
    }
    proof {
        assert(node_ok(ps, j as int, *mol, f0, g0, src as int, t));
        assert(node_ok(ps, j as int, *mol, f0, g0, dst as int, t));
    }
    let x = fm[src];
    let y = fm[dst];
    let found_bond = mol.get_bond(x, y);
    let ok = match found_bond {
        Some(b) => eval_bond_expr(&node.bond, &mol.bonds[b]),
        None => false,
    };
    if ok {
        let b = found_bond.unwrap();
        let ghost g1 = g0.update(pos as int, b);
        let saved_g = gm[pos];
        gm.set(pos, b);
        proof {
            lemma_partial_agree(ps, j as int, *mol, f0, g0, fm@, gm@, pos as int, t);
            assert(node_ok(ps, j as int, *mol, fm@, gm@, pos as int, t));
            lemma_partial_extend(ps, j as int, *mol, fm@, gm@, pos as int, t);
            assert(agree_bonds(p, gm@, g1, pos + 1));
            assert(agree(p, fm@, f0, pos + 1));
            lemma_extends_agree(ps, j as int, *mol, f0, g1, fm@, gm@, pos + 1, t);
        }
        let r = match_recursive(progs, j, mol, rows, pos + 1, fm, gm);
        if !r {
            gm.set(pos, saved_g);
            proof {
                assert(gm@ =~= g0);
            }
        }
        proof {
            if r {
                lemma_extends_shorter(ps, j as int, *mol, f0, g0, f0, g1, pos as int, t);
            } else if extends(ps, j as int, *mol, f0, g0, pos as int, t) {
                let (f, g) = choose|f: Seq<usize>, g: Seq<usize>|
                    #[trigger] embeds(ps, j as int, *mol, f, g, t) && agree(p, f, f0, pos as int) && agree_bonds(p, g, g0, pos as int);
                assert(node_ok(ps, j as int, *mol, f, g, pos as int, t));
                let gb = g[pos as int];
                if gb < b {
                    assert(connects(mol.bonds@[gb as int], x as int, y as int));
                } else if gb > b {
                    assert(connects(mol.bonds@[b as int], f[src as int] as int, f[dst as int] as int));
                }
                assert(agree_bonds(p, g, g1, pos + 1));
                assert(agree(p, f, f0, pos + 1));
                assert(extends(ps, j as int, *mol, f0, g1, pos + 1, t));
            }
        }
        r
    } else {
        proof {
            if extends(ps, j as int, *mol, f0, g0, pos as int, t) {
                let (f, g) = choose|f: Seq<usize>, g: Seq<usize>|
                    #[trigger] embeds(ps, j as int, *mol, f, g, t) && agree(p, f, f0, pos as int) && agree_bonds(p, g, g0, pos as int);
                assert(node_ok(ps, j as int, *mol, f, g, pos as int, t));
                let gb = g[pos as int];
                assert(f[src as int] == x && f[dst as int] == y);
                match found_bond {
                    Some(b) => {
                        if gb < b {
                            assert(connects(mol.bonds@[gb as int], x as int, y as int));
                        } else if gb > b {
                            assert(connects(mol.bonds@[b as int], x as int, y as int));
                        }
                    },
                    None => {
                        assert(connects(mol.bonds@[gb as int], x as int, y as int));
                    },
                }
            }
        }
        false
    }
}

/// `Some(a)` as an integer start.
pub open spec fn start_of(start: Option<usize>) -> Option<int> {
    match start {
        Some(a) => Some(a as int),
        None => None,
    }
}

/// Runs program `j` on the molecule; with a start atom, its first node is
/// bound to that atom.
fn match_program(
    progs: &Vec<Vec<TreeNode>>,
    j: usize,
    mol: &Molecule,
    rows: &Vec<Vec<bool>>,
    start: Option<usize>,
) -> (r: bool)
    requires
        mol.wf(),
        j < progs@.len(),
    ensures
        r == prog_matches(progs@, j as int, *mol, start_of(start), table_view(rows@)),
{
    let ghost t = table_view(rows@);
    let ghost ps = progs@;
    let ghost p = progs@[j as int]@;
    let n = progs[j].len();
    let mut fm: Vec<usize> = Vec::new();
    let mut gm: Vec<usize> = Vec::new();
    let mut i: usize = 0;
    while i < n
        invariant
            i <= n,
            n == p.len(),
            fm@.len() == i,
            gm@.len() == i,
        decreases n - i,
    {
        fm.push(0);
        gm.push(0);
        i += 1;
    }
    match start {
        None => {
            let ghost f0 = fm@;
            let ghost g0 = gm@;
            let r = match_recursive(progs, j, mol, rows, 0, &mut fm, &mut gm);
            proof {
                if r {
                    let (f, g) = choose|f: Seq<usize>, g: Seq<usize>|
                        #[trigger] embeds(ps, j as int, *mol, f, g, t) && agree(p, f, f0, 0) && agree_bonds(p, g, g0, 0);
                    assert(embeds(ps, j as int, *mol, f, g, t));
                }
                if prog_matches(ps, j as int, *mol, None, t) {
                    let (f, g) = choose|f: Seq<usize>, g: Seq<usize>| #[trigger] embeds(ps, j as int, *mol, f, g, t);
                    assert(agree(p, f, f0, 0) && agree_bonds(p, g, g0, 0));
                }
            }
            r
        },
        Some(a) => {
            if n == 0 || a >= mol.atoms.len() {
                proof {
                    if prog_matches(ps, j as int, *mol, Some(a as int), t) {
                        let (f, g) = choose|f: Seq<usize>, g: Seq<usize>|
                            #[trigger] embeds(ps, j as int, *mol, f, g, t) && f.len() > 0 && f[0] == a;
                        assert(node_ok(ps, j as int, *mol, f, g, 0, t));
                    }
                }
                return false;
            }
            let first = &progs[j][0];
            let fits = matches!(first.op_code, OpCode::SeedAtom) && eval_atom_expr(
                progs,
                j,
                &first.data,
                mol,
                a,
                rows,
            );
            if !fits {
                proof {
                    if prog_matches(ps, j as int, *mol, Some(a as int), t) {
                        let (f, g) = choose|f: Seq<usize>, g: Seq<usize>|
                            #[trigger] embeds(ps, j as int, *mol, f, g, t) && f.len() > 0 && f[0] == a;
                        assert(node_ok(ps, j as int, *mol, f, g, 0, t));
                    }
                }
                return false;
            }
            fm.set(0, a);
            let ghost f0 = fm@;
            let ghost g0 = gm@;
            proof {
                assert(node_ok(ps, j as int, *mol, f0, g0, 0, t));
                lemma_partial_extend(ps, j as int, *mol, f0, g0, 0, t);
            }
            let r = match_recursive(progs, j, mol, rows, 1, &mut fm, &mut gm);
            proof {
                if r {
                    let (f, g) = choose|f: Seq<usize>, g: Seq<usize>|
                        #[trigger] embeds(ps, j as int, *mol, f, g, t) && agree(p, f, f0, 1) && agree_bonds(p, g, g0, 1);
                    assert(f[0] == f0[0]);
                }
                if prog_matches(ps, j as int, *mol, Some(a as int), t) {
                    let (f, g) = choose|f: Seq<usize>, g: Seq<usize>|
                        #[trigger] embeds(ps, j as int, *mol, f, g, t) && f.len() > 0 && f[0] == a;
                    assert(agree(p, f, f0, 1));
                    assert(agree_bonds(p, g, g0, 1));
                    assert(extends(ps, j as int, *mol, f0, g0, 1, t));
                }
            }
            r
        },
    }
}

/// For every embedded pattern, the atoms at which it matches.
fn embedded_rows(progs: &Vec<Vec<TreeNode>>, mol: &Molecule) -> (rows: Vec<Vec<bool>>)
    requires
        mol.wf(),
    ensures
        table_view(rows@) == rows_from(progs@, *mol, 1),
{
    let count = progs.len();
    let n_atoms = mol.atoms.len();
    let mut rows: Vec<Vec<bool>> = Vec::new();
    let mut i: usize = 0;
    while i < count
        invariant
            i <= count,
            count == progs@.len(),
            rows@.len() == i,
            forall|k: int| 0 <= k < i ==> (#[trigger] rows@[k])@ == Seq::<bool>::empty(),
        decreases count - i,
    {
        rows.push(Vec::new());
        i += 1;
    }
    let mut j: usize = if count == 0 {
        1
    } else {
        count
    };
    proof {
        assert(table_view(rows@) =~= rows_from(progs@, *mol, j as int));
    }
    while j > 1
        invariant
            1 <= j,
            count == progs@.len(),
            j <= count || (count == 0 && j == 1),
            mol.wf(),
            n_atoms == mol.atoms@.len(),
            rows@.len() == count,
            table_view(rows@) == rows_from(progs@, *mol, j as int),
        decreases j,
    {
        let k = j - 1;
        let mut row: Vec<bool> = Vec::new();
        let mut a: usize = 0;
        while a < n_atoms
            invariant
                a <= n_atoms,
                n_atoms == mol.atoms@.len(),
                mol.wf(),
                k < progs@.len(),
                row@.len() == a,
                forall|x: int|
                    0 <= x < a ==> #[trigger] row@[x] == prog_matches(
                        progs@,
                        k as int,
                        *mol,
                        Some(x),
                        table_view(rows@),
                    ),
            decreases n_atoms - a,
        {
            let hit = match_program(progs, k, mol, &rows, Some(a));
            row.push(hit);
            a += 1;
        }
        let ghost later = table_view(rows@);
        rows.set(k, row);
        proof {
            assert(row@ =~= Seq::new(mol.atoms@.len(), |x: int| prog_matches(progs@, k as int, *mol, Some(x), later)));
            assert(table_view(rows@) =~= later.update(k as int, row@));
        }
        j = k;
    }
    rows
}

impl SmartsPattern {
    /// Whether the pattern occurs in the molecule (see [`smarts_matches`]).
    /// The search binds pattern atoms in program order: a seed tries every
    /// atom in ascending index order, a grow node the bonds of the atom it
    /// extends in ascending index order, and a ring node only checks the
    /// bond between its two atoms.
    pub fn match_mol(&self, molecule: &Molecule) -> (r: bool)
        requires
            molecule.wf(),
        ensures
            r == smarts_matches(self.programs@, *molecule),
    {
        if self.programs.len() == 0 {
            return false;
        }
        let rows = embedded_rows(&self.programs, molecule);
        match_program(&self.programs, 0, molecule, &rows, None)
    }
}

/// Matching is a function of the pattern and the graph alone: two runs of
/// [`SmartsPattern::match_mol`] on the same pattern and graph give the same
/// answer.
pub proof fn lemma_match_deterministic(p: SmartsPattern, m: Molecule, r1: bool, r2: bool)
    requires
        r1 == smarts_matches(p.programs@, m),
        r2 == smarts_matches(p.programs@, m),
    ensures
        r1 == r2,
{
}

} // verus!

//! Compiled substructure patterns: predicate expressions over atoms and
//! bonds, and programs of pattern nodes that a matcher runs in order.

use vstd::prelude::*;

verus! {

/// What a pattern node does when the matcher reaches it.
#[derive(Clone, Copy, Debug, PartialEq, Eq, Structural)]
pub enum OpCode {
    /// Binds a new atom anywhere in the molecule.
    SeedAtom,
    /// Binds a new atom through a bond from an atom bound earlier.
    GrowBond,
    /// Checks a bond between two atoms bound earlier.
    CloseRing,
}

/// The tag of an expression node: a connective, or a leaf predicate.
#[derive(Clone, Copy, Debug, PartialEq, Eq, Structural)]
pub enum ExprType {
    /// Any atom.
    True,
    /// No atom.
    False,
    /// Conjunction written `&` or by juxtaposition.
    AeAndhi,
    /// Conjunction written `;`.
    AeAndlo,
    /// Disjunction written `,`.
    AeOr,
    /// An embedded pattern `$(...)`; the value is its program index.
    AeRecur,
    /// Negation written `!`.
    AeNot,
    AeAromatic,
    AeAliphatic,
    /// Carries a ring-closure mark.
    AeCyclic,
    AeAcyclic,
    /// Mass number; an atom answers the mass written on it and its
    /// element's most abundant mass, and 0 when none is written.
    AeMass,
    /// Atomic number.
    AeElem,
    /// Aromatic atom of the given element.
    AeAromelem,
    /// Aliphatic atom of the given element.
    AeAliphelem,
    /// Hydrogen count.
    AeHcount,
    /// Formal charge.
    AeCharge,
    /// Number of bonds plus hydrogens.
    AeConnect,
    /// Number of bonds.
    AeDegree,
    /// Implicit hydrogen count; every hydrogen of the graph is implicit.
    AeImplicit,
    /// Number of ring-closure bonds on the atom.
    AeRings,
    /// Ring size; the graph keeps no ring sizes, so zero asks for no ring
    /// mark and any other value for some.
    AeSize,
    /// Sum of bond orders plus hydrogens.
    AeValence,
    /// Has a stereo configuration.
    AeChiral,
    /// Hybridization: 1 with a triple bond, 2 with a double or aromatic
    /// bond or an aromatic flag, 3 otherwise.
    AeHyb,
    /// Number of ring-closure bonds.
    AeRingconnect,
    /// `@@`: configuration `TH2`.
    AlClockwise,
    /// `@`: configuration `TH1`.
    AlAnticlockwise,
    /// `@?`: no configuration.
    AlUnspecified,
    BeAndhi,
    BeAndlo,
    BeOr,
    BeNot,
    /// `~`: any bond.
    BeAny,
    /// No symbol: a single or an aromatic bond.
    BeDefault,
    /// `-`: a non-aromatic single bond.
    BeSingle,
    /// `=`: a non-aromatic double bond.
    BeDouble,
    /// `#`: a triple bond.
    BeTriple,
    /// `$`: a quadruple bond.
    BeQuad,
    /// `:`: an aromatic bond.
    BeArom,
    /// `@`: a ring-closure bond.
    BeRing,
    /// `/`: an up bond.
    BeUp,
    /// `\`: a down bond.
    BeDown,
    /// `/?`: not a down bond.
    BeUpunspec,
    /// `\?`: not an up bond.
    BeDownunspec,
}

/// A predicate tree: a connective with its operands, or a leaf with its
/// value.
#[derive(Debug)]
pub struct Expr {
    pub expr_type: ExprType,
    pub val: i32,
    pub left: Option<Box<Expr>>,
    pub right: Option<Box<Expr>>,
}

/// One node of a compiled program.
#[derive(Debug)]
pub struct TreeNode {
    pub op_code: OpCode,
    /// The atom expression (seed and grow nodes).
    pub data: Expr,
    /// The bond expression (grow and ring nodes).
    pub bond: Expr,
    /// The node of the atom extended from (grow), or the first ring atom.
    pub src: usize,
    /// The node of the second ring atom (ring nodes).
    pub dst: usize,
}

/// A compiled pattern: program 0 is the pattern itself, and every other
/// program is an embedded pattern, referenced by its index from an
/// expression of a program with a smaller index.
#[derive(Debug)]
pub struct SmartsPattern {
    pub programs: Vec<Vec<TreeNode>>,
    pub smarts_string: String,
}

impl Expr {
    pub fn leaf(expr_type: ExprType, val: i32) -> (r: Expr)
        ensures
            r == (Expr { expr_type, val, left: None, right: None }),
            r.expr_type == expr_type,
            r.val == val,
            r.left is None,
            r.right is None,
    {
        Expr { expr_type, val, left: None, right: None }
    }

    pub fn binary(expr_type: ExprType, left: Expr, right: Expr) -> (r: Expr)
        ensures
            r.expr_type == expr_type,
            r.val == 0,
            r.left == Some(Box::new(left)),
            r.right == Some(Box::new(right)),
    {
        Expr { expr_type, val: 0, left: Some(Box::new(left)), right: Some(Box::new(right)) }
    }

    pub fn unary(expr_type: ExprType, operand: Expr) -> (r: Expr)
        ensures
            r.expr_type == expr_type,
            r.val == 0,
            r.left == Some(Box::new(operand)),
            r.right is None,
    {
        Expr { expr_type, val: 0, left: Some(Box::new(operand)), right: None }
    }
}

/// Whether a node binds an atom.
pub open spec fn binds_atom(n: TreeNode) -> bool {
    n.op_code == OpCode::SeedAtom || n.op_code == OpCode::GrowBond
}

/// The ordering a matcher relies on: a grow node extends an atom node
/// before it, and a ring node joins two distinct atom nodes before it.
pub open spec fn node_ordered(p: Seq<TreeNode>, k: int) -> bool {
    let n = p[k];
    match n.op_code {
        OpCode::SeedAtom => true,
        OpCode::GrowBond => n.src < k && binds_atom(p[n.src as int]),
        OpCode::CloseRing => n.src < k && n.dst < k && n.src != n.dst && binds_atom(p[n.src as int])
            && binds_atom(p[n.dst as int]),
    }
}

/// Every embedded-pattern reference in `e` points past program `i`.
pub open spec fn refs_after(e: Expr, i: int, count: int) -> bool
    decreases e,
{
    &&& (e.expr_type == ExprType::AeRecur ==> i < e.val < count)
    &&& (e.left matches Some(l) ==> refs_after(*l, i, count))
    &&& (e.right matches Some(r) ==> refs_after(*r, i, count))
}

/// Program `i` is ordered, starts with a seed when it is not empty, and
/// refers only to later programs.
pub open spec fn program_wf(progs: Seq<Vec<TreeNode>>, i: int) -> bool {
    let p = progs[i]@;
    &&& (p.len() > 0 ==> p[0].op_code == OpCode::SeedAtom)
    &&& forall|k: int| 0 <= k < p.len() ==> #[trigger] node_ordered(p, k)
    &&& forall|k: int| 0 <= k < p.len() ==> refs_after(#[trigger] p[k].data, i, progs.len() as int)
}

impl SmartsPattern {
    pub open spec fn wf(&self) -> bool {
        &&& self.programs@.len() > 0
        &&& forall|i: int| 0 <= i < self.programs@.len() ==> #[trigger] program_wf(self.programs@, i)
    }
}

} // verus!

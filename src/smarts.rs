//! The pattern compiler: turns pattern text into programs of pattern nodes
//! with atom and bond predicate expressions.

use vstd::prelude::*;
use vstd::string::StringExecFns;
use crate::elements::{read_symbol, spec_two_letter, symbol_in, MAX_ATOMIC_NUMBER};
use crate::error::Error;
use crate::scanner::{Scanner, advanced, missing_character};
use crate::smarts_defs::{
    Expr, ExprType, OpCode, SmartsPattern, TreeNode, binds_atom, node_ordered, program_wf,
    refs_after,
};
use crate::smiles_utils::{
    aromatic_element, aromatic_of, charge_in, decimal, digit_span, lemma_digit_span, read_charge,
    organic_in, read_isotope, read_organic_subset,
};
use crate::text::{char_at, digit_value, is_digit, peek_digit};
use crate::smiles::{first_open, lemma_first_open_at, lemma_first_open_none};
use crate::scanner::missing_in;

verus! {

broadcast use Scanner::lemma_wf;

/// The bond primitive at the cursor and its length.
pub open spec fn bond_primitive_at(s: Scanner) -> Option<(ExprType, int)> {
    bond_primitive_in(s.text(), s.pos())
}

/// The bond primitive written at `p` and its length.
pub open spec fn bond_primitive_in(t: Seq<char>, p: int) -> Option<(ExprType, int)> {
    match char_at(t, p) {
        Some('-') => Some((ExprType::BeSingle, 1)),
        Some('=') => Some((ExprType::BeDouble, 1)),
        Some('#') => Some((ExprType::BeTriple, 1)),
        Some('$') => Some((ExprType::BeQuad, 1)),
        Some(':') => Some((ExprType::BeArom, 1)),
        Some('~') => Some((ExprType::BeAny, 1)),
        Some('@') => Some((ExprType::BeRing, 1)),
        Some('/') => Some((ExprType::BeUp, 1)),
        Some('\\') => Some((ExprType::BeDown, 1)),
        _ => None,
    }
}

/// The operator of precedence `level`: `;` (0), `,` (1), `&` (2).
pub open spec fn level_op(level: int) -> char {
    if level == 0 {
        ';'
    } else if level == 1 {
        ','
    } else {
        '&'
    }
}

/// The bond connective of precedence `level`.
pub open spec fn bond_kind(level: int) -> ExprType {
    if level == 0 {
        ExprType::BeAndlo
    } else if level == 1 {
        ExprType::BeOr
    } else {
        ExprType::BeAndhi
    }
}

/// A connective node with its operands.
pub open spec fn node_of(kind: ExprType, left: Expr, right: Option<Expr>) -> Expr {
    Expr {
        expr_type: kind,
        val: 0,
        left: Some(Box::new(left)),
        right: match right {
            Some(r) => Some(Box::new(r)),
            None => None,
        },
    }
}

/// The bond expression of precedence `level` written from `p`, and where
/// it ends: operands of a level are expressions of the next level joined
/// left to right by the level's operator; level 3 is `!` before a level-3
/// expression, or a primitive.
pub open spec fn bond_expr_in(t: Seq<char>, p: int, level: int) -> Option<(Expr, int)>
    decreases t.len() - p, 3 - level, 0int,
{
    if p < 0 || p > t.len() {
        None
    } else if level >= 3 {
        if char_at(t, p) == Some('!') {
            match bond_expr_in(t, p + 1, 3) {
                Some((e, q)) => Some((node_of(ExprType::BeNot, e, None), q)),
                None => None,
            }
        } else {
            match bond_primitive_in(t, p) {
                Some((ty, n)) => Some((Expr { expr_type: ty, val: 0, left: None, right: None }, p + n)),
                None => None,
            }
        }
    } else if level < 0 {
        None
    } else {
        match bond_expr_in(t, p, level + 1) {
            Some((e, q)) => if p < q <= t.len() {
                bond_fold(t, q, level, e)
            } else {
                None
            },
            None => None,
        }
    }
}

/// Continues a level-`level` bond expression whose operands so far give
/// `acc`, from `q`.
pub open spec fn bond_fold(t: Seq<char>, q: int, level: int, acc: Expr) -> Option<(Expr, int)>
    decreases t.len() - q, 3 - level, 1int,
{
    if 0 <= q < t.len() && 0 <= level < 3 && t[q] == level_op(level) {
        match bond_expr_in(t, q + 1, level + 1) {
            Some((r, q2)) => if q + 1 < q2 <= t.len() {
                bond_fold(t, q2, level, node_of(bond_kind(level), acc, Some(r)))
            } else {
                None
            },
            None => None,
        }
    } else {
        Some((acc, q))
    }
}

/// Whether `c` starts a bond expression.
pub open spec fn starts_bond(c: char) -> bool {
    c == '-' || c == '=' || c == '#' || c == '$' || c == ':' || c == '~' || c == '@' || c == '/'
        || c == '\\' || c == '!'
}

fn is_bond_start(c: char) -> (r: bool)
    ensures
        r == starts_bond(c),
{
    c == '-' || c == '=' || c == '#' || c == '$' || c == ':' || c == '~' || c == '@' || c == '/'
        || c == '\\' || c == '!'
}

/// Reads one bond primitive: `-`, `=`, `#`, `$`, `:`, `~`, `@`, `/` or `\`.
pub fn parse_primitive_bond_types(scanner: &mut Scanner) -> (r: Option<Expr>)
    requires
        old(scanner).wf(),
    ensures
        advanced(*old(scanner), *final(scanner)),
        match bond_primitive_at(*old(scanner)) {
            Some((t, n)) => r == Some(Expr { expr_type: t, val: 0, left: None, right: None }) && final(scanner).pos() == old(scanner).pos() + n,
            None => r is None && final(scanner).pos() == old(scanner).pos(),
        },
{
    let t = match scanner.peek() {
        Some('-') => ExprType::BeSingle,
        Some('=') => ExprType::BeDouble,
        Some('#') => ExprType::BeTriple,
        Some('$') => ExprType::BeQuad,
        Some(':') => ExprType::BeArom,
        Some('~') => ExprType::BeAny,
        Some('@') => ExprType::BeRing,
        Some('/') => ExprType::BeUp,
        Some('\\') => ExprType::BeDown,
        _ => return None,
    };
    scanner.pop();
    Some(Expr::leaf(t, 0))
}

/// Parses a bond expression at precedence `level`: 0 is `;`, 1 is `,`,
/// 2 is `&`, 3 is `!` and the primitives.
pub fn parse_bond_expr(scanner: &mut Scanner, level: u8) -> (r: Result<Expr, Error>)
    requires
        old(scanner).wf(),
        level <= 3,
    ensures
        advanced(*old(scanner), *final(scanner)),
        r is Ok ==> final(scanner).pos() > old(scanner).pos(),
        match bond_expr_in(old(scanner).text(), old(scanner).pos(), level as int) {
            Some((e, q)) => r == Ok::<Expr, Error>(e) && final(scanner).pos() == q,
            None => r is Err,
        },
    decreases old(scanner).text().len() - old(scanner).pos(), 3 - level,
{
    if level == 3 {
        if scanner.peek() == Some('!') {
            scanner.pop();
            let operand = parse_bond_expr(scanner, 3)?;
            let e = Expr::unary(ExprType::BeNot, operand);
            proof {
                assert(e == node_of(ExprType::BeNot, operand, None));
            }
            return Ok(e);
        }
        return match parse_primitive_bond_types(scanner) {
            Some(e) => Ok(e),
            None => Err(Error::Compile(scanner.cursor())),
        };
    }
    let (op, kind) = if level == 0 {
        (';', ExprType::BeAndlo)
    } else if level == 1 {
        (',', ExprType::BeOr)
    } else {
        ('&', ExprType::BeAndhi)
    };
    let ghost s0 = *scanner;
    let ghost t = s0.text();
    let mut expr = parse_bond_expr(scanner, level + 1)?;
    while scanner.peek() == Some(op)
        invariant
            advanced(s0, *scanner),
            scanner.pos() > s0.pos(),
            s0.wf(),
            s0 == *old(scanner),
            t == s0.text(),
            level < 3,
            op == level_op(level as int),
            kind == bond_kind(level as int),
            bond_fold(t, scanner.pos(), level as int, expr) == bond_expr_in(t, s0.pos(), level as int),
        decreases scanner.text().len() - scanner.pos(),
    {
        scanner.pop();
        let right = parse_bond_expr(scanner, level + 1)?;
        expr = Expr::binary(kind, expr, right);
    }
    Ok(expr)
}

/// How deeply embedded patterns `$(...)` may nest.
pub const MAX_NESTING: u8 = 16;

/// `b` holds the programs of `a` unchanged, and possibly more after them.
pub open spec fn grown(a: Seq<Vec<TreeNode>>, b: Seq<Vec<TreeNode>>) -> bool {
    &&& a.len() <= b.len()
    &&& forall|k: int| 0 <= k < a.len() ==> #[trigger] b[k]@ == a[k]@
}

/// Every program from `lo` on is complete and well formed.
pub open spec fn done_from(progs: Seq<Vec<TreeNode>>, lo: int) -> bool {
    forall|k: int| lo <= k < progs.len() ==> #[trigger] program_wf(progs, k)
}

/// The nodes compiled so far for program `i` keep the program ordering.
pub open spec fn nodes_ok(nodes: Seq<TreeNode>, i: int, count: int) -> bool {
    &&& (nodes.len() > 0 ==> nodes[0].op_code == OpCode::SeedAtom)
    &&& forall|k: int| 0 <= k < nodes.len() ==> #[trigger] node_ordered(nodes, k)
    &&& forall|k: int| 0 <= k < nodes.len() ==> refs_after(#[trigger] nodes[k].data, i, count)
}

proof fn lemma_refs_grow(e: Expr, i: int, c1: int, c2: int)
    requires
        refs_after(e, i, c1),
        c1 <= c2,
    ensures
        refs_after(e, i, c2),
    decreases e,
{
    if let Some(l) = e.left {
        lemma_refs_grow(*l, i, c1, c2);
    }
    if let Some(r) = e.right {
        lemma_refs_grow(*r, i, c1, c2);
    }
}

proof fn lemma_nodes_grow(nodes: Seq<TreeNode>, i: int, c1: int, c2: int)
    requires
        nodes_ok(nodes, i, c1),
        c1 <= c2,
    ensures
        nodes_ok(nodes, i, c2),
{
    assert forall|k: int| 0 <= k < nodes.len() implies refs_after(#[trigger] nodes[k].data, i, c2) by {
        lemma_refs_grow(nodes[k].data, i, c1, c2);
    }
}

proof fn lemma_done_grow(a: Seq<Vec<TreeNode>>, b: Seq<Vec<TreeNode>>, lo: int)
    requires
        lo >= 0,
        done_from(a, lo),
        grown(a, b),
        done_from(b, a.len() as int),
    ensures
        done_from(b, lo),
{
    assert forall|k: int| lo <= k < b.len() implies #[trigger] program_wf(b, k) by {
        if k < a.len() {
            assert(program_wf(a, k));
            assert(b[k]@ == a[k]@);
            lemma_nodes_grow(a[k]@, k, a.len() as int, b.len() as int);
        }
    }
}

/// The number written at `q` (up to three digits) and its length; `default`
/// and no length when no digit is there.
pub open spec fn count_at(t: Seq<char>, q: int, default: int) -> (int, int) {
    let n = digit_span(t, q, 3);
    if n == 0 {
        (default, 0)
    } else {
        (decimal(t.subrange(q, q + n)), n as int)
    }
}

/// Reads up to three digits after a one-letter primitive; `default` when
/// there are none.
fn read_count(scanner: &mut Scanner, default: u16) -> (r: u16)
    requires
        old(scanner).wf(),
    ensures
        advanced(*old(scanner), *final(scanner)),
        r as int == count_at(old(scanner).text(), old(scanner).pos(), default as int).0,
        final(scanner).pos() == old(scanner).pos() + count_at(
            old(scanner).text(),
            old(scanner).pos(),
            default as int,
        ).1,
{
    let ghost s0 = *scanner;
    let before = scanner.cursor();
    let n = read_isotope(scanner);
    proof {
        lemma_digit_span(s0.text(), s0.pos(), scanner.pos() - s0.pos(), 3);
    }
    if scanner.cursor() == before {
        default
    } else {
        n
    }
}

/// The primitive written at `p` inside brackets, other than an embedded
/// pattern: its tag, its value and its length; `None` when none can be read
/// there.
pub open spec fn atom_primitive_at(t: Seq<char>, p: int) -> Option<(ExprType, int, int)> {
    match char_at(t, p) {
        None => None,
        Some(c) => if c == '*' {
            Some((ExprType::True, 0, 1))
        } else if c == '#' {
            let (n, len) = count_at(t, p + 1, 0);
            if len == 0 || n < 1 || n > MAX_ATOMIC_NUMBER {
                None
            } else {
                Some((ExprType::AeElem, n, 1 + len))
            }
        } else if is_digit(c) {
            let (n, len) = count_at(t, p, 0);
            Some((ExprType::AeMass, n, len))
        } else if c == '+' || c == '-' {
            let (q, len) = charge_in(t, p);
            Some((ExprType::AeCharge, q, len))
        } else if c == '@' {
            if char_at(t, p + 1) == Some('@') {
                Some((ExprType::AlClockwise, 0, 2))
            } else if char_at(t, p + 1) == Some('?') {
                Some((ExprType::AlUnspecified, 0, 2))
            } else {
                Some((ExprType::AlAnticlockwise, 0, 1))
            }
        } else if c == '^' {
            if char_at(t, p + 1) is Some && is_digit(char_at(t, p + 1)->0) {
                Some((ExprType::AeHyb, digit_value(char_at(t, p + 1)->0), 2))
            } else {
                None
            }
        } else if c == 'a' {
            Some((ExprType::AeAromatic, 0, 1))
        } else if aromatic_of(c) != 0 {
            Some((ExprType::AeAromelem, aromatic_of(c) as int, 1))
        } else if c == 'h' || c == 'r' || c == 'v' || c == 'x' {
            let (n, len) = count_at(t, p + 1, 1);
            if c == 'h' {
                Some((ExprType::AeImplicit, n, 1 + len))
            } else if c == 'r' {
                if len == 0 {
                    Some((ExprType::AeCyclic, 0, 1))
                } else {
                    Some((ExprType::AeSize, n, 1 + len))
                }
            } else if c == 'v' {
                Some((ExprType::AeValence, n, 1 + len))
            } else {
                Some((ExprType::AeRingconnect, n, 1 + len))
            }
        } else {
            let two = char_at(t, p + 1) is Some && spec_two_letter(c, char_at(t, p + 1)->0) != 0;
            if !two && (c == 'D' || c == 'H' || c == 'R' || c == 'X') {
                let (n, len) = count_at(t, p + 1, 1);
                if c == 'D' {
                    Some((ExprType::AeDegree, n, 1 + len))
                } else if c == 'H' {
                    Some((ExprType::AeHcount, n, 1 + len))
                } else if c == 'R' {
                    if len == 0 {
                        Some((ExprType::AeCyclic, 0, 1))
                    } else {
                        Some((ExprType::AeRings, n, 1 + len))
                    }
                } else {
                    Some((ExprType::AeConnect, n, 1 + len))
                }
            } else if c == 'A' && !two {
                Some((ExprType::AeAliphatic, 0, 1))
            } else {
                match symbol_in(t, p) {
                    Some((z, n)) => Some((ExprType::AeAliphelem, z as int, n)),
                    None => None,
                }
            }
        },
    }
}

/// What the progress of compiling program `i` keeps of the program list.
pub open spec fn progs_kept(
    old_progs: Seq<Vec<TreeNode>>,
    new_progs: Seq<Vec<TreeNode>>,
    i: int,
) -> bool {
    &&& grown(old_progs, new_progs)
    &&& done_from(new_progs, i + 1)
    &&& i < new_progs.len()
}

/// The atom connective of precedence `level`.
pub open spec fn atom_kind(level: int) -> ExprType {
    if level == 0 {
        ExprType::AeAndlo
    } else if level == 1 {
        ExprType::AeOr
    } else {
        ExprType::AeAndhi
    }
}

/// Whether a level-`level` atom expression goes on at `q`: with its
/// operator at levels 0 and 1, and at level 2 with `&` or with any
/// character that does not end an operand list (primitives written side by
/// side are joined by the high-precedence conjunction).
pub open spec fn atom_continues(t: Seq<char>, q: int, level: int) -> bool {
    match char_at(t, q) {
        Some(c) => if level < 2 {
            c == level_op(level)
        } else {
            c != ']' && c != ';' && c != ',' && c != ')'
        },
        None => false,
    }
}

/// The atom expression inside brackets of precedence `level` written from
/// `p` without embedded patterns, and where it ends; `None` where it cannot
/// be read, or where an embedded pattern `$(...)` stands.
pub open spec fn atom_expr_in(t: Seq<char>, p: int, level: int) -> Option<(Expr, int)>
    decreases t.len() - p, 3 - level, 0int,
{
    if p < 0 || p > t.len() {
        None
    } else if level >= 3 {
        if char_at(t, p) == Some('!') {
            match atom_expr_in(t, p + 1, 3) {
                Some((e, q)) => Some((node_of(ExprType::AeNot, e, None), q)),
                None => None,
            }
        } else {
            match atom_primitive_at(t, p) {
                Some((ty, v, n)) => Some((Expr { expr_type: ty, val: v as i32, left: None, right: None }, p + n)),
                None => None,
            }
        }
    } else if level < 0 {
        None
    } else {
        match atom_expr_in(t, p, level + 1) {
            Some((e, q)) => if p < q <= t.len() {
                atom_fold(t, q, level, e)
            } else {
                None
            },
            None => None,
        }
    }
}

/// Continues a level-`level` atom expression whose operands so far give
/// `acc`, from `q`.
pub open spec fn atom_fold(t: Seq<char>, q: int, level: int, acc: Expr) -> Option<(Expr, int)>
    decreases t.len() - q, 3 - level, 1int,
{
    if 0 <= q < t.len() && 0 <= level < 3 && atom_continues(t, q, level) {
        let start = if level < 2 || t[q] == '&' {
            q + 1
        } else {
            q
        };
        match atom_expr_in(t, start, level + 1) {
            Some((r, q2)) => if start < q2 <= t.len() {
                atom_fold(t, q2, level, node_of(atom_kind(level), acc, Some(r)))
            } else {
                None
            },
            None => None,
        }
    } else {
        Some((acc, q))
    }
}

/// The text holds no embedded pattern `$(`.
pub open spec fn no_embedded(t: Seq<char>) -> bool {
    forall|i: int| 0 <= i < t.len() - 1 && #[trigger] t[i] == '$' ==> t[i + 1] != '('
}

/// Parses one atom primitive inside brackets.
pub fn parse_atom_expr(
    scanner: &mut Scanner,
    progs: &mut Vec<Vec<TreeNode>>,
    i: usize,
    depth: u8,
) -> (r: Result<Expr, Error>)
    requires
        old(scanner).wf(),
        i < old(progs)@.len(),
        done_from(old(progs)@, i + 1),
    ensures
        advanced(*old(scanner), *final(scanner)),
        r matches Ok(e) ==> {
            &&& progs_kept(old(progs)@, final(progs)@, i as int)
            &&& refs_after(e, i as int, final(progs)@.len() as int)
            &&& final(scanner).pos() > old(scanner).pos()
        },
        old(scanner).spec_peek() != Some('$') ==> final(progs)@ == old(progs)@ && match atom_primitive_at(
            old(scanner).text(),
            old(scanner).pos(),
        ) {
            Some((t, v, n)) => (r matches Ok(e) && e.expr_type == t && e.val == v && e.left is None
                && e.right is None) && final(scanner).pos() == old(scanner).pos() + n,
            None => r is Err,
        },
        old(scanner).spec_peek() == Some('$') ==> (r matches Ok(e) ==> e.expr_type == ExprType::AeRecur
            && e.val == old(progs)@.len() && old(scanner).ahead(1) == Some('(')),
    decreases old(scanner).text().len() - old(scanner).pos(), 0int,
{
    let c = match scanner.peek() {
        Some(c) => c,
        None => return Err(Error::EndOfLine),
    };
    let pos = scanner.cursor();
    if c == '$' {
        if scanner.peek_ahead(1) != Some('(') || depth >= MAX_NESTING {
            return Err(Error::Compile(pos));
        }
        scanner.pop();
        scanner.pop();
        let ghost before = progs@;
        let j = compile_program(scanner, progs, true, depth + 1)?;
        if scanner.peek() != Some(')') || j > 0x7fff_ffff {
            return Err(missing_character(scanner));
        }
        scanner.pop();
        proof {
            lemma_done_grow(before, progs@, i + 1);
        }
        return Ok(Expr::leaf(ExprType::AeRecur, j as i32));
    }
    let ghost g0 = progs@;
    let e = if c == '*' {
        scanner.pop();
        Expr::leaf(ExprType::True, 0)
    } else if c == '#' {
        scanner.pop();
        let start = scanner.cursor();
        let n = read_count(scanner, 0);
        if scanner.cursor() == start {
            return Err(missing_character(scanner));
        }
        if n < 1 || n > MAX_ATOMIC_NUMBER as u16 {
            return Err(Error::AtomicNumber(start));
        }
        Expr::leaf(ExprType::AeElem, n as i32)
    } else if peek_digit(scanner).is_some() {
        proof {
            assert(digit_span(scanner.text(), scanner.pos(), 3) >= 1);
        }
        let n = read_count(scanner, 0);
        Expr::leaf(ExprType::AeMass, n as i32)
    } else if c == '+' || c == '-' {
        let q = read_charge(scanner);
        Expr::leaf(ExprType::AeCharge, q as i32)
    } else if c == '@' {
        scanner.pop();
        match scanner.peek() {
            Some('@') => {
                scanner.pop();
                Expr::leaf(ExprType::AlClockwise, 0)
            },
            Some('?') => {
                scanner.pop();
                Expr::leaf(ExprType::AlUnspecified, 0)
            },
            _ => Expr::leaf(ExprType::AlAnticlockwise, 0),
        }
    } else if c == '^' {
        scanner.pop();
        match peek_digit(scanner) {
            Some(d) => {
                scanner.pop();
                Expr::leaf(ExprType::AeHyb, d as i32)
            },
            None => return Err(missing_character(scanner)),
        }
    } else if c == 'a' {
        scanner.pop();
        Expr::leaf(ExprType::AeAromatic, 0)
    } else if aromatic_element(c) != 0 {
        scanner.pop();
        Expr::leaf(ExprType::AeAromelem, aromatic_element(c) as i32)
    } else if c == 'h' || c == 'r' || c == 'v' || c == 'x' {
        scanner.pop();
        let start = scanner.cursor();
        let n = read_count(scanner, 1);
        let none = scanner.cursor() == start;
        if c == 'h' {
            Expr::leaf(ExprType::AeImplicit, n as i32)
        } else if c == 'r' {
            if none {
                Expr::leaf(ExprType::AeCyclic, 0)
            } else {
                Expr::leaf(ExprType::AeSize, n as i32)
            }
        } else if c == 'v' {
            Expr::leaf(ExprType::AeValence, n as i32)
        } else {
            Expr::leaf(ExprType::AeRingconnect, n as i32)
        }
    } else {
        let two = match scanner.peek_ahead(1) {
            Some(b) => crate::elements::two_letter_element(c, b) != 0,
            None => false,
        };
        if !two && (c == 'D' || c == 'H' || c == 'R' || c == 'X') {
            scanner.pop();
            let start = scanner.cursor();
            let n = read_count(scanner, 1);
            let none = scanner.cursor() == start;
            if c == 'D' {
                Expr::leaf(ExprType::AeDegree, n as i32)
            } else if c == 'H' {
                Expr::leaf(ExprType::AeHcount, n as i32)
            } else if c == 'R' {
                if none {
                    Expr::leaf(ExprType::AeCyclic, 0)
                } else {
                    Expr::leaf(ExprType::AeRings, n as i32)
                }
            } else {
                Expr::leaf(ExprType::AeConnect, n as i32)
            }
        } else if c == 'A' && !two {
            scanner.pop();
            Expr::leaf(ExprType::AeAliphatic, 0)
        } else {
            let z = read_symbol(scanner)?;
            Expr::leaf(ExprType::AeAliphelem, z as i32)
        }
    };
    assert(progs@ == g0);
    Ok(e)
}

/// Parses an atom expression inside brackets at precedence `level`: 0 is
/// `;`, 1 is `,`, 2 is `&` (or primitives written side by side), 3 is `!`
/// and the primitives.
pub fn parse_atom_expr_in_bracket(
    scanner: &mut Scanner,
    progs: &mut Vec<Vec<TreeNode>>,
    i: usize,
    depth: u8,
    level: u8,
) -> (r: Result<Expr, Error>)
    requires
        old(scanner).wf(),
        i < old(progs)@.len(),
        done_from(old(progs)@, i + 1),
        level <= 3,
    ensures
        advanced(*old(scanner), *final(scanner)),
        r matches Ok(e) ==> {
            &&& progs_kept(old(progs)@, final(progs)@, i as int)
            &&& refs_after(e, i as int, final(progs)@.len() as int)
            &&& final(scanner).pos() > old(scanner).pos()
        },
        atom_expr_in(old(scanner).text(), old(scanner).pos(), level as int) matches Some((e, q)) ==> r
            == Ok::<Expr, Error>(e) && final(scanner).pos() == q && final(progs)@ == old(progs)@,
        no_embedded(old(scanner).text()) && r is Ok ==> atom_expr_in(
            old(scanner).text(),
            old(scanner).pos(),
            level as int,
        ) is Some,
    decreases old(scanner).text().len() - old(scanner).pos(), 4 - level,
{
    if level == 3 {
        if scanner.peek() == Some('!') {
            scanner.pop();
            let operand = parse_atom_expr_in_bracket(scanner, progs, i, depth, 3)?;
            let e = Expr::unary(ExprType::AeNot, operand);
            proof {
                assert(e == node_of(ExprType::AeNot, operand, None));
            }
            return Ok(e);
        }
        return parse_atom_expr(scanner, progs, i, depth);
    }
    let kind = if level == 0 {
        ExprType::AeAndlo
    } else if level == 1 {
        ExprType::AeOr
    } else {
        ExprType::AeAndhi
    };
    let ghost s0 = *scanner;
    let ghost snap0 = progs@;
    let mut expr = parse_atom_expr_in_bracket(scanner, progs, i, depth, level + 1)?;
    loop
        invariant
            advanced(s0, *scanner),
            scanner.pos() > s0.pos(),
            s0.wf(),
            s0 == *old(scanner),
            snap0 == old(progs)@,
            level < 3,
            kind == ExprType::AeAndlo || kind == ExprType::AeOr || kind == ExprType::AeAndhi,
            kind == atom_kind(level as int),
            progs_kept(snap0, progs@, i as int),
            refs_after(expr, i as int, progs@.len() as int),
            atom_expr_in(s0.text(), s0.pos(), level as int) is Some ==> atom_fold(
                s0.text(),
                scanner.pos(),
                level as int,
                expr,
            ) == atom_expr_in(s0.text(), s0.pos(), level as int) && progs@ == snap0,
            no_embedded(s0.text()) ==> atom_fold(s0.text(), scanner.pos(), level as int, expr)
                == atom_expr_in(s0.text(), s0.pos(), level as int),
        ensures
            advanced(s0, *scanner),
            scanner.pos() > s0.pos(),
            progs_kept(snap0, progs@, i as int),
            refs_after(expr, i as int, progs@.len() as int),
            atom_expr_in(s0.text(), s0.pos(), level as int) is Some ==> atom_fold(
                s0.text(),
                scanner.pos(),
                level as int,
                expr,
            ) == atom_expr_in(s0.text(), s0.pos(), level as int) && progs@ == snap0,
            no_embedded(s0.text()) ==> atom_fold(s0.text(), scanner.pos(), level as int, expr)
                == atom_expr_in(s0.text(), s0.pos(), level as int),
            !atom_continues(s0.text(), scanner.pos(), level as int),
        decreases scanner.text().len() - scanner.pos(),
    {
        let go = match scanner.peek() {
            Some(c) => if level == 0 {
                c == ';'
            } else if level == 1 {
                c == ','
            } else {
                c != ']' && c != ';' && c != ',' && c != ')'
            },
            None => false,
        };
        if !go {
            break;
        }
        if level != 2 || scanner.peek() == Some('&') {
            scanner.pop();
        }
        let ghost snap1 = progs@;
        let right = parse_atom_expr_in_bracket(scanner, progs, i, depth, level + 1)?;
        proof {
            lemma_refs_grow(expr, i as int, snap1.len() as int, progs@.len() as int);
        }
        let ghost le = expr;
        let ghost re = right;
        expr = Expr::binary(kind, expr, right);
        proof {
            assert(kind != ExprType::AeRecur);
            assert(expr.left == Some(Box::new(le)));
            assert(refs_after(le, i as int, progs@.len() as int));
            assert(refs_after(re, i as int, progs@.len() as int));
        }
    }
    Ok(expr)
}

/// An open ring-closure slot of a pattern: the atom node that opened it
/// and the bond expression written there.
pub type PatternRing = Option<(usize, Option<Expr>)>;

/// The compile state of program `i`: its nodes keep the ordering, and the
/// atom to extend, the branch points and the open ring slots name atom
/// nodes.
pub open spec fn compile_state(
    nodes: Seq<TreeNode>,
    i: int,
    count: int,
    prev: Option<usize>,
    branches: Seq<usize>,
    rings: Seq<PatternRing>,
) -> bool {
    &&& nodes_ok(nodes, i, count)
    &&& (prev matches Some(a) ==> a < nodes.len() && binds_atom(nodes[a as int]))
    &&& forall|k: int|
        0 <= k < branches.len() ==> (#[trigger] branches[k]) < nodes.len() && binds_atom(
            nodes[branches[k] as int],
        )
    &&& rings.len() == 100
    &&& forall|k: int|
        0 <= k < 100 && (#[trigger] rings[k]) is Some ==> (rings[k]->0).0 < nodes.len() && binds_atom(
            nodes[(rings[k]->0).0 as int],
        )
}

proof fn lemma_push_node(
    nodes: Seq<TreeNode>,
    n: TreeNode,
    i: int,
    count: int,
    prev: Option<usize>,
    branches: Seq<usize>,
    rings: Seq<PatternRing>,
)
    requires
        compile_state(nodes, i, count, prev, branches, rings),
        node_ordered(nodes.push(n), nodes.len() as int),
        refs_after(n.data, i, count),
        nodes.len() == 0 ==> n.op_code == OpCode::SeedAtom,
    ensures
        compile_state(nodes.push(n), i, count, prev, branches, rings),
{
    let q = nodes.push(n);
    assert forall|k: int| 0 <= k < q.len() implies #[trigger] node_ordered(q, k) by {
        if k < nodes.len() {
            assert(node_ordered(nodes, k));
            assert(q[k] == nodes[k]);
            if q[k].op_code != OpCode::SeedAtom {
                assert(q[q[k].src as int] == nodes[nodes[k].src as int]);
            }
            if q[k].op_code == OpCode::CloseRing {
                assert(q[q[k].dst as int] == nodes[nodes[k].dst as int]);
            }
        }
    }
    assert forall|k: int| 0 <= k < q.len() implies refs_after(#[trigger] q[k].data, i, count) by {
        if k < nodes.len() {
            assert(q[k] == nodes[k]);
        }
    }
}

/// The atom nodes holding each ring number open.
pub open spec fn ring_openers(rings: Seq<PatternRing>) -> Seq<Option<int>> {
    Seq::new(
        rings.len(),
        |n: int|
            match rings[n] {
                Some((o, _)) => Some(o as int),
                None => None,
            },
    )
}

/// A leaf expression.
pub open spec fn leaf_of(t: ExprType, v: int) -> Expr {
    Expr { expr_type: t, val: v as i32, left: None, right: None }
}

/// A hundred ring numbers of a pattern, none open.
pub open spec fn no_pattern_rings() -> Seq<PatternRing> {
    Seq::new(100, |n: int| None)
}

/// The atom expression of a bare (unbracketed) pattern atom at `pos`, and
/// where it ends.
pub open spec fn bare_atom_in(t: Seq<char>, pos: int) -> Option<(Expr, int)> {
    if char_at(t, pos) == Some('*') {
        Some((leaf_of(ExprType::True, 0), pos + 1))
    } else if char_at(t, pos) == Some('a') {
        Some((leaf_of(ExprType::AeAromatic, 0), pos + 1))
    } else if char_at(t, pos) == Some('A') {
        Some((leaf_of(ExprType::AeAliphatic, 0), pos + 1))
    } else {
        match organic_in(t, pos) {
            Some((z, arom, n)) => Some((
                leaf_of(
                    if arom {
                        ExprType::AeAromelem
                    } else {
                        ExprType::AeAliphelem
                    },
                    z as int,
                ),
                pos + n,
            )),
            None => None,
        }
    }
}

/// The node an atom with expression `e` adds as node `at`: a seed when no
/// atom is there to extend, else a grow node from `prev` through the bond
/// expression written (single-or-aromatic when none is).
pub open spec fn atom_node(e: Expr, at: int, prev: Option<usize>, bond: Option<Expr>) -> TreeNode {
    match prev {
        Some(a) => TreeNode {
            op_code: OpCode::GrowBond,
            data: e,
            bond: match bond {
                Some(b) => b,
                None => leaf_of(ExprType::BeDefault, 0),
            },
            src: a,
            dst: at as usize,
        },
        None => TreeNode {
            op_code: OpCode::SeedAtom,
            data: e,
            bond: leaf_of(ExprType::BeAny, 0),
            src: at as usize,
            dst: at as usize,
        },
    }
}

/// The program a pattern compiles to from `pos` on, given the nodes
/// emitted so far, the atom node to extend, the bond expression waiting
/// for its atom, the open branches (atom nodes and `(` positions) and the
/// ring slots: the whole node sequence when the rest compiles;
/// `Err(Some(e))` for a structural error `e`; `Err(None)` when an atom or
/// bond expression does not read. Ring marks join the atom that opened the
/// number and the atom that closes it, through the bond expression written
/// at the closing mark, else at the opening one, else single-or-aromatic.
pub open spec fn pattern_run(
    t: Seq<char>,
    pos: int,
    nodes: Seq<TreeNode>,
    prev: Option<usize>,
    bond: Option<Expr>,
    batoms: Seq<usize>,
    bpos: Seq<usize>,
    rings: Seq<PatternRing>,
) -> Result<Seq<TreeNode>, Option<Error>>
    decreases t.len() - pos,
{
    if pos < 0 || pos >= t.len() {
        if bond is Some {
            Err(Some(missing_in(t, pos)))
        } else if bpos.len() > 0 {
            Err(Some(Error::UnclosedBranch(bpos.last())))
        } else {
            match first_open(ring_openers(rings), 0) {
                Some(n) => Err(Some(Error::UnclosedRing(n as u8))),
                None => Ok(nodes),
            }
        }
    } else if t[pos] == ')' {
        if batoms.len() == 0 {
            Err(Some(Error::UnmatchedBranch(pos as usize)))
        } else if bond is Some {
            Err(Some(Error::Compile(pos as usize)))
        } else {
            pattern_run(t, pos + 1, nodes, Some(batoms.last()), None, batoms.drop_last(), bpos.drop_last(), rings)
        }
    } else if t[pos] == '(' {
        if prev is None || bond is Some {
            Err(Some(Error::Compile(pos as usize)))
        } else {
            pattern_run(t, pos + 1, nodes, prev, None, batoms.push(prev->0), bpos.push(pos as usize), rings)
        }
    } else if t[pos] == '.' {
        if prev is None || bond is Some {
            Err(Some(Error::Compile(pos as usize)))
        } else {
            pattern_run(t, pos + 1, nodes, None, None, batoms, bpos, rings)
        }
    } else if is_digit(t[pos]) || t[pos] == '%' {
        if prev is None {
            Err(Some(Error::Compile(pos as usize)))
        } else {
            let two = char_at(t, pos + 1) is Some && is_digit(char_at(t, pos + 1)->0) && char_at(t, pos + 2)
                is Some && is_digit(char_at(t, pos + 2)->0);
            let num = if is_digit(t[pos]) {
                digit_value(t[pos])
            } else {
                digit_value(t[pos + 1]) * 10 + digit_value(t[pos + 2])
            };
            let q = if is_digit(t[pos]) {
                pos + 1
            } else {
                pos + 3
            };
            if !is_digit(t[pos]) && !two {
                Err(Some(Error::InvalidNumber(pos as usize)))
            } else if !(0 <= num < rings.len()) {
                Err(None)
            } else {
                match rings[num] {
                    Some((o, obond)) => if o == prev->0 {
                        Err(Some(Error::InvalidNumber(pos as usize)))
                    } else {
                        let b = match bond {
                            Some(e) => e,
                            None => match obond {
                                Some(e) => e,
                                None => leaf_of(ExprType::BeDefault, 0),
                            },
                        };
                        let node = TreeNode {
                            op_code: OpCode::CloseRing,
                            data: leaf_of(ExprType::True, 0),
                            bond: b,
                            src: o,
                            dst: prev->0,
                        };
                        pattern_run(t, q, nodes.push(node), prev, None, batoms, bpos, rings.update(num, None))
                    },
                    None => pattern_run(
                        t,
                        q,
                        nodes,
                        prev,
                        None,
                        batoms,
                        bpos,
                        rings.update(num, Some((prev->0, bond))),
                    ),
                }
            }
        }
    } else if starts_bond(t[pos]) {
        if prev is None || bond is Some {
            Err(Some(Error::Compile(pos as usize)))
        } else {
            match bond_expr_in(t, pos, 0) {
                None => Err(None),
                Some((e, q)) => if pos < q <= t.len() {
                    pattern_run(t, q, nodes, prev, Some(e), batoms, bpos, rings)
                } else {
                    Err(None)
                },
            }
        }
    } else {
        let atom: Result<(Expr, int), Option<Error>> = if t[pos] == '[' {
            match atom_expr_in(t, pos + 1, 0) {
                None => Err(None),
                Some((e, q)) => if char_at(t, q) == Some(']') {
                    Ok((e, q + 1))
                } else {
                    Err(Some(missing_in(t, q)))
                },
            }
        } else {
            match bare_atom_in(t, pos) {
                Some((e, q)) => Ok((e, q)),
                None => Err(Some(Error::Character(pos as usize))),
            }
        };
        match atom {
            Err(e) => Err(e),
            Ok((e, q)) => if pos < q <= t.len() {
                pattern_run(
                    t,
                    q,
                    nodes.push(atom_node(e, nodes.len() as int, prev, bond)),
                    Some(nodes.len() as usize),
                    None,
                    batoms,
                    bpos,
                    rings,
                )
            } else {
                Err(None)
            },
        }
    }
}

/// What compiling a whole pattern gives (see [`pattern_run`]): its program
/// when it compiles.
pub open spec fn pattern_result(t: Seq<char>) -> Result<Seq<TreeNode>, Option<Error>> {
    pattern_run(t, 0, Seq::empty(), None, None, Seq::empty(), Seq::empty(), no_pattern_rings())
}

/// What compiling program `i` keeps between tokens.
pub open spec fn compile_inv(
    base: Seq<Vec<TreeNode>>,
    s0: Scanner,
    sc: Scanner,
    depth: u8,
    i: int,
    nested: bool,
    progs: Seq<Vec<TreeNode>>,
    nodes: Seq<TreeNode>,
    prev: Option<usize>,
    branches: Seq<usize>,
    branch_pos: Seq<usize>,
    rings: Seq<PatternRing>,
    bond: Option<Expr>,
) -> bool {
    &&& advanced(s0, sc)
    &&& s0.wf()
    &&& depth <= MAX_NESTING
    &&& i == base.len()
    &&& grown(base, progs)
    &&& i < progs.len()
    &&& done_from(progs, i + 1)
    &&& compile_state(nodes, i, progs.len() as int, prev, branches, rings)
    &&& branch_pos.len() == branches.len()
    &&& (bond is Some ==> prev is Some)
    &&& (!nested && no_embedded(s0.text()) ==> pattern_run(
        s0.text(),
        sc.pos(),
        nodes,
        prev,
        bond,
        branches,
        branch_pos,
        rings,
    ) == pattern_run(s0.text(), s0.pos(), Seq::empty(), None, None, Seq::empty(), Seq::empty(), no_pattern_rings()))
}

/// Compiles one token of program `i`: a branch mark, a fragment
/// separator, a ring mark, a bond expression or an atom. `Ok(true)` means
/// the embedded pattern ends at the `)` before the cursor.
#[verifier::rlimit(100)]
#[verifier::spinoff_prover]
fn compile_step(
    scanner: &mut Scanner,
    progs: &mut Vec<Vec<TreeNode>>,
    i: usize,
    depth: u8,
    nested: bool,
    nodes: &mut Vec<TreeNode>,
    prev: &mut Option<usize>,
    branches: &mut Vec<usize>,
    branch_pos: &mut Vec<usize>,
    rings: &mut Vec<PatternRing>,
    bond: &mut Option<Expr>,
    base: Ghost<Seq<Vec<TreeNode>>>,
    s0: Ghost<Scanner>,
) -> (r: Result<bool, Error>)
    requires
        compile_inv(base@, s0@, *old(scanner), depth, i as int, nested, old(progs)@, old(nodes)@, *old(prev), old(branches)@, old(branch_pos)@, old(rings)@, *old(bond)),
        old(scanner).pos() < old(scanner).text().len(),
    ensures
        advanced(*old(scanner), *final(scanner)),
        r matches Ok(stop) ==> compile_inv(base@, s0@, *final(scanner), depth, i as int, nested, final(progs)@, final(nodes)@, *final(prev), final(branches)@, final(branch_pos)@, final(rings)@, *final(bond))
            && (stop ==> nested && final(scanner).pos() == old(scanner).pos()
                && old(scanner).spec_peek() == Some(')') && final(branches)@.len() == 0)
            && (!stop ==> final(scanner).pos() > old(scanner).pos()),
        r matches Err(e) ==> (!nested && no_embedded(s0@.text()) ==> (pattern_run(
            s0@.text(),
            old(scanner).pos(),
            old(nodes)@,
            *old(prev),
            *old(bond),
            old(branches)@,
            old(branch_pos)@,
            old(rings)@,
        ) matches Err(x) && (x matches Some(e2) ==> e2 == e))),
    decreases old(scanner).text().len() - old(scanner).pos(), 5int,
{
    let ghost t = scanner.text();
    let ghost pos0 = scanner.pos();
    let ghost nodes0 = nodes@;
    let ghost prev0 = *prev;
    let ghost br0 = branches@;
    let ghost bp0 = branch_pos@;
    let ghost rings0 = rings@;
    let ghost bond0 = *bond;
        let pos = scanner.cursor();
        let c = match scanner.peek() {
            Some(c) => c,
            None => return Ok(true),
        };
        if c == ')' {
            if branches.len() == 0 {
                if nested {
                    return Ok(true);
                }
                return Err(Error::UnmatchedBranch(pos));
            }
            if bond.is_some() {
                return Err(Error::Compile(pos));
            }
            let b = branches.pop().unwrap();
            branch_pos.pop();
            *prev = Some(b);
            scanner.pop();
        } else if c == '(' {
            match *prev {
                Some(a) => {
                    if bond.is_some() {
                        return Err(Error::Compile(pos));
                    }
                    branches.push(a);
                    branch_pos.push(pos);
                    scanner.pop();
                },
                None => return Err(Error::Compile(pos)),
            }
        } else if c == '.' {
            if prev.is_none() || bond.is_some() {
                return Err(Error::Compile(pos));
            }
            *prev = None;
            scanner.pop();
        } else if peek_digit(scanner).is_some() || c == '%' {
            let cur = match *prev {
                Some(a) => a,
                None => return Err(Error::Compile(pos)),
            };
            let number: usize = match peek_digit(scanner) {
                Some(d) => {
                    scanner.pop();
                    d as usize
                },
                None => {
                    scanner.pop();
                    let d1 = match peek_digit(scanner) {
                        Some(d) => d,
                        None => return Err(Error::InvalidNumber(pos)),
                    };
                    scanner.pop();
                    let d2 = match peek_digit(scanner) {
                        Some(d) => d,
                        None => return Err(Error::InvalidNumber(pos)),
                    };
                    scanner.pop();
                    (d1 * 10 + d2) as usize
                },
            };
            let slot = rings.remove(number);
            rings.insert(number, None);
            proof {
                assert(rings@ =~= rings0.update(number as int, None));
                assert(slot == rings0[number as int]);
            }
            match slot {
                Some((o, obond)) => {
                    if o == cur {
                        return Err(Error::InvalidNumber(pos));
                    }
                    let written = bond.take();
                    let b = match written {
                        Some(e) => e,
                        None => match obond {
                            Some(e) => e,
                            None => Expr::leaf(ExprType::BeDefault, 0),
                        },
                    };
                    let node = TreeNode {
                        op_code: OpCode::CloseRing,
                        data: Expr::leaf(ExprType::True, 0),
                        bond: b,
                        src: o,
                        dst: cur,
                    };
                    proof {
                        lemma_push_node(nodes@, node, i as int, progs@.len() as int, *prev, branches@, rings@);
                    }
                    nodes.push(node);
                },
                None => {
                    let written = bond.take();
                    rings.set(number, Some((cur, written)));
                    proof {
                        assert(rings@ =~= rings0.update(number as int, Some((cur, bond0))));
                    }
                },
            }
        } else if is_bond_start(c) {
            if prev.is_none() || bond.is_some() {
                return Err(Error::Compile(pos));
            }
            let e = parse_bond_expr(scanner, 0)?;
            *bond = Some(e);
        } else {
            let ghost pb = progs@;
            let atom = if c == '[' {
                scanner.pop();
                let e = parse_atom_expr_in_bracket(scanner, progs, i, depth, 0)?;
                if scanner.peek() != Some(']') {
                    return Err(missing_character(scanner));
                }
                scanner.pop();
                proof {
                    lemma_nodes_grow(nodes@, i as int, pb.len() as int, progs@.len() as int);
                }
                e
            } else if c == '*' {
                scanner.pop();
                Expr::leaf(ExprType::True, 0)
            } else if c == 'a' {
                scanner.pop();
                Expr::leaf(ExprType::AeAromatic, 0)
            } else if c == 'A' {
                scanner.pop();
                Expr::leaf(ExprType::AeAliphatic, 0)
            } else {
                match read_organic_subset(scanner) {
                    Some((z, true)) => Expr::leaf(ExprType::AeAromelem, z as i32),
                    Some((z, false)) => Expr::leaf(ExprType::AeAliphelem, z as i32),
                    None => return Err(Error::Character(pos)),
                }
            };
            proof {
                if c != '[' {
                    assert(bare_atom_in(t, pos0) == Some((atom, scanner.pos())));
                }
            }
            let at = nodes.len();
            let node = match *prev {
                Some(a) => {
                    let b = match bond.take() {
                        Some(e) => e,
                        None => Expr::leaf(ExprType::BeDefault, 0),
                    };
                    TreeNode { op_code: OpCode::GrowBond, data: atom, bond: b, src: a, dst: at }
                },
                None => TreeNode {
                    op_code: OpCode::SeedAtom,
                    data: atom,
                    bond: Expr::leaf(ExprType::BeAny, 0),
                    src: at,
                    dst: at,
                },
            };
            proof {
                lemma_push_node(nodes@, node, i as int, progs@.len() as int, *prev, branches@, rings@);
                assert(node == atom_node(atom, at as int, prev0, bond0));
            }
            nodes.push(node);
            *prev = Some(at);
        }
        Ok(false)
}

/// Compiles one program: the whole pattern, or (when `nested`) an
/// embedded pattern that ends before an unmatched `)`. Its index is the
/// number of programs before it, and every program it adds follows it.
#[verifier::rlimit(60)]
fn compile_program(
    scanner: &mut Scanner,
    progs: &mut Vec<Vec<TreeNode>>,
    nested: bool,
    depth: u8,
) -> (r: Result<usize, Error>)
    requires
        old(scanner).wf(),
        depth <= MAX_NESTING,
    ensures
        advanced(*old(scanner), *final(scanner)),
        r matches Ok(j) ==> {
            &&& j == old(progs)@.len()
            &&& grown(old(progs)@, final(progs)@)
            &&& j < final(progs)@.len()
            &&& done_from(final(progs)@, j as int)
        },
        !nested && no_embedded(old(scanner).text()) ==> match pattern_run(
            old(scanner).text(),
            old(scanner).pos(),
            Seq::empty(),
            None,
            None,
            Seq::empty(),
            Seq::empty(),
            no_pattern_rings(),
        ) {
            Ok(ns) => (r matches Ok(j) && final(progs)@[j as int]@ == ns) && final(scanner).pos()
                == old(scanner).text().len(),
            Err(Some(e)) => r == Err::<usize, Error>(e),
            Err(None) => r is Err,
        },
    decreases old(scanner).text().len() - old(scanner).pos(), 6int,
{
    let i = progs.len();
    progs.push(Vec::new());
    let ghost snap0 = progs@;
    proof {
        assert(done_from(progs@, i + 1));
        assert(grown(old(progs)@, progs@));
    }
    let mut nodes: Vec<TreeNode> = Vec::new();
    let mut prev: Option<usize> = None;
    let mut branches: Vec<usize> = Vec::new();
    let mut branch_pos: Vec<usize> = Vec::new();
    let mut rings: Vec<PatternRing> = Vec::new();
    let mut bond: Option<Expr> = None;
    let mut k: usize = 0;
    while k < 100
        invariant
            k <= 100,
            rings@.len() == k,
            forall|x: int| 0 <= x < k ==> (#[trigger] rings@[x]) is None,
        decreases 100 - k,
    {
        rings.push(None);
        k += 1;
    }
    let ghost s0 = *scanner;
    let ghost base = old(progs)@;
    let mut stop = false;
    proof {
        assert(rings@ =~= no_pattern_rings());
        assert(branches@ =~= Seq::<usize>::empty());
        assert(branch_pos@ =~= Seq::<usize>::empty());
        assert(nodes@ =~= Seq::<TreeNode>::empty());
    }
    while !stop && !scanner.is_done()
        invariant
            scanner.wf(),
            scanner.text() == s0.text(),
            s0 == *old(scanner),
            base == old(progs)@,
            compile_inv(base, s0, *scanner, depth, i as int, nested, progs@, nodes@, prev, branches@, branch_pos@, rings@, bond),
            stop ==> nested && scanner.spec_peek() == Some(')') && branches@.len() == 0,
        decreases scanner.text().len() - scanner.pos(), if stop {
            0int
        } else {
            1int
        },
    {
        stop = compile_step(
            scanner,
            progs,
            i,
            depth,
            nested,
            &mut nodes,
            &mut prev,
            &mut branches,
            &mut branch_pos,
            &mut rings,
            &mut bond,
            Ghost(base),
            Ghost(s0),
        )?;
    }
    let ghost run0 = pattern_run(
        s0.text(),
        s0.pos(),
        Seq::empty(),
        None,
        None,
        Seq::empty(),
        Seq::empty(),
        no_pattern_rings(),
    );
    proof {
        if !nested {
            assert(!stop);
            assert(scanner.pos() == s0.text().len());
        }
    }
    if bond.is_some() {
        return Err(missing_character(scanner));
    }
    if nested && scanner.peek() != Some(')') {
        return Err(missing_character(scanner));
    }
    if branches.len() > 0 {
        let last = branch_pos.len() - 1;
        return Err(Error::UnclosedBranch(branch_pos[last]));
    }
    let mut n: usize = 0;
    while n < 100
        invariant
            n <= 100,
            rings@.len() == 100,
            advanced(s0, *scanner),
            s0 == *old(scanner),
            forall|j: int| 0 <= j < n ==> (#[trigger] rings@[j]) is None,
            bond is None,
            branches@.len() == 0,
            branch_pos@.len() == 0,
            !nested ==> scanner.pos() == s0.text().len(),
            !nested && no_embedded(s0.text()) ==> pattern_run(
                s0.text(),
                scanner.pos(),
                nodes@,
                prev,
                None,
                branches@,
                branch_pos@,
                rings@,
            ) == run0,
            run0 == pattern_run(
                s0.text(),
                s0.pos(),
                Seq::empty(),
                None,
                None,
                Seq::empty(),
                Seq::empty(),
                no_pattern_rings(),
            ),
        decreases 100 - n,
    {
        if rings[n].is_some() {
            proof {
                assert forall|j: int| 0 <= j < n implies (#[trigger] ring_openers(rings@)[j]) is None by {
                    assert(rings@[j] is None);
                }
                lemma_first_open_at(ring_openers(rings@), 0, n as int);
                if !nested {
                    assert(pattern_run(
                        s0.text(),
                        scanner.pos(),
                        nodes@,
                        prev,
                        None,
                        branches@,
                        branch_pos@,
                        rings@,
                    ) == Err::<Seq<TreeNode>, Option<Error>>(Some(Error::UnclosedRing(n as u8))));
                }
            }
            return Err(Error::UnclosedRing(n as u8));
        }
        n += 1;
    }
    proof {
        assert forall|j: int| 0 <= j < 100 implies (#[trigger] ring_openers(rings@)[j]) is None by {
            assert(rings@[j] is None);
        }
        lemma_first_open_none(ring_openers(rings@), 0);
    }
    let ghost before = progs@;
    progs.set(i, nodes);
    proof {
        assert forall|x: int| i <= x < progs@.len() implies #[trigger] program_wf(progs@, x) by {
            if x > i {
                assert(program_wf(before, x));
                assert(progs@[x] == before[x]);
            }
        }
    }
    Ok(i)
}

impl SmartsPattern {
    /// Compiles a pattern. Atoms are bracket expressions `[...]`,
    /// organic-subset symbols, `*`, `a` or `A`; between two atoms stands a
    /// bond expression, or nothing for a single-or-aromatic bond; `(` and
    /// `)` open and close branches, `.` starts another component, and a
    /// digit or `%` with two digits marks a ring closure. Each component
    /// starts with a seed node, every further atom is a grow node from the
    /// atom it attaches to, and each closed ring is a ring node, always after
    /// the nodes it names. Refused: an unterminated bracket expression, a
    /// bond with no atom on one side, an unmatched parenthesis, an open or
    /// malformed ring mark, an atomic number outside `1..=118`, and an
    /// unterminated `$(...)`, whose own errors come back unchanged.
    pub fn new(smarts_string: &str) -> (r: Result<SmartsPattern, Error>)
        ensures
            r matches Ok(p) ==> p.wf() && p.smarts_string@ == smarts_string@,
            no_embedded(smarts_string@) ==> match pattern_result(smarts_string@) {
                Ok(ns) => r matches Ok(p) && p.programs@[0]@ == ns,
                Err(Some(e)) => r matches Err(x) && x == e,
                Err(None) => r is Err,
            },
    {
        let mut pattern = SmartsPattern { programs: Vec::new(), smarts_string: String::from_str(smarts_string) };
        match pattern.build_ast() {
            Ok(()) => Ok(pattern),
            Err(e) => Err(e),
        }
    }

    /// Compiles `smarts_string` into `programs`.
    pub fn build_ast(&mut self) -> (r: Result<(), Error>)
        ensures
            final(self).smarts_string@ == old(self).smarts_string@,
            r is Ok ==> final(self).wf(),
            no_embedded(old(self).smarts_string@) ==> match pattern_result(old(self).smarts_string@) {
                Ok(ns) => r is Ok && final(self).programs@[0]@ == ns,
                Err(Some(e)) => r == Err::<(), Error>(e),
                Err(None) => r is Err,
            },
    {
        let mut scanner = Scanner::new(self.smarts_string.as_str());
        let mut progs: Vec<Vec<TreeNode>> = Vec::new();
        let j = compile_program(&mut scanner, &mut progs, false, 0)?;
        if !scanner.is_done() {
            return Err(Error::UnmatchedBranch(scanner.cursor()));
        }
        self.programs = progs;
        Ok(())
    }
}

} // verus!

use molparse::smarts_defs::{ExprType, OpCode};
use molparse::config::read_configuration;
use molparse::molecule::Configuration;
use molparse::bonds::{BondData, BondType};
use molparse::elements::{default_mass, read_symbol, valence_electrons};
use molparse::error::Error;
use molparse::hash::djb2_hash;
use molparse::molecule::{Atom, Bond, Axialness, Molecule};
use molparse::scanner::Scanner;
use molparse::smarts_defs::SmartsPattern;
use molparse::smiles::parse_smiles;
use molparse::smiles_utils::{read_charge, read_isotope, read_organic, read_organic_subset};
use molparse::writer::bond_to_smiles_str;

fn matches(pattern: &str, smiles: &str) -> bool {
    let p = SmartsPattern::new(pattern).unwrap();
    let m = parse_smiles(smiles).unwrap();
    p.match_mol(&m)
}

#[test]
fn atom_and_bond_counts_follow_the_text() {
    let m = parse_smiles("CC(C)C.O").unwrap();
    assert_eq!(m.atoms.len(), 5);
    // four atoms in the first fragment give three bonds, the second none
    assert_eq!(m.bonds.len(), 3);
    let m = parse_smiles("[Na+].[Cl-]").unwrap();
    assert_eq!(m.atoms.len(), 2);
    assert_eq!(m.bonds.len(), 0);
    let m = parse_smiles("ClCBr").unwrap();
    assert_eq!(m.atoms.len(), 3);
    assert_eq!(m.atoms[0].element, 17);
    assert_eq!(m.atoms[2].element, 35);
    let m = parse_smiles("").unwrap();
    assert_eq!(m.atoms.len(), 0);
    assert_eq!(m.bonds.len(), 0);
}

#[test]
fn hydrogens_follow_bond_orders() {
    let m = parse_smiles("C").unwrap();
    assert_eq!(m.atoms.len(), 1);
    assert_eq!(m.atoms[0].hydrogens, 4);
    let m = parse_smiles("C=C").unwrap();
    assert_eq!(m.atoms.len(), 2);
    assert_eq!(m.atoms[0].hydrogens, 2);
    assert_eq!(m.atoms[1].hydrogens, 2);
    assert_eq!(m.bonds.len(), 1);
    assert_eq!(m.bonds[0].bond_order, 2);
    let m = parse_smiles("C#C").unwrap();
    assert_eq!(m.atoms[0].hydrogens, 1);
    let m = parse_smiles("C(C)(C)(C)(C)C").unwrap();
    assert_eq!(m.atoms[0].hydrogens, 0);
}

#[test]
fn aromatic_ring_alternates_orders() {
    let m = parse_smiles("c1ccccc1").unwrap();
    assert_eq!(m.atoms.len(), 6);
    assert_eq!(m.bonds.len(), 6);
    for b in m.bonds.iter() {
        assert!(b.arom);
    }
    for a in m.atoms.iter() {
        assert_eq!(a.hydrogens, 1);
    }
}

#[test]
fn unbalanced_text_is_refused() {
    assert_eq!(parse_smiles("C(C").err(), Some(Error::UnclosedBranch(1)));
    assert_eq!(parse_smiles("CC)C").err(), Some(Error::UnmatchedBranch(2)));
    assert_eq!(parse_smiles("C1CC").err(), Some(Error::UnclosedRing(1)));
    assert_eq!(parse_smiles("C%12CC").err(), Some(Error::UnclosedRing(12)));
    assert!(parse_smiles("C1CC1").is_ok());
    assert!(parse_smiles("C%12CC%12").is_ok());
}

#[test]
fn malformed_text_is_refused() {
    assert_eq!(parse_smiles("CQ").err(), Some(Error::Character(1)));
    assert_eq!(parse_smiles("[C").err(), Some(Error::EndOfLine));
    assert_eq!(parse_smiles("C=").err(), Some(Error::EndOfLine));
    assert_eq!(parse_smiles("=C").err(), Some(Error::Character(0)));
    assert_eq!(parse_smiles(".C").err(), Some(Error::EmptyBranch(0)));
    assert_eq!(parse_smiles("(C)").err(), Some(Error::EmptyBranch(0)));
    assert_eq!(parse_smiles("C%1C").err(), Some(Error::InvalidNumber(1)));
    assert_eq!(parse_smiles("C11").err(), Some(Error::InvalidNumber(2)));
}

#[test]
fn matching_is_repeatable() {
    let p = SmartsPattern::new("[#6]").unwrap();
    let m = parse_smiles("CCO").unwrap();
    assert!(p.match_mol(&m));
    assert!(p.match_mol(&m));
    let q = SmartsPattern::new("[#7]").unwrap();
    assert!(!q.match_mol(&m));
    assert!(!q.match_mol(&m));
}

#[test]
fn low_and_binds_looser_than_or() {
    assert!(!matches("[C,N;+]", "[CH4]"));
    assert!(!matches("[C,N;+]", "[Na+]"));
    assert!(matches("[C,N;+]", "[NH4+]"));
    assert!(matches("[C,N;+]", "[CH3+]"));
    assert!(matches("[C,N&+]", "[CH4]"));
    assert!(!matches("[C,N&+]", "[NH3]"));
}

#[test]
fn ring_closure_makes_one_ring_bond() {
    let m = parse_smiles("C1CCCCC1").unwrap();
    assert_eq!(m.atoms.len(), 6);
    assert_eq!(m.bonds.len(), 6);
    let ring: Vec<&Bond> = m.bonds.iter().filter(|b| b.ring).collect();
    assert_eq!(ring.len(), 1);
    let (s, d) = (ring[0].source, ring[0].dest);
    assert!((s == 0 && d == 5) || (s == 5 && d == 0));
}

#[test]
fn rings_and_chains_are_told_apart() {
    assert!(matches("C1CCCCC1", "C1CCCCC1"));
    assert!(!matches("C1CCCCC1", "CCCCCC"));
    assert!(matches("C=C", "CC=CC"));
    assert!(!matches("C=C", "CCCC"));
    assert!(matches("C(O)O", "OC(O)C"));
    assert!(!matches("C(O)(O)O", "OC(O)C"));
    assert!(matches("c:c", "c1ccccc1"));
    assert!(matches("[C;H3]", "CCO"));
    assert!(!matches("[C;H2]", "C"));
    assert!(matches("[D3]", "CC(C)C"));
    assert!(!matches("[D4]", "CC(C)C"));
    assert!(matches("*~*~*", "CCO"));
    assert!(!matches("*~*~*~*", "CCO"));
    assert!(matches("C.O", "C.O"));
    assert!(!matches("[!#6]", "CCC"));
}

#[test]
fn embedded_patterns_look_around_an_atom() {
    assert!(matches("[$(CO)]", "CCO"));
    assert!(!matches("[$(CO)]", "CCC"));
    assert!(matches("[C;!$(C=O)]O", "CCO"));
    assert!(!matches("[C;!$(C=O)]O", "C(=O)O"));
}

#[test]
fn pattern_errors() {
    assert_eq!(SmartsPattern::new("[#200]").err(), Some(Error::AtomicNumber(2)));
    assert_eq!(SmartsPattern::new("[#0]").err(), Some(Error::AtomicNumber(2)));
    assert_eq!(SmartsPattern::new("CC)").err(), Some(Error::UnmatchedBranch(2)));
    assert_eq!(SmartsPattern::new("C(C").err(), Some(Error::UnclosedBranch(1)));
    assert_eq!(SmartsPattern::new("C1CC").err(), Some(Error::UnclosedRing(1)));
    assert_eq!(SmartsPattern::new("C=").err(), Some(Error::EndOfLine));
    assert_eq!(SmartsPattern::new("[C").err(), Some(Error::EndOfLine));
    assert_eq!(SmartsPattern::new("=C").err(), Some(Error::Compile(0)));
    assert_eq!(SmartsPattern::new("[$(CO]").err(), Some(Error::Character(5)));
}

#[test]
fn element_table() {
    assert_eq!(valence_electrons(1), 1);
    assert_eq!(valence_electrons(6), 4);
    assert_eq!(valence_electrons(8), 6);
    assert_eq!(valence_electrons(17), 7);
    assert_eq!(valence_electrons(0), 0);
    assert_eq!(valence_electrons(119), 0);
    assert_eq!(default_mass(6), 12);
    assert_eq!(default_mass(17), 35);
    let mut s = Scanner::new("Cl");
    assert_eq!(read_symbol(&mut s), Ok(17));
    assert!(s.is_done());
    let mut s = Scanner::new("Ca");
    assert_eq!(read_symbol(&mut s), Ok(20));
    let mut s = Scanner::new("Q");
    assert_eq!(read_symbol(&mut s), Err(Error::Character(0)));
    let mut s = Scanner::new("");
    assert_eq!(read_symbol(&mut s), Err(Error::EndOfLine));
}

#[test]
fn scanner_moves() {
    let mut s = Scanner::new("ab");
    assert_eq!(s.peek(), Some('a'));
    assert_eq!(s.pop(), Some('a'));
    assert_eq!(s.cursor(), 1);
    assert_eq!(s.back(), Some('a'));
    assert_eq!(s.cursor(), 0);
    assert_eq!(s.back(), None);
    s.pop();
    s.pop();
    assert!(s.is_done());
    assert_eq!(s.pop(), None);
}

#[test]
fn field_readers() {
    let mut s = Scanner::new("+3");
    assert_eq!(read_charge(&mut s), 3);
    let mut s = Scanner::new("--");
    assert_eq!(read_charge(&mut s), -2);
    let mut s = Scanner::new("+12");
    assert_eq!(read_charge(&mut s), 12);
    let mut s = Scanner::new("1234");
    assert_eq!(read_isotope(&mut s), 123);
    assert_eq!(s.cursor(), 3);
    let mut s = Scanner::new("Brc");
    assert_eq!(read_organic_subset(&mut s), Some((35, false)));
    assert_eq!(read_organic_subset(&mut s), Some((6, true)));
    assert_eq!(read_organic_subset(&mut s), None);
    let mut s = Scanner::new("cC");
    assert_eq!(read_organic(&mut s), Some(6));
    assert_eq!(read_organic(&mut s), None);
    assert_eq!(s.cursor(), 1);
}

#[test]
fn bonds_reverse_and_render() {
    assert_eq!(BondType::Up.reverse(), BondType::Down);
    assert_eq!(BondType::Double.reverse(), BondType::Double);
    assert_eq!(BondType::Aromatic.get_bond_order(), 3);
    let d = BondData { bond_type: BondType::Down, ring: true };
    let r = d.reverse();
    assert_eq!(r.bond_type, BondType::Up);
    assert!(r.ring);
    let b = Bond { source: 0, dest: 1, arom: false, ring: false, bond_order: 3, axialness: Axialness::UNKNOWN };
    assert_eq!(bond_to_smiles_str(&b), "#");
}

#[test]
fn graph_building() {
    let mut m = Molecule::new();
    let blank = || Atom {
        outgoing_bond: Vec::new(),
        element: 6,
        isotope: 0,
        hydrogens: 0,
        aromatic: false,
        f_charge: 0,
        configuration: None,
        ring: false,
        symmetry_class: 0,
    };
    let a = m.add_atom(blank());
    let b = m.add_atom(blank());
    let c = m.add_atom(blank());
    let x = m.add_bond(Bond { source: a, dest: b, arom: false, ring: false, bond_order: 1, axialness: Axialness::UNKNOWN });
    let y = m.add_bond(Bond { source: b, dest: c, arom: false, ring: false, bond_order: 2, axialness: Axialness::UNKNOWN });
    assert_eq!(m.incident_bonds(b), &vec![x, y]);
    assert_eq!(m.get_bond(c, b), Some(y));
    assert_eq!(m.get_bond(a, c), None);
    assert_eq!(m.derived_hydrogens(b), 1);
}

#[test]
fn hash_values() {
    assert_eq!(djb2_hash(""), 22);
    assert_eq!(djb2_hash("a"), 22 * 33 + 97);
    assert_eq!(djb2_hash("ab"), (22 * 33 + 97) * 33 + 98);
}

#[test]
fn depth_first_order() {
    let m = parse_smiles("CC(C)C.O").unwrap();
    assert_eq!(m.dfs(0), vec![0, 1, 3, 2]);
    assert_eq!(m.dfs(4), vec![4]);
    let r = parse_smiles("C1CC1").unwrap();
    let mut seen = r.dfs(2);
    seen.sort();
    assert_eq!(seen, vec![0, 1, 2]);
}

#[test]
fn atom_primitives() {
    assert!(matches("[X4]", "C"));
    assert!(matches("[v4]", "CC"));
    assert!(matches("[x1]", "C1CC1"));
    assert!(!matches("[x1]", "CCC"));
    assert!(matches("[R]", "C1CC1"));
    assert!(!matches("[R]", "CCC"));
    assert!(matches("[R0]", "CCC"));
    assert!(matches("[^1]", "C#C"));
    assert!(matches("[^2]", "C=C"));
    assert!(matches("[^3]", "CC"));
    assert!(!matches("[^1]", "CC"));
    assert!(matches("[@]", "[C@H](F)(Cl)Br"));
    assert!(!matches("[@@]", "[C@H](F)(Cl)Br"));
    assert!(matches("[@@]", "[C@@H](F)(Cl)Br"));
    assert!(matches("[-]", "[O-]"));
    assert!(matches("[+2]", "[Fe+2]"));
    assert!(matches("[++]", "[Fe++]"));
    assert!(!matches("[+]", "[Fe++]"));
    assert!(matches("[Fe]", "[Fe+2]"));
    assert!(matches("[#26]", "[Fe+2]"));
    assert!(matches("[a]", "c1ccccc1"));
    assert!(!matches("[A]", "c1ccccc1"));
    assert!(matches("[c]", "c1ccccc1"));
    assert!(!matches("[C]", "c1ccccc1"));
}

#[test]
fn bond_primitives() {
    assert!(!matches("C-C", "C=C"));
    assert!(matches("C~C", "C=C"));
    assert!(matches("C!-C", "C=C"));
    assert!(matches("C=,#C", "C#C"));
    assert!(!matches("C=;#C", "C#C"));
    assert!(matches("C/C", "C/C=C/C"));
    assert!(!matches("C\\C", "C/C=C/C"));
    assert!(matches("C@C", "C1CC1"));
    assert!(!matches("C@C", "CCC"));
    assert!(matches("CC", "c1ccccc1") == false);
    assert!(matches("cc", "c1ccccc1"));
}

#[test]
fn bonds_join_the_atoms_written() {
    let m = parse_smiles("CC(O)C").unwrap();
    let ends: Vec<(usize, usize)> = m.bonds.iter().map(|b| (b.source, b.dest)).collect();
    assert_eq!(ends, vec![(0, 1), (1, 2), (1, 3)]);
    let m = parse_smiles("C1CC2CC1C2").unwrap();
    let rings: Vec<(usize, usize)> = m.bonds.iter().filter(|b| b.ring).map(|b| (b.source, b.dest)).collect();
    assert_eq!(rings, vec![(0, 4), (2, 5)]);
    let m = parse_smiles("[13CH3][O-]").unwrap();
    assert_eq!(m.atoms[0].isotope, 13);
    assert_eq!(m.atoms[0].element, 6);
    assert_eq!(m.atoms[1].f_charge, -1);
}

#[test]
fn configuration_and_direction_marks() {
    let mut s = Scanner::new("@TX");
    assert_eq!(read_configuration(&mut s), Err(Error::Character(2)));
    let mut s = Scanner::new("@OH30");
    assert_eq!(read_configuration(&mut s), Ok(Some(Configuration::OH30)));
    assert_eq!(s.cursor(), 5);
    let mut s = Scanner::new("@H");
    assert_eq!(read_configuration(&mut s), Ok(Some(Configuration::TH1)));
    assert_eq!(s.cursor(), 1);
    assert_eq!(SmartsPattern::new("C/?C").err(), Some(Error::Character(2)));
    assert!(matches("[R1]", "C1CC1"));
    assert!(!matches("[R2]", "C1CC1"));
}

#[test]
fn compiled_program_shape() {
    let p = SmartsPattern::new("C1CC1").unwrap();
    let prog = &p.programs[0];
    let ops: Vec<OpCode> = prog.iter().map(|n| n.op_code).collect();
    assert_eq!(ops, vec![OpCode::SeedAtom, OpCode::GrowBond, OpCode::GrowBond, OpCode::CloseRing]);
    assert_eq!((prog[1].src, prog[2].src), (0, 1));
    assert_eq!((prog[3].src, prog[3].dst), (0, 2));
    let q = SmartsPattern::new("CC").unwrap();
    assert_eq!(q.programs[0][1].bond.expr_type, ExprType::BeDefault);
    assert!(matches("CC", "CC"));
    assert!(matches("cc", "c1ccccc1"));
    assert!(!matches("CC", "C=C"));
    let mut s = Scanner::new("[13CH4]");
    let a = molparse::smiles_utils::read_bracket(&mut s).unwrap().unwrap();
    assert_eq!((a.element, a.isotope, a.hydrogens, a.f_charge), (6, 13, 4, 0));
    let mut s = Scanner::new("[NH4+]");
    let a = molparse::smiles_utils::read_bracket(&mut s).unwrap().unwrap();
    assert_eq!((a.element, a.hydrogens, a.f_charge), (7, 4, 1));
}

use molparse::smarts_defs::SmartsPattern;
use molparse::smiles::parse_smiles;


#[test]
fn test_smiles_parsing() {
    let mol = parse_smiles("C1=NC(=C2C(=N1)N(C=N2)[C@H]3[C@@H]([C@@H]([C@H](O3)CO)O)O)N");
    match mol {
        Ok(mol) => {
            assert_eq!(mol.atoms.len(), 19)
        }
        Err(e) => {
            assert!(false, "Failed to parse SMILES string: {:?}", e);
        }
    }
}

#[test]
fn test_isotopes() {
    let smarts_1 = SmartsPattern::new("[12*]").unwrap();

    assert!(smarts_1.match_mol(&parse_smiles("C").unwrap()));
    assert!(smarts_1.match_mol(&parse_smiles("[CH4]").unwrap()));
    assert!(smarts_1.match_mol(&parse_smiles("[12CH4]").unwrap()));
    assert!(smarts_1.match_mol(&parse_smiles("[13CH4]").unwrap()));

    let smarts_2 = SmartsPattern::new("[13*]").unwrap();

    assert!(!smarts_2.match_mol(&parse_smiles("C").unwrap()));
    assert!(!smarts_2.match_mol(&parse_smiles("[CH4]").unwrap()));
    assert!(!smarts_2.match_mol(&parse_smiles("[12CH4]").unwrap()));
    assert!(smarts_2.match_mol(&parse_smiles("[13CH4]").unwrap()));

    let smarts_3 = SmartsPattern::new("[0*]").unwrap();

    assert!(smarts_3.match_mol(&parse_smiles("C").unwrap()));
    assert!(smarts_3.match_mol(&parse_smiles("[CH4]").unwrap()));
    assert!(!smarts_3.match_mol(&parse_smiles("[12CH4]").unwrap()));
    assert!(!smarts_3.match_mol(&parse_smiles("[13CH4]").unwrap()));
}

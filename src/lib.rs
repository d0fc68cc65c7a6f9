//! Chemical line-notation parsing, substructure pattern compilation and
//! backtracking subgraph matching over an arena-based molecular graph.
//!
//! Text goes through a [`scanner::Scanner`]; [`smiles::parse_smiles`] builds
//! a [`molecule::Molecule`] from it, [`smarts_defs::SmartsPattern::new`]
//! compiles a pattern into programs of pattern nodes, and
//! [`smarts_defs::SmartsPattern::match_mol`] decides whether the pattern
//! occurs in the molecule.

pub mod error;
pub mod text;
pub mod scanner;
pub mod elements;
pub mod bonds;
pub mod molecule;
pub mod graph_algo;
pub mod config;
pub mod smiles_utils;
pub mod smiles;
pub mod smarts_defs;
pub mod smarts;
pub mod matcher;
pub mod hash;
pub mod writer;

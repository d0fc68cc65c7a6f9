//! Line-notation symbols for bonds.

use vstd::prelude::*;
use vstd::string::StringExecFns;
use crate::molecule::Bond;

verus! {

/// The symbol written for a bond of the given order: `-`, `=`, `#`, `$`,
/// or nothing.
pub open spec fn bond_symbol(order: u8) -> Seq<char> {
    if order == 1 {
        seq!['-']
    } else if order == 2 {
        seq!['=']
    } else if order == 3 {
        seq!['#']
    } else if order == 4 {
        seq!['$']
    } else {
        Seq::empty()
    }
}

pub fn bond_to_smiles_str(bond: &Bond) -> (r: String)
    ensures
        r@ == bond_symbol(bond.bond_order),
{
    let s = match bond.bond_order {
        1 => "-",
        2 => "=",
        3 => "#",
        4 => "$",
        _ => "",
    };
    proof {
        reveal_strlit("-");
        reveal_strlit("=");
        reveal_strlit("#");
        reveal_strlit("$");
        reveal_strlit("");
    }
    let r = String::from_str(s);
    assert(r@ =~= bond_symbol(bond.bond_order));
    r
}

} // verus!

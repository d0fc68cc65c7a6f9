//! Bond kinds as written in the line notation.

use vstd::prelude::*;

verus! {

/// The kind of a bond symbol: `-`, `=`, `#`, `$`, `:`, `/` or `\`.
#[derive(Clone, Copy, Debug, PartialEq, Eq, Structural)]
pub enum BondType {
    Single,
    Double,
    Triple,
    Quadruple,
    Aromatic,
    Up,
    Down,
}

/// A bond kind with its ring-closure flag.
#[derive(Clone, Copy, Debug, PartialEq, Eq, Structural)]
pub struct BondData {
    pub bond_type: BondType,
    pub ring: bool,
}

/// Up and down swap; every other kind stays.
pub open spec fn spec_reverse(t: BondType) -> BondType {
    match t {
        BondType::Up => BondType::Down,
        BondType::Down => BondType::Up,
        _ => t,
    }
}

/// Twice the bond order: an aromatic bond (order 1.5) gives 3, and the
/// directional single bonds give 2.
pub open spec fn spec_half_order(t: BondType) -> u8 {
    match t {
        BondType::Single => 2,
        BondType::Double => 4,
        BondType::Triple => 6,
        BondType::Quadruple => 8,
        BondType::Aromatic => 3,
        BondType::Up => 2,
        BondType::Down => 2,
    }
}

impl BondData {
    /// The same bond seen from its other end.
    pub fn reverse(&self) -> (r: Self)
        ensures
            r.bond_type == spec_reverse(self.bond_type),
            r.ring == self.ring,
    {
        Self { bond_type: self.bond_type.reverse(), ring: self.ring }
    }
}

impl BondType {
    /// Directional bonds (up and down) give the complementary kind; every
    /// other kind gives itself.
    pub fn reverse(&self) -> (r: Self)
        ensures
            r == spec_reverse(*self),
    {
        match self {
            Self::Single => Self::Single,
            Self::Double => Self::Double,
            Self::Triple => Self::Triple,
            Self::Quadruple => Self::Quadruple,
            Self::Aromatic => Self::Aromatic,
            Self::Up => Self::Down,
            Self::Down => Self::Up,
        }
    }

    /// The bond order in half-bond units (see [`spec_half_order`]).
    pub fn get_bond_order(&self) -> (r: u8)
        ensures
            r == spec_half_order(*self),
    {
        match self {
            Self::Single => 2,
            Self::Double => 4,
            Self::Triple => 6,
            Self::Quadruple => 8,
            Self::Aromatic => 3,
            Self::Up => 2,
            Self::Down => 2,
        }
    }
}

} // verus!

//! Unsigned and signed transaction amounts with checked arithmetic.
//!
//! Every amount in the ledgers is a count of atoms.  Arithmetic never wraps
//! and never panics: each operation returns `None` (or an error at the call
//! site) on overflow or underflow, as the accounting rules demand.

use vstd::prelude::*;

verus! {

/// An unsigned amount of atoms of some coin or token.
#[derive(Clone, Copy, Debug, PartialEq, Eq, Hash, Structural)]
pub struct Amount {
    pub atoms: u128,
}

impl Amount {
    /// The zero amount.
    pub fn zero() -> (r: Amount)
        ensures
            r.atoms() == 0,
    {
        Amount { atoms: 0 }
    }

    pub open spec fn atoms(self) -> u128 {
        self.atoms
    }

    pub fn from_atoms(atoms: u128) -> (r: Amount)
        ensures
            r.atoms() == atoms,
    {
        Amount { atoms }
    }

    pub fn into_atoms(self) -> (r: u128)
        ensures
            r == self.atoms(),
    {
        self.atoms
    }

    /// Checked addition: `None` exactly on overflow.
    pub fn add(self, other: Amount) -> (r: Option<Amount>)
        ensures
            self.atoms() + other.atoms() <= u128::MAX ==> (r matches Some(s)
                && s.atoms() == self.atoms() + other.atoms()),
            self.atoms() + other.atoms() > u128::MAX ==> r is None,
    {
        match self.atoms.checked_add(other.atoms) {
            Some(atoms) => Some(Amount { atoms }),
            None => None,
        }
    }

    /// Checked subtraction: `None` exactly on underflow.
    pub fn sub(self, other: Amount) -> (r: Option<Amount>)
        ensures
            other.atoms() <= self.atoms() ==> (r matches Some(s)
                && s.atoms() == self.atoms() - other.atoms()),
            other.atoms() > self.atoms() ==> r is None,
    {
        if self.atoms >= other.atoms {
            Some(Amount { atoms: self.atoms - other.atoms })
        } else {
            None
        }
    }

    pub fn is_zero(self) -> (r: bool)
        ensures
            r == (self.atoms() == 0),
    {
        self.atoms == 0
    }

    pub fn ge(self, other: Amount) -> (r: bool)
        ensures
            r == (self.atoms() >= other.atoms()),
    {
        self.atoms >= other.atoms
    }

    pub fn gt(self, other: Amount) -> (r: bool)
        ensures
            r == (self.atoms() > other.atoms()),
    {
        self.atoms > other.atoms
    }

    pub fn le(self, other: Amount) -> (r: bool)
        ensures
            r == (self.atoms() <= other.atoms()),
    {
        self.atoms <= other.atoms
    }

    pub fn lt(self, other: Amount) -> (r: bool)
        ensures
            r == (self.atoms() < other.atoms()),
    {
        self.atoms < other.atoms
    }
}

/// A signed amount: the per-key value of a signed-amount delta.
#[derive(Clone, Copy, Debug, PartialEq, Eq, Structural)]
pub struct SignedAmount {
    pub atoms: i128,
}

impl SignedAmount {
    pub open spec fn atoms(self) -> i128 {
        self.atoms
    }

    pub fn from_atoms(atoms: i128) -> (r: SignedAmount)
        ensures
            r.atoms() == atoms,
    {
        SignedAmount { atoms }
    }

    pub fn into_atoms(self) -> (r: i128)
        ensures
            r == self.atoms(),
    {
        self.atoms
    }

    pub fn is_zero(self) -> (r: bool)
        ensures
            r == (self.atoms() == 0),
    {
        self.atoms == 0
    }

    /// Checked signed addition: `None` exactly when the sum leaves `i128`.
    pub fn add(self, other: SignedAmount) -> (r: Option<SignedAmount>)
        ensures
            i128::MIN <= self.atoms() + other.atoms() <= i128::MAX ==> (r matches Some(s)
                && s.atoms() == self.atoms() + other.atoms()),
            !(i128::MIN <= self.atoms() + other.atoms() <= i128::MAX) ==> r is None,
    {
        match self.atoms.checked_add(other.atoms) {
            Some(atoms) => Some(SignedAmount { atoms }),
            None => None,
        }
    }

    /// Checked negation: `None` exactly for the one value without a negation.
    pub fn neg(self) -> (r: Option<SignedAmount>)
        ensures
            self.atoms() != i128::MIN ==> (r matches Some(s) && s.atoms() == -self.atoms()),
            self.atoms() == i128::MIN ==> r is None,
    {
        if self.atoms == i128::MIN {
            None
        } else {
            Some(SignedAmount { atoms: -self.atoms })
        }
    }
}

/// The total transaction fee collected while connecting a block.
#[derive(Clone, Copy, Debug, PartialEq, Eq, Structural)]
pub struct Fee(pub Amount);

/// The block subsidy granted to the staker on top of the fees.
#[derive(Clone, Copy, Debug, PartialEq, Eq, Structural)]
pub struct Subsidy(pub Amount);

} // verus!

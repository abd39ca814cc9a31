//! Which nuclide, and in which nuclear state.

use vstd::prelude::*;

verus! {

/// The nuclear state of a nuclide: its ground state, or one of its
/// long-lived excited states, counted from 1 in order of excitation energy.
#[derive(Clone, Copy, Debug, PartialEq, Eq, Structural)]
pub enum IsomerState {
    Ground,
    Excited(u8),
}

impl IsomerState {
    /// Position of the state among the excitation levels, 0 for the ground
    /// state.
    pub open spec fn level(self) -> nat {
        match self {
            IsomerState::Ground => 0,
            IsomerState::Excited(i) => i as nat,
        }
    }

    /// Position of the state among the excitation levels, 0 for the ground
    /// state.
    pub fn index(&self) -> (out: usize)
        ensures
            out == self.level(),
    {
        match self {
            IsomerState::Ground => 0,
            IsomerState::Excited(i) => *i as usize,
        }
    }
}

/// A nuclide in a given state: element symbol, mass number and isomer.
#[derive(Clone, Debug)]
pub struct NuclideIdentity {
    pub element: String,
    pub mass_number: u16,
    pub state: IsomerState,
}

impl NuclideIdentity {
    /// Whether two identities name the same nuclide in the same state.
    pub open spec fn same(self, other: NuclideIdentity) -> bool {
        &&& self.element@ == other.element@
        &&& self.mass_number == other.mass_number
        &&& self.state == other.state
    }
}

impl PartialEq for NuclideIdentity {
    fn eq(&self, other: &NuclideIdentity) -> (out: bool) {
        self.element == other.element && self.mass_number == other.mass_number && self.state
            == other.state
    }
}

impl vstd::std_specs::cmp::PartialEqSpecImpl for NuclideIdentity {
    open spec fn obeys_eq_spec() -> bool {
        true
    }

    open spec fn eq_spec(&self, other: &NuclideIdentity) -> bool {
        self.same(*other)
    }
}

} // verus!

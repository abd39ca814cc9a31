//! The kinds of decay radiation that a provider can be asked for.

use vstd::prelude::*;

verus! {

/// A kind of decay radiation.
#[derive(Debug, Copy, Clone, PartialEq, Eq, PartialOrd, Ord, Structural)]
pub enum CliRadType {
    Alpha,
    BetaPlus,
    BetaMinus,
    Gamma,
    Xray,
    Electron,
}

impl CliRadType {
    /// The words for the kind of radiation.
    pub open spec fn label(self) -> Seq<char> {
        match self {
            CliRadType::Alpha => "alpha"@,
            CliRadType::BetaPlus => "beta plus"@,
            CliRadType::BetaMinus => "beta minus"@,
            CliRadType::Gamma => "gamma"@,
            CliRadType::Xray => "x-ray"@,
            CliRadType::Electron => "electron"@,
        }
    }

    /// The words for the kind of radiation.
    pub fn name(&self) -> (out: &'static str)
        ensures
            out@ == self.label(),
    {
        match self {
            CliRadType::Alpha => "alpha",
            CliRadType::BetaPlus => "beta plus",
            CliRadType::BetaMinus => "beta minus",
            CliRadType::Gamma => "gamma",
            CliRadType::Xray => "x-ray",
            CliRadType::Electron => "electron",
        }
    }
}

} // verus!

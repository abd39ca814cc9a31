//! The sources of a time step as structured entries.
//!
//! An entry holds what a reader of the data needs of a source: its two
//! names, its activity, and the energies and intensities of its records as
//! two lists that run in parallel.

use vstd::prelude::*;
use crate::nuclide::NuclideIdentity;
use crate::quantity::Quantity;
use crate::record::DecayRecord;
use crate::source::Source;

verus! {

/// One source, as it is written to a structured document.
#[derive(Debug)]
pub struct JsonEntry {
    /// The name as the inventory writes it.
    pub name_fispact: String,
    /// The nuclide and state, from which its full name is made.
    pub nuclide: NuclideIdentity,
    /// Activity in Bq, as the bit pattern of a double-precision number.
    pub activity: u64,
    /// The emission energy of each record, in keV.
    pub energy: Vec<Option<Quantity>>,
    /// The emission intensity of each record, in percent.
    pub intensity: Vec<Option<Quantity>>,
}

/// The emission energies of the records, in their order.
pub open spec fn energies(records: Seq<DecayRecord>) -> Seq<Option<Quantity>> {
    Seq::new(records.len(), |i: int| records[i].energy)
}

/// The emission intensities of the records, in their order.
pub open spec fn intensities(records: Seq<DecayRecord>) -> Seq<Option<Quantity>> {
    Seq::new(records.len(), |i: int| records[i].intensity)
}

/// Whether an entry says what a source holds.
pub open spec fn describes(entry: JsonEntry, source: Source) -> bool {
    &&& entry.name_fispact@ == source.fispact_name@
    &&& entry.nuclide.same(source.iaea_nuclide)
    &&& entry.activity == source.fispact_activity
    &&& entry.energy@ == energies(source.iaea_records@)
    &&& entry.intensity@ == intensities(source.iaea_records@)
}

/// The entry of one source.
pub fn entry(source: &Source) -> (out: JsonEntry)
    ensures
        describes(out, *source),
{
    let mut energy: Vec<Option<Quantity>> = Vec::new();
    let mut intensity: Vec<Option<Quantity>> = Vec::new();
    let mut i: usize = 0;
    while i < source.iaea_records.len()
        invariant
            i <= source.iaea_records.len(),
            energy.len() == i,
            intensity.len() == i,
            forall|k: int| 0 <= k < i ==> energy[k] == source.iaea_records[k].energy,
            forall|k: int| 0 <= k < i ==> intensity[k] == source.iaea_records[k].intensity,
        decreases source.iaea_records.len() - i,
    {
        energy.push(source.iaea_records[i].energy);
        intensity.push(source.iaea_records[i].intensity);
        i += 1;
    }
    assert(energy@ =~= energies(source.iaea_records@));
    assert(intensity@ =~= intensities(source.iaea_records@));
    JsonEntry {
        name_fispact: source.fispact_name.clone(),
        nuclide: NuclideIdentity {
            element: source.iaea_nuclide.element.clone(),
            mass_number: source.iaea_nuclide.mass_number,
            state: source.iaea_nuclide.state,
        },
        activity: source.fispact_activity,
        energy,
        intensity,
    }
}

/// The entries of the sources, in their order.
pub fn entries(sources: &[Source]) -> (out: Vec<JsonEntry>)
    ensures
        out.len() == sources.len(),
        forall|i: int| 0 <= i < sources.len() ==> describes(#[trigger] out[i], sources[i]),
{
    let mut out: Vec<JsonEntry> = Vec::new();
    let mut i: usize = 0;
    while i < sources.len()
        invariant
            i <= sources.len(),
            out.len() == i,
            forall|k: int| 0 <= k < i ==> describes(#[trigger] out[k], sources[k]),
        decreases sources.len() - i,
    {
        out.push(entry(&sources[i]));
        i += 1;
    }
    out
}

} // verus!

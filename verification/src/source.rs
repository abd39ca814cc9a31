//! One nuclide of one time step, with the decay records that are its own.

use vstd::prelude::*;
use crate::cli::SortProperty;
use crate::nuclide::NuclideIdentity;
use crate::order::{arranged, is_stable_sort, lex_lt, lex_lt_from, precedes, rank_views, sorts, stable_sort};
use crate::quantity::key_or;
use crate::record::{
    chosen, choice_of, excitation_levels, is_level_list, keys, observed_only, observed_records,
    resolved, select_level, target_level, DecayRecord,
};
use crate::quantity::Quantity;

verus! {

/// A nuclide found in the inventory, and what is known of its decay.
#[derive(Clone, Debug)]
pub struct Source {
    /// The name as the inventory writes it.
    pub fispact_name: String,
    /// Activity in Bq, as the bit pattern of a double-precision number.
    pub fispact_activity: u64,
    /// The nuclide and state that the name stands for.
    pub iaea_nuclide: NuclideIdentity,
    /// The decay records of that state. Empty until they are looked up.
    pub iaea_records: Vec<DecayRecord>,
}

/// The rank that orders records by a property: ascending energy, or
/// descending intensity. A missing value ranks as zero.
pub open spec fn record_rank(property: SortProperty) -> spec_fn(DecayRecord) -> Seq<i64> {
    |r: DecayRecord|
        match property {
            SortProperty::Energy => seq![key_or(r.energy, 0) as i64],
            SortProperty::Intensity => seq![(-key_or(r.intensity, 0)) as i64],
        }
}

/// Whether `records` is what a lookup resolves to for state number
/// `index`: nothing where the provider had nothing, else the records of
/// that excitation level.
pub open spec fn resolves(lookup: Option<Vec<DecayRecord>>, index: nat, records: Seq<DecayRecord>) -> bool {
    match lookup {
        None => records == Seq::<DecayRecord>::empty(),
        Some(found) => exists|levels: Seq<Quantity>| #[trigger]
            is_level_list(keys(levels), found@) && records == resolved(found@, levels, index),
    }
}

/// A lookup resolves to one list of records only.
pub proof fn lemma_resolves_unique(
    lookup: Option<Vec<DecayRecord>>,
    index: nat,
    first: Seq<DecayRecord>,
    second: Seq<DecayRecord>,
)
    requires
        resolves(lookup, index, first),
        resolves(lookup, index, second),
    ensures
        first == second,
{
    match lookup {
        None => {},
        Some(found) => {
            let one = choose|levels: Seq<Quantity>| #[trigger]
                is_level_list(keys(levels), found@) && first == resolved(found@, levels, index);
            let two = choose|levels: Seq<Quantity>| #[trigger]
                is_level_list(keys(levels), found@) && second == resolved(found@, levels, index);
            crate::record::lemma_resolved_unique(found@, one, two, index);
        },
    }
}

/// Whether the records can be sorted by a property: each of them has a
/// value for it.
pub open spec fn sortable(records: Seq<DecayRecord>, property: SortProperty) -> bool {
    forall|i: int|
        0 <= i < records.len() ==> match property {
            SortProperty::Energy => (#[trigger] records[i]).energy is Some,
            SortProperty::Intensity => records[i].intensity is Some,
        }
}

/// Whether every record was observed.
pub open spec fn all_observed(records: Seq<DecayRecord>) -> bool {
    forall|i: int| 0 <= i < records.len() ==> (#[trigger] records[i]).observed()
}

/// Whether the records stand in the order of a property: energies
/// ascending, or intensities descending.
pub open spec fn in_order(records: Seq<DecayRecord>, property: SortProperty) -> bool {
    forall|i: int, j: int|
        0 <= i < j < records.len() ==> match property {
            SortProperty::Energy => key_or((#[trigger] records[i]).energy, 0) <= key_or(
                (#[trigger] records[j]).energy,
                0,
            ),
            SortProperty::Intensity => key_or(records[i].intensity, 0) >= key_or(
                records[j].intensity,
                0,
            ),
        }
}

/// Ranks of one number compare as the numbers do.
pub proof fn lemma_lex_single(a: i64, b: i64)
    ensures
        lex_lt(seq![a], seq![b]) == (a < b),
{
    reveal_with_fuel(lex_lt_from, 3);
}

impl Source {
    /// Whether two sources are the same entry: same name, same nuclide.
    /// Activity and records play no part.
    pub open spec fn same(self, other: Source) -> bool {
        self.fispact_name@ == other.fispact_name@ && self.iaea_nuclide.same(other.iaea_nuclide)
    }

    /// Whether only the records differ between two sources.
    pub open spec fn same_but_records(self, other: Source) -> bool {
        &&& self.fispact_name == other.fispact_name
        &&& self.fispact_activity == other.fispact_activity
        &&& self.iaea_nuclide == other.iaea_nuclide
    }

    /// Fills in the decay records of the nuclide's own state from what the
    /// provider returned for the nuclide.
    ///
    /// Where the provider had nothing, or nothing for this state, the
    /// source is left without records.
    pub fn find_records(&mut self, lookup: Option<Vec<DecayRecord>>)
        ensures
            final(self).same_but_records(*old(self)),
            resolves(lookup, old(self).iaea_nuclide.state.level(), final(self).iaea_records@),
    {
        match lookup {
            None => {
                self.iaea_records = Vec::new();
            },
            Some(found) => {
                let levels = excitation_levels(&found);
                let choice = target_level(&levels, self.iaea_nuclide.state.index());
                let ghost all = found@;
                self.iaea_records = select_level(found, choice);
                assert(is_level_list(keys(levels@), all) && self.iaea_records@ == resolved(
                    all,
                    levels@,
                    old(self).iaea_nuclide.state.level(),
                ));
            },
        }
    }

    /// Removes the records whose emission was not observed: those without
    /// an energy or without an intensity.
    pub fn remove_unobserved_records(&mut self)
        ensures
            final(self).same_but_records(*old(self)),
            final(self).iaea_records@ == old(self).iaea_records@.filter(observed_records()),
            all_observed(final(self).iaea_records@),
    {
        let mut records: Vec<DecayRecord> = Vec::new();
        std::mem::swap(&mut self.iaea_records, &mut records);
        let ghost before = records@;
        self.iaea_records = observed_only(records);
        proof {
            assert forall|i: int| 0 <= i < self.iaea_records@.len() implies (
            #[trigger] self.iaea_records@[i]).observed() by {
                before.lemma_filter_pred(observed_records(), i);
            }
        }
    }

    /// Sorts the records by ascending energy or by descending intensity.
    /// Records that tie keep their order.
    pub fn sort_records(&mut self, property: &SortProperty)
        requires
            sortable(old(self).iaea_records@, *property),
        ensures
            final(self).same_but_records(*old(self)),
            is_stable_sort(
                old(self).iaea_records@,
                final(self).iaea_records@,
                record_rank(*property),
            ),
            in_order(final(self).iaea_records@, *property),
    {
        let mut records: Vec<DecayRecord> = Vec::new();
        std::mem::swap(&mut self.iaea_records, &mut records);
        let ghost input = records@;
        let ghost rank = record_rank(*property);
        let mut ranks: Vec<Vec<i64>> = Vec::new();
        let mut i: usize = 0;
        while i < records.len()
            invariant
                i <= records.len(),
                ranks.len() == i,
                records@ == input,
                rank == record_rank(*property),
                sortable(input, *property),
                forall|k: int| 0 <= k < i ==> (#[trigger] ranks[k])@ == rank(input[k]),
            decreases records.len() - i,
        {
            let key: i64 = match property {
                SortProperty::Energy => records[i].energy.unwrap().order_key(),
                SortProperty::Intensity => 0 - records[i].intensity.unwrap().order_key(),
            };
            let mut one: Vec<i64> = Vec::new();
            one.push(key);
            assert(one@ =~= rank(input[i as int]));
            ranks.push(one);
            i += 1;
        }
        let (sorted, order) = stable_sort(records, &ranks);
        proof {
            let rk = input.map_values(rank);
            assert(rank_views(ranks@) =~= rk);
            assert(sorts(order@, rk) && sorted@ == arranged(input, order@));
            assert forall|a: int, b: int| 0 <= a < b < sorted@.len() implies match *property {
                SortProperty::Energy => key_or((#[trigger] sorted@[a]).energy, 0) <= key_or(
                    (#[trigger] sorted@[b]).energy,
                    0,
                ),
                SortProperty::Intensity => key_or(sorted@[a].intensity, 0) >= key_or(
                    sorted@[b].intensity,
                    0,
                ),
            } by {
                let x = order@[a] as int;
                let y = order@[b] as int;
                assert(precedes(rk, x, y));
                assert(sorted[a] == input[x]);
                assert(sorted[b] == input[y]);
                assert(rk[x] == rank(input[x]));
                assert(rk[y] == rank(input[y]));
                match *property {
                    SortProperty::Energy => {
                        let p = key_or(input[x].energy, 0) as i64;
                        let q = key_or(input[y].energy, 0) as i64;
                        lemma_lex_single(p, q);
                        lemma_lex_single(q, p);
                    },
                    SortProperty::Intensity => {
                        let p = (-key_or(input[x].intensity, 0)) as i64;
                        let q = (-key_or(input[y].intensity, 0)) as i64;
                        lemma_lex_single(p, q);
                        lemma_lex_single(q, p);
                    },
                }
            }
        }
        self.iaea_records = sorted;
    }
}

impl PartialEq for Source {
    fn eq(&self, other: &Source) -> (out: bool) {
        self.fispact_name == other.fispact_name && self.iaea_nuclide == other.iaea_nuclide
    }
}

impl vstd::std_specs::cmp::PartialEqSpecImpl for Source {
    open spec fn obeys_eq_spec() -> bool {
        true
    }

    open spec fn eq_spec(&self, other: &Source) -> bool {
        self.same(*other)
    }
}

} // verus!

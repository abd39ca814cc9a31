//! Decay records, and which of them belong to one excitation level.
//!
//! A decay-data provider returns the records of every excitation level of a
//! nuclide in one flat list. The only thing that tells the levels apart is
//! the excitation energy of the parent, which each record may or may not
//! carry. The levels of a nuclide are therefore the distinct parent energies
//! found in its records, in ascending order, and an isomer is found by its
//! position in that list.

use vstd::prelude::*;
use crate::quantity::Quantity;
use crate::order::{keep_marked, lemma_marked_filter};

verus! {

/// One line of decay data: a parent state decaying to a daughter, and one
/// emission that goes with it.
#[derive(Clone, Debug)]
pub struct DecayRecord {
    /// Name of the decaying nuclide.
    pub parent: String,
    /// Excitation energy of the decaying state, in keV.
    pub p_energy: Option<Quantity>,
    /// Name of the nuclide it decays to.
    pub daughter: String,
    /// Decay mode, as the provider labels it.
    pub decay_mode: String,
    /// Share of decays that take this mode, in percent.
    pub branching: Option<Quantity>,
    /// Energy of the emission, in keV.
    pub energy: Option<Quantity>,
    /// Emissions per hundred decays.
    pub intensity: Option<Quantity>,
    /// Half-life of the decaying state, in seconds.
    pub half_life: Option<Quantity>,
}

impl DecayRecord {
    /// Whether the emission was observed: both its energy and its intensity
    /// are known.
    pub open spec fn observed(self) -> bool {
        self.energy is Some && self.intensity is Some
    }

    /// Whether the record belongs to the level at `key`: it either carries
    /// that parent energy or none at all.
    pub open spec fn at_level(self, key: int) -> bool {
        self.p_energy is None || self.p_energy->0.key() == key
    }

    /// Whether the record carries the parent energy at `key`.
    pub open spec fn has_parent_key(self, key: int) -> bool {
        self.p_energy is Some && self.p_energy->0.key() == key
    }

    /// Whether the emission was observed.
    pub fn is_observed(&self) -> (out: bool)
        ensures
            out == self.observed(),
    {
        self.energy.is_some() && self.intensity.is_some()
    }
}

/// The property of having been observed.
pub open spec fn observed_records() -> spec_fn(DecayRecord) -> bool {
    |r: DecayRecord| r.observed()
}

/// The property of belonging to the level at `key`.
pub open spec fn records_at(key: int) -> spec_fn(DecayRecord) -> bool {
    |r: DecayRecord| r.at_level(key)
}

/// The property of carrying no parent energy.
pub open spec fn unlabelled_records() -> spec_fn(DecayRecord) -> bool {
    |r: DecayRecord| r.p_energy is None
}

/// The order keys of a list of values.
pub open spec fn keys(levels: Seq<Quantity>) -> Seq<int> {
    Seq::new(levels.len(), |i: int| levels[i].key())
}

/// Whether each entry is smaller than the next.
pub open spec fn strictly_increasing(s: Seq<int>) -> bool {
    forall|i: int, j: int| 0 <= i < j < s.len() ==> s[i] < s[j]
}

/// Whether one of the first `n` records carries the parent energy at `key`.
pub open spec fn key_among(records: Seq<DecayRecord>, n: int, key: int) -> bool {
    exists|j: int| 0 <= j < n && (#[trigger] records[j]).has_parent_key(key)
}

/// Whether `key` is one of the levels.
pub open spec fn level_among(levels: Seq<int>, key: int) -> bool {
    exists|i: int| 0 <= i < levels.len() && #[trigger] levels[i] == key
}

/// Whether `levels` lists the distinct parent energies of the first `n`
/// records, in ascending order.
pub open spec fn lists_levels(levels: Seq<int>, records: Seq<DecayRecord>, n: int) -> bool {
    &&& strictly_increasing(levels)
    &&& forall|i: int| 0 <= i < levels.len() ==> key_among(records, n, #[trigger] levels[i])
    &&& forall|j: int|
        0 <= j < n && (#[trigger] records[j]).p_energy is Some ==> level_among(
            levels,
            records[j].p_energy->0.key(),
        )
}

/// Whether `levels` lists the excitation levels found in `records`: their
/// distinct parent energies in ascending order.
pub open spec fn is_level_list(levels: Seq<int>, records: Seq<DecayRecord>) -> bool {
    lists_levels(levels, records, records.len() as int)
}

/// What the list of levels says about the state that is asked for.
#[derive(Clone, Copy, Debug)]
pub enum LevelChoice {
    /// The records hold nothing for this state.
    Nothing,
    /// No record carries a parent energy, so none can be told apart.
    Unlabelled,
    /// The state is the level at this excitation energy.
    Energy(Quantity),
}

/// The level that is state number `index`, given the levels in ascending
/// order.
///
/// Where the lowest level is at zero, the ground state is listed and state
/// `index` is entry `index`. Where it is not, the provider left the ground
/// state out: the lowest level is then taken for the first excited state,
/// and the ground state has no data.
pub open spec fn choice_of(levels: Seq<Quantity>, index: nat) -> LevelChoice {
    if levels.len() == 0 {
        LevelChoice::Unlabelled
    } else if levels[0].key() == 0 {
        if index >= levels.len() {
            LevelChoice::Nothing
        } else {
            LevelChoice::Energy(levels[index as int])
        }
    } else {
        if index == 0 || index > levels.len() {
            LevelChoice::Nothing
        } else {
            LevelChoice::Energy(levels[index - 1])
        }
    }
}

/// The records that a choice of level keeps.
pub open spec fn chosen(records: Seq<DecayRecord>, choice: LevelChoice) -> Seq<DecayRecord> {
    match choice {
        LevelChoice::Nothing => Seq::empty(),
        LevelChoice::Unlabelled => records.filter(unlabelled_records()),
        LevelChoice::Energy(level) => records.filter(records_at(level.key())),
    }
}

/// The records of state number `index`, where `levels` lists the levels
/// found in `records`.
pub open spec fn resolved(records: Seq<DecayRecord>, levels: Seq<Quantity>, index: nat) -> Seq<
    DecayRecord,
> {
    chosen(records, choice_of(levels, index))
}

/// Two ascending lists with the same entries are the same list.
pub proof fn lemma_increasing_unique(a: Seq<int>, b: Seq<int>)
    requires
        strictly_increasing(a),
        strictly_increasing(b),
        forall|k: int| level_among(a, k) <==> level_among(b, k),
    ensures
        a == b,
    decreases a.len(),
{
    if a.len() == 0 {
        if b.len() > 0 {
            assert(b[0] == b[0]);
            assert(level_among(b, b[0]));
            assert(level_among(a, b[0]));
        }
        assert(a =~= b);
    } else {
        let x = a.last();
        assert(a[a.len() - 1] == x);
        assert(level_among(a, x));
        assert(level_among(b, x));
        let y = b.last();
        assert(b[b.len() - 1] == y);
        assert(level_among(b, y));
        assert(level_among(a, y));
        let bi = choose|i: int| 0 <= i < b.len() && b[i] == x;
        let ai = choose|i: int| 0 <= i < a.len() && a[i] == y;
        assert(x <= y) by {
            if bi < b.len() - 1 {
                assert(b[bi] < b[b.len() - 1]);
            }
        }
        assert(y <= x) by {
            if ai < a.len() - 1 {
                assert(a[ai] < a[a.len() - 1]);
            }
        }
        let a0 = a.drop_last();
        let b0 = b.drop_last();
        assert forall|k: int| level_among(a0, k) <==> level_among(b0, k) by {
            if level_among(a0, k) {
                let i = choose|i: int| 0 <= i < a0.len() && a0[i] == k;
                assert(a[i] == k);
                assert(a[i] < a[a.len() - 1]);
                assert(level_among(a, k));
                let j = choose|j: int| 0 <= j < b.len() && b[j] == k;
                assert(j < b.len() - 1);
                assert(b0[j] == k);
            }
            if level_among(b0, k) {
                let i = choose|i: int| 0 <= i < b0.len() && b0[i] == k;
                assert(b[i] == k);
                assert(b[i] < b[b.len() - 1]);
                assert(level_among(b, k));
                let j = choose|j: int| 0 <= j < a.len() && a[j] == k;
                assert(j < a.len() - 1);
                assert(a0[j] == k);
            }
        }
        assert(strictly_increasing(a0)) by {
            assert forall|i: int, j: int| 0 <= i < j < a0.len() implies a0[i] < a0[j] by {
                assert(a[i] < a[j]);
            }
        }
        assert(strictly_increasing(b0)) by {
            assert forall|i: int, j: int| 0 <= i < j < b0.len() implies b0[i] < b0[j] by {
                assert(b[i] < b[j]);
            }
        }
        lemma_increasing_unique(a0, b0);
        assert(a =~= a0.push(x));
        assert(b =~= b0.push(y));
    }
}

/// The records decide their levels: two lists of the levels found in the
/// same records are the same list.
pub proof fn lemma_levels_unique(a: Seq<int>, b: Seq<int>, records: Seq<DecayRecord>)
    requires
        is_level_list(a, records),
        is_level_list(b, records),
    ensures
        a == b,
{
    let n = records.len() as int;
    assert forall|k: int| level_among(a, k) <==> level_among(b, k) by {
        if level_among(a, k) {
            let i = choose|i: int| 0 <= i < a.len() && a[i] == k;
            assert(key_among(records, n, a[i]));
            let j = choose|j: int| 0 <= j < n && (#[trigger] records[j]).has_parent_key(k);
            assert(level_among(b, records[j].p_energy->0.key()));
        }
        if level_among(b, k) {
            let i = choose|i: int| 0 <= i < b.len() && b[i] == k;
            assert(key_among(records, n, b[i]));
            let j = choose|j: int| 0 <= j < n && (#[trigger] records[j]).has_parent_key(k);
            assert(level_among(a, records[j].p_energy->0.key()));
        }
    }
    lemma_increasing_unique(a, b);
}

/// The records decide what is resolved: whichever list of their levels is
/// used, the same records are kept for a state.
pub proof fn lemma_resolved_unique(
    records: Seq<DecayRecord>,
    first: Seq<Quantity>,
    second: Seq<Quantity>,
    index: nat,
)
    requires
        is_level_list(keys(first), records),
        is_level_list(keys(second), records),
    ensures
        resolved(records, first, index) == resolved(records, second, index),
{
    lemma_levels_unique(keys(first), keys(second), records);
    assert(first.len() == keys(first).len());
    assert(second.len() == keys(second).len());
    if first.len() > 0 {
        assert(keys(first)[0] == first[0].key());
        assert(keys(second)[0] == second[0].key());
        if first[0].key() == 0 {
            if index < first.len() {
                assert(keys(first)[index as int] == first[index as int].key());
                assert(keys(second)[index as int] == second[index as int].key());
            }
        } else {
            if 0 < index <= first.len() {
                assert(keys(first)[index - 1] == first[index - 1].key());
                assert(keys(second)[index - 1] == second[index - 1].key());
            }
        }
    }
}

/// The excitation levels found in `records`: their distinct parent
/// energies, in ascending order.
pub fn excitation_levels(records: &Vec<DecayRecord>) -> (levels: Vec<Quantity>)
    ensures
        is_level_list(keys(levels@), records@),
{
    let mut levels: Vec<Quantity> = Vec::new();
    let mut i: usize = 0;
    while i < records.len()
        invariant
            i <= records.len(),
            lists_levels(keys(levels@), records@, i as int),
        decreases records.len() - i,
    {
        let ghost before = levels@;
        match records[i].p_energy {
            None => {
                proof {
                    assert forall|a: int| 0 <= a < keys(before).len() implies key_among(
                        records@,
                        i + 1,
                        #[trigger] keys(before)[a],
                    ) by {
                        assert(key_among(records@, i as int, keys(before)[a]));
                    }
                }
            },
            Some(q) => {
                let mut p: usize = 0;
                while p < levels.len() && q.exceeds(&levels[p])
                    invariant
                        p <= levels.len(),
                        forall|x: int| 0 <= x < p ==> levels[x].key() < q.key(),
                    decreases levels.len() - p,
                {
                    p += 1;
                }
                let fresh = p == levels.len() || !q.same(&levels[p]);
                if fresh {
                    levels.insert(p, q);
                }
                proof {
                    let after = levels@;
                    let old_keys = keys(before);
                    let new_keys = keys(after);
                    assert(strictly_increasing(old_keys));
                    if fresh {
                        assert forall|x: int| p <= x < before.len() implies before[x].key()
                            > q.key() by {
                            assert(old_keys[p as int] <= old_keys[x]);
                            assert(old_keys[x] == before[x].key());
                            assert(old_keys[p as int] == before[p as int].key());
                        }
                        assert forall|a: int, b: int| 0 <= a < b < new_keys.len() implies new_keys[a]
                            < new_keys[b] by {
                            let a0 = if a < p {
                                a
                            } else {
                                a - 1
                            };
                            let b0 = if b < p {
                                b
                            } else {
                                b - 1
                            };
                            if a != p {
                                assert(after[a] == before[a0]);
                                assert(old_keys[a0] == before[a0].key());
                            }
                            if b != p {
                                assert(after[b] == before[b0]);
                                assert(old_keys[b0] == before[b0].key());
                            }
                            if a != p && b != p {
                                assert(old_keys[a0] < old_keys[b0]);
                            }
                        }
                        assert forall|a: int| 0 <= a < new_keys.len() implies key_among(
                            records@,
                            i + 1,
                            #[trigger] new_keys[a],
                        ) by {
                            if a == p {
                                assert(records@[i as int].has_parent_key(new_keys[a]));
                            } else {
                                let a0 = if a < p {
                                    a
                                } else {
                                    a - 1
                                };
                                assert(after[a] == before[a0]);
                                assert(new_keys[a] == old_keys[a0]);
                                assert(key_among(records@, i as int, old_keys[a0]));
                            }
                        }
                        assert forall|j: int|
                            0 <= j < i + 1 && (#[trigger] records@[j]).p_energy is Some implies level_among(
                            new_keys,
                            records@[j].p_energy->0.key(),
                        ) by {
                            if j == i {
                                assert(new_keys[p as int] == q.key());
                            } else {
                                let k = records@[j].p_energy->0.key();
                                assert(level_among(old_keys, k));
                                let x = choose|x: int| 0 <= x < old_keys.len() && old_keys[x] == k;
                                let x1 = if x < p {
                                    x
                                } else {
                                    x + 1
                                };
                                assert(after[x1] == before[x]);
                                assert(new_keys[x1] == k);
                            }
                        }
                    } else {
                        assert(new_keys =~= old_keys);
                        assert forall|a: int| 0 <= a < new_keys.len() implies key_among(
                            records@,
                            i + 1,
                            #[trigger] new_keys[a],
                        ) by {
                            assert(key_among(records@, i as int, old_keys[a]));
                        }
                        assert forall|j: int|
                            0 <= j < i + 1 && (#[trigger] records@[j]).p_energy is Some implies level_among(
                            new_keys,
                            records@[j].p_energy->0.key(),
                        ) by {
                            if j == i {
                                assert(new_keys[p as int] == q.key());
                            }
                        }
                    }
                }
            },
        }
        i += 1;
    }
    levels
}

/// The level that is state number `index`, given the levels in ascending
/// order.
pub fn target_level(levels: &Vec<Quantity>, index: usize) -> (out: LevelChoice)
    ensures
        out == choice_of(levels@, index as nat),
{
    let m = levels.len();
    if m == 0 {
        LevelChoice::Unlabelled
    } else if levels[0].is_zero() {
        if index >= m {
            LevelChoice::Nothing
        } else {
            LevelChoice::Energy(levels[index])
        }
    } else {
        if index == 0 || index > m {
            LevelChoice::Nothing
        } else {
            LevelChoice::Energy(levels[index - 1])
        }
    }
}

/// Keeps the records that a choice of level asks for, in their order.
pub fn select_level(records: Vec<DecayRecord>, choice: LevelChoice) -> (out: Vec<DecayRecord>)
    ensures
        out@ == chosen(records@, choice),
{
    match choice {
        LevelChoice::Nothing => Vec::new(),
        LevelChoice::Unlabelled => {
            let mut keep: Vec<bool> = Vec::new();
            let mut i: usize = 0;
            while i < records.len()
                invariant
                    i <= records.len(),
                    keep.len() == i,
                    forall|k: int| 0 <= k < i ==> keep[k] == (#[trigger] records[k]).p_energy is None,
                decreases records.len() - i,
            {
                keep.push(records[i].p_energy.is_none());
                i += 1;
            }
            proof {
                lemma_marked_filter(records@, keep@, unlabelled_records());
            }
            keep_marked(records, &keep)
        },
        LevelChoice::Energy(level) => {
            let mut keep: Vec<bool> = Vec::new();
            let mut i: usize = 0;
            while i < records.len()
                invariant
                    i <= records.len(),
                    keep.len() == i,
                    forall|k: int| 0 <= k < i ==> keep[k] == (#[trigger] records[k]).at_level(level.key()),
                decreases records.len() - i,
            {
                let wanted = match records[i].p_energy {
                    None => true,
                    Some(q) => q.same(&level),
                };
                keep.push(wanted);
                i += 1;
            }
            proof {
                lemma_marked_filter(records@, keep@, records_at(level.key()));
            }
            keep_marked(records, &keep)
        },
    }
}

/// Drops the records whose emission was not observed.
pub fn observed_only(records: Vec<DecayRecord>) -> (out: Vec<DecayRecord>)
    ensures
        out@ == records@.filter(observed_records()),
{
    let mut keep: Vec<bool> = Vec::new();
    let mut i: usize = 0;
    while i < records.len()
        invariant
            i <= records.len(),
            keep.len() == i,
            forall|k: int| 0 <= k < i ==> keep[k] == (#[trigger] records[k]).observed(),
        decreases records.len() - i,
    {
        keep.push(records[i].is_observed());
        i += 1;
    }
    proof {
        lemma_marked_filter(records@, keep@, observed_records());
    }
    keep_marked(records, &keep)
}

} // verus!

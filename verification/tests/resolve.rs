use fisdef::nuclide::{IsomerState, NuclideIdentity};
use fisdef::quantity::Quantity;
use fisdef::record::{
    excitation_levels, observed_only, select_level, target_level, DecayRecord, LevelChoice,
};
use fisdef::source::Source;

fn q(x: f32) -> Quantity {
    Quantity::from_bits(x.to_bits()).unwrap()
}

fn val(q: Quantity) -> f32 {
    f32::from_bits(q.to_bits())
}

fn vals(list: &[Quantity]) -> Vec<f32> {
    list.iter().map(|x| val(*x)).collect()
}

fn record(p_energy: Option<f32>, energy: Option<f32>, intensity: Option<f32>) -> DecayRecord {
    DecayRecord {
        parent: String::from("Co60"),
        p_energy: p_energy.map(q),
        daughter: String::from("Ni60"),
        decay_mode: String::from("B-"),
        branching: Some(q(100.0)),
        energy: energy.map(q),
        intensity: intensity.map(q),
        half_life: Some(q(1.6e8)),
    }
}

fn at(p_energy: Option<f32>, tag: f32) -> DecayRecord {
    record(p_energy, Some(tag), Some(1.0))
}

fn tags(records: &[DecayRecord]) -> Vec<f32> {
    records.iter().map(|r| val(r.energy.unwrap())).collect()
}

fn source(state: IsomerState) -> Source {
    Source {
        fispact_name: String::from("Co60"),
        fispact_activity: 1.0e10f64.to_bits(),
        iaea_nuclide: NuclideIdentity { element: String::from("Co"), mass_number: 60, state },
        iaea_records: Vec::new(),
    }
}

fn choice_energy(choice: LevelChoice) -> Option<f32> {
    match choice {
        LevelChoice::Energy(level) => Some(val(level)),
        _ => None,
    }
}

#[test]
fn isomer_state_index() {
    assert_eq!(IsomerState::Ground.index(), 0);
    assert_eq!(IsomerState::Excited(1).index(), 1);
    assert_eq!(IsomerState::Excited(255).index(), 255);
}

#[test]
fn nuclide_equality_is_element_mass_and_state() {
    let a = NuclideIdentity { element: String::from("Co"), mass_number: 60, state: IsomerState::Ground };
    let b = NuclideIdentity { element: String::from("Co"), mass_number: 60, state: IsomerState::Ground };
    let c = NuclideIdentity { element: String::from("Co"), mass_number: 60, state: IsomerState::Excited(1) };
    let d = NuclideIdentity { element: String::from("Co"), mass_number: 59, state: IsomerState::Ground };
    let e = NuclideIdentity { element: String::from("Ni"), mass_number: 60, state: IsomerState::Ground };
    assert!(a == b);
    assert!(a != c);
    assert!(a != d);
    assert!(a != e);
}

#[test]
fn levels_are_distinct_and_ascending() {
    let records = vec![
        at(Some(120.5), 1.0),
        at(Some(0.0), 2.0),
        at(None, 3.0),
        at(Some(120.5), 4.0),
        at(Some(58.6), 5.0),
        at(Some(0.0), 6.0),
    ];
    assert_eq!(vals(&excitation_levels(&records)), vec![0.0, 58.6, 120.5]);
}

#[test]
fn levels_of_nothing() {
    assert!(excitation_levels(&vec![]).is_empty());
    assert!(excitation_levels(&vec![at(None, 1.0), at(None, 2.0)]).is_empty());
}

#[test]
fn levels_count_the_two_zeros_once() {
    let records = vec![at(Some(-0.0), 1.0), at(Some(0.0), 2.0), at(Some(5.0), 3.0)];
    let levels = excitation_levels(&records);
    assert_eq!(levels.len(), 2);
    assert!(levels[0].is_zero());
    assert_eq!(val(levels[1]), 5.0);
}

#[test]
fn ground_state_listed_second_level_is_first_excited() {
    let levels = vec![q(0.0), q(120.5)];
    assert_eq!(choice_energy(target_level(&levels, 1)), Some(120.5));
}

#[test]
fn ground_state_listed_ground_is_zero() {
    let levels = vec![q(0.0), q(120.5)];
    assert_eq!(choice_energy(target_level(&levels, 0)), Some(0.0));
}

#[test]
fn ground_state_listed_no_third_level() {
    let levels = vec![q(0.0), q(120.5)];
    assert!(matches!(target_level(&levels, 2), LevelChoice::Nothing));
    assert!(matches!(target_level(&levels, 200), LevelChoice::Nothing));
}

#[test]
fn ground_state_missing_ground_has_no_data() {
    let levels = vec![q(45.0)];
    assert!(matches!(target_level(&levels, 0), LevelChoice::Nothing));
}

#[test]
fn ground_state_missing_lowest_level_is_first_excited() {
    let levels = vec![q(45.0)];
    assert_eq!(choice_energy(target_level(&levels, 1)), Some(45.0));
}

#[test]
fn ground_state_missing_second_excited() {
    let one = vec![q(45.0)];
    assert!(matches!(target_level(&one, 2), LevelChoice::Nothing));
    let two = vec![q(45.0), q(80.0)];
    assert_eq!(choice_energy(target_level(&two, 2)), Some(80.0));
    assert!(matches!(target_level(&two, 3), LevelChoice::Nothing));
}

#[test]
fn negative_zero_lists_the_ground_state() {
    let levels = vec![q(-0.0), q(10.0)];
    assert_eq!(choice_energy(target_level(&levels, 1)), Some(10.0));
}

#[test]
fn no_levels_means_unlabelled() {
    assert!(matches!(target_level(&vec![], 0), LevelChoice::Unlabelled));
    assert!(matches!(target_level(&vec![], 3), LevelChoice::Unlabelled));
}

#[test]
fn select_keeps_the_level_and_the_unlabelled() {
    let records = vec![
        at(Some(0.0), 1.0),
        at(Some(120.5), 2.0),
        at(None, 3.0),
        at(Some(120.5), 4.0),
        at(Some(0.0), 5.0),
    ];
    let kept = select_level(records.clone(), LevelChoice::Energy(q(120.5)));
    assert_eq!(tags(&kept), vec![2.0, 3.0, 4.0]);
    let ground = select_level(records.clone(), LevelChoice::Energy(q(0.0)));
    assert_eq!(tags(&ground), vec![1.0, 3.0, 5.0]);
    let none = select_level(records.clone(), LevelChoice::Nothing);
    assert!(none.is_empty());
    let unlabelled = select_level(records, LevelChoice::Unlabelled);
    assert_eq!(tags(&unlabelled), vec![3.0]);
}

#[test]
fn find_records_ground_state() {
    let mut s = source(IsomerState::Ground);
    s.find_records(Some(vec![
        at(Some(0.0), 1.0),
        at(Some(58.6), 2.0),
        at(Some(0.0), 3.0),
    ]));
    assert_eq!(tags(&s.iaea_records), vec![1.0, 3.0]);
}

#[test]
fn find_records_first_excited_state() {
    let mut s = source(IsomerState::Excited(1));
    s.find_records(Some(vec![
        at(Some(0.0), 1.0),
        at(Some(58.6), 2.0),
        at(None, 3.0),
        at(Some(0.0), 4.0),
    ]));
    assert_eq!(tags(&s.iaea_records), vec![2.0, 3.0]);
}

#[test]
fn find_records_excited_state_beyond_the_levels() {
    let mut s = source(IsomerState::Excited(2));
    s.find_records(Some(vec![at(Some(0.0), 1.0), at(Some(58.6), 2.0), at(None, 3.0)]));
    assert!(s.iaea_records.is_empty());
}

#[test]
fn find_records_without_ground_state_group() {
    let found = vec![at(Some(45.0), 1.0), at(None, 2.0), at(Some(80.0), 3.0)];
    let mut ground = source(IsomerState::Ground);
    ground.find_records(Some(found.clone()));
    assert!(ground.iaea_records.is_empty());
    let mut first = source(IsomerState::Excited(1));
    first.find_records(Some(found.clone()));
    assert_eq!(tags(&first.iaea_records), vec![1.0, 2.0]);
    let mut second = source(IsomerState::Excited(2));
    second.find_records(Some(found.clone()));
    assert_eq!(tags(&second.iaea_records), vec![2.0, 3.0]);
    let mut third = source(IsomerState::Excited(3));
    third.find_records(Some(found));
    assert!(third.iaea_records.is_empty());
}

#[test]
fn find_records_with_no_parent_energy_at_all() {
    let mut s = source(IsomerState::Excited(1));
    s.find_records(Some(vec![at(None, 1.0), at(None, 2.0)]));
    assert_eq!(tags(&s.iaea_records), vec![1.0, 2.0]);
}

#[test]
fn find_records_provider_has_nothing() {
    let mut s = source(IsomerState::Ground);
    s.find_records(None);
    assert!(s.iaea_records.is_empty());
    s.find_records(Some(vec![]));
    assert!(s.iaea_records.is_empty());
}

#[test]
fn find_records_leaves_the_rest_alone() {
    let mut s = source(IsomerState::Ground);
    s.find_records(Some(vec![at(Some(0.0), 1.0)]));
    assert_eq!(s.fispact_name, "Co60");
    assert_eq!(s.fispact_activity, 1.0e10f64.to_bits());
    assert_eq!(s.iaea_nuclide.mass_number, 60);
}

#[test]
fn observed_only_needs_energy_and_intensity() {
    let records = vec![
        record(Some(0.0), Some(1.0), Some(10.0)),
        record(Some(0.0), Some(2.0), None),
        record(Some(0.0), None, Some(30.0)),
        record(Some(0.0), None, None),
        record(None, Some(5.0), Some(50.0)),
    ];
    assert!(records[0].is_observed());
    assert!(!records[1].is_observed());
    assert!(!records[2].is_observed());
    assert!(!records[3].is_observed());
    assert_eq!(tags(&observed_only(records)), vec![1.0, 5.0]);
}

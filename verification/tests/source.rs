use fisdef::cli::SortProperty;
use fisdef::nuclide::{IsomerState, NuclideIdentity};
use fisdef::quantity::Quantity;
use fisdef::record::DecayRecord;
use fisdef::source::Source;

fn q(x: f32) -> Quantity {
    Quantity::from_bits(x.to_bits()).unwrap()
}

fn val(q: Quantity) -> f32 {
    f32::from_bits(q.to_bits())
}

fn record(energy: Option<f32>, intensity: Option<f32>, tag: &str) -> DecayRecord {
    DecayRecord {
        parent: String::from("Co60"),
        p_energy: Some(q(0.0)),
        daughter: String::from(tag),
        decay_mode: String::from("B-"),
        branching: None,
        energy: energy.map(q),
        intensity: intensity.map(q),
        half_life: None,
    }
}

fn source(name: &str, activity: f64, records: Vec<DecayRecord>) -> Source {
    Source {
        fispact_name: String::from(name),
        fispact_activity: activity.to_bits(),
        iaea_nuclide: NuclideIdentity {
            element: String::from("Co"),
            mass_number: 60,
            state: IsomerState::Ground,
        },
        iaea_records: records,
    }
}

fn tags(s: &Source) -> Vec<String> {
    s.iaea_records.iter().map(|r| r.daughter.clone()).collect()
}

fn energies(s: &Source) -> Vec<f32> {
    s.iaea_records.iter().map(|r| val(r.energy.unwrap())).collect()
}

fn intensities(s: &Source) -> Vec<f32> {
    s.iaea_records.iter().map(|r| val(r.intensity.unwrap())).collect()
}

#[test]
fn equality_is_name_and_nuclide_only() {
    let a = source("Co60", 1.0, vec![]);
    let b = source("Co60", 2.0, vec![record(Some(1.0), Some(1.0), "x")]);
    let c = source("Co60m", 1.0, vec![]);
    let mut d = source("Co60", 1.0, vec![]);
    d.iaea_nuclide.state = IsomerState::Excited(1);
    assert!(a == b);
    assert!(a != c);
    assert!(a != d);
}

#[test]
fn unobserved_records_are_removed() {
    let mut s = source(
        "Co60",
        1.0,
        vec![
            record(Some(1.0), Some(1.0), "a"),
            record(Some(2.0), None, "b"),
            record(None, Some(3.0), "c"),
            record(None, None, "d"),
            record(Some(5.0), Some(5.0), "e"),
        ],
    );
    s.remove_unobserved_records();
    assert_eq!(tags(&s), vec!["a", "e"]);
}

#[test]
fn defined_energy_without_intensity_is_removed_whatever_the_sort() {
    for property in [SortProperty::Energy, SortProperty::Intensity] {
        let mut s = source(
            "Co60",
            1.0,
            vec![record(Some(10.0), None, "gone"), record(Some(5.0), Some(1.0), "kept")],
        );
        s.remove_unobserved_records();
        s.sort_records(&property);
        assert_eq!(tags(&s), vec!["kept"]);
    }
}

#[test]
fn removing_from_nothing_leaves_nothing() {
    let mut s = source("Co60", 1.0, vec![]);
    s.remove_unobserved_records();
    assert!(s.iaea_records.is_empty());
}

#[test]
fn sort_by_energy_is_ascending() {
    let mut s = source(
        "Co60",
        1.0,
        vec![
            record(Some(1332.5), Some(99.98), "b"),
            record(Some(1173.2), Some(99.85), "a"),
            record(Some(0.5), Some(1.0), "c"),
            record(Some(2505.7), Some(2.0e-6), "d"),
        ],
    );
    s.sort_records(&SortProperty::Energy);
    assert_eq!(energies(&s), vec![0.5, 1173.2, 1332.5, 2505.7]);
    for pair in s.iaea_records.windows(2) {
        assert!(val(pair[0].energy.unwrap()) <= val(pair[1].energy.unwrap()));
    }
}

#[test]
fn sort_by_intensity_is_descending() {
    let mut s = source(
        "Co60",
        1.0,
        vec![
            record(Some(1.0), Some(2.0e-6), "d"),
            record(Some(2.0), Some(99.85), "b"),
            record(Some(3.0), Some(1.0), "c"),
            record(Some(4.0), Some(99.98), "a"),
        ],
    );
    s.sort_records(&SortProperty::Intensity);
    assert_eq!(intensities(&s), vec![99.98, 99.85, 1.0, 2.0e-6]);
    for pair in s.iaea_records.windows(2) {
        assert!(val(pair[0].intensity.unwrap()) >= val(pair[1].intensity.unwrap()));
    }
}

#[test]
fn sort_keeps_ties_in_provider_order() {
    let mut s = source(
        "Co60",
        1.0,
        vec![
            record(Some(5.0), Some(1.0), "first"),
            record(Some(1.0), Some(1.0), "second"),
            record(Some(5.0), Some(1.0), "third"),
            record(Some(1.0), Some(1.0), "fourth"),
        ],
    );
    s.sort_records(&SortProperty::Energy);
    assert_eq!(tags(&s), vec!["second", "fourth", "first", "third"]);
    s.sort_records(&SortProperty::Intensity);
    assert_eq!(tags(&s), vec!["second", "fourth", "first", "third"]);
}

#[test]
fn sort_handles_negative_values_and_zeros() {
    let mut s = source(
        "Co60",
        1.0,
        vec![
            record(Some(0.0), Some(1.0), "zero"),
            record(Some(-2.0), Some(1.0), "minus two"),
            record(Some(-0.0), Some(1.0), "minus zero"),
            record(Some(3.0), Some(1.0), "three"),
            record(Some(-1.0), Some(1.0), "minus one"),
        ],
    );
    s.sort_records(&SortProperty::Energy);
    assert_eq!(tags(&s), vec!["minus two", "minus one", "zero", "minus zero", "three"]);
}

#[test]
fn sort_agrees_with_std_stable_sort() {
    let values: Vec<f32> = vec![5.5, 0.1, 99.0, 5.5, 1.0e-9, 3.0e7, 0.1, 42.0, 7.25, 5.5];
    let records: Vec<DecayRecord> = values
        .iter()
        .enumerate()
        .map(|(i, v)| record(Some(*v), Some(*v), &format!("{i}")))
        .collect();
    let mut by_energy = records.clone();
    by_energy.sort_by(|a, b| val(a.energy.unwrap()).partial_cmp(&val(b.energy.unwrap())).unwrap());
    let mut by_intensity = records.clone();
    by_intensity
        .sort_by(|a, b| val(b.intensity.unwrap()).partial_cmp(&val(a.intensity.unwrap())).unwrap());
    let mut s = source("Co60", 1.0, records.clone());
    s.sort_records(&SortProperty::Energy);
    let expected: Vec<String> = by_energy.iter().map(|r| r.daughter.clone()).collect();
    assert_eq!(tags(&s), expected);
    let mut t = source("Co60", 1.0, records);
    t.sort_records(&SortProperty::Intensity);
    let expected: Vec<String> = by_intensity.iter().map(|r| r.daughter.clone()).collect();
    assert_eq!(tags(&t), expected);
}

#[test]
fn sort_leaves_the_rest_alone() {
    let mut s = source("Co60", 4.5, vec![record(Some(1.0), Some(1.0), "a")]);
    s.sort_records(&SortProperty::Energy);
    assert_eq!(s.fispact_name, "Co60");
    assert_eq!(s.fispact_activity, 4.5f64.to_bits());
    assert_eq!(s.iaea_records.len(), 1);
}

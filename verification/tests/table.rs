use fisdef::nuclide::{IsomerState, NuclideIdentity};
use fisdef::quantity::Quantity;
use fisdef::record::DecayRecord;
use fisdef::source::Source;
use fisdef::table::{
    branching_style, content, filed_under, format_branching, incomplete, format_energy, format_intensity,
    format_nuclide_header, format_record, half_life_form, header, human_readable_halflife,
    nuclide_rows, record_form, texts_fit, value_notation, BranchingStyle, HalfLifeForm, Notation,
    RecordForm, RecordText, Table, TimeUnit,
};

fn q(x: f32) -> Quantity {
    Quantity::from_bits(x.to_bits()).unwrap()
}

fn val(q: Quantity) -> f32 {
    f32::from_bits(q.to_bits())
}

fn write_number(value: f32, notation: Notation) -> String {
    match notation {
        Notation::Fixed(0) => format!("{:.0}", value),
        Notation::Fixed(1) => format!("{:.1}", value),
        Notation::Fixed(2) => format!("{:.2}", value),
        Notation::Fixed(3) => format!("{:.3}", value),
        Notation::Scientific(2) => format!("{:.2e}", value),
        Notation::Shortest => format!("{}", value),
        _ => format!("{:.2e}", value),
    }
}

fn write_out(record: &DecayRecord) -> RecordText {
    let form = record_form(record);
    let value = |x: Option<Quantity>, notation: Option<Notation>| match (x, notation) {
        (Some(v), Some(n)) => write_number(val(v), n),
        _ => String::new(),
    };
    RecordText {
        p_energy: write_number(val(filed_under(record)), form.p_energy),
        half_life: match (record.half_life, form.half_life) {
            (Some(s), Some(f)) => write_number(val(s) / f32::from_bits(f.unit.seconds()), f.notation),
            _ => String::new(),
        },
        branching: value(record.branching, form.branching),
        energy: value(record.energy, form.energy),
        intensity: value(record.intensity, form.intensity),
    }
}

fn record(
    p_energy: Option<f32>,
    mode: &str,
    branching: Option<f32>,
    energy: Option<f32>,
    intensity: Option<f32>,
    half_life: Option<f32>,
) -> DecayRecord {
    DecayRecord {
        parent: String::from("Co60"),
        p_energy: p_energy.map(q),
        daughter: String::from("Ni60"),
        decay_mode: String::from(mode),
        branching: branching.map(q),
        energy: energy.map(q),
        intensity: intensity.map(q),
        half_life: half_life.map(q),
    }
}

fn source(name: &str, records: Vec<DecayRecord>) -> Source {
    Source {
        fispact_name: String::from(name),
        fispact_activity: 1.0e10f64.to_bits(),
        iaea_nuclide: NuclideIdentity {
            element: String::from("Co"),
            mass_number: 60,
            state: IsomerState::Ground,
        },
        iaea_records: records,
    }
}

fn texts_of(s: &Source) -> Vec<RecordText> {
    s.iaea_records.iter().map(write_out).collect()
}

fn line(r: &DecayRecord, branching: &str, energy: &str, intensity: &str) -> String {
    format!(
        "  {:<5} > {:^5} > {:<5} {:<6}     {:<7}     {:<7}\n",
        r.parent, r.decay_mode, r.daughter, branching, energy, intensity
    )
}

fn minus_one() -> Quantity {
    q(-1.0)
}

#[test]
fn header_is_rule_titles_rule() {
    let mut expected = String::new();
    expected.push_str(&format!("{:-<58}\n", ""));
    expected.push_str(&format!(
        "  {:^5}   {:^5}  {:^5}   BR    Energy [keV]  Intensity [%]\n",
        "P", "Mode", "D"
    ));
    expected.push_str(&format!("{:-<58}\n", ""));
    assert_eq!(header(), expected);
    let first = header().lines().next().unwrap().to_string();
    assert_eq!(first.len(), 58);
    assert!(first.chars().all(|c| c == '-'));
    assert_eq!(
        header().lines().nth(1).unwrap(),
        "    P     Mode     D     BR    Energy [keV]  Intensity [%]"
    );
}

#[test]
fn branching_tiers() {
    assert_eq!(branching_style(Some(q(100.0))), BranchingStyle::Blank);
    assert_eq!(branching_style(Some(q(250.0))), BranchingStyle::Blank);
    assert_eq!(branching_style(Some(q(99.99))), BranchingStyle::Percent);
    assert_eq!(branching_style(Some(q(1.0))), BranchingStyle::Percent);
    assert_eq!(branching_style(Some(q(0.999))), BranchingStyle::Trace);
    assert_eq!(branching_style(Some(q(0.0))), BranchingStyle::Trace);
    assert_eq!(branching_style(Some(q(-5.0))), BranchingStyle::Trace);
    assert_eq!(branching_style(None), BranchingStyle::Unknown);
}

#[test]
fn branching_column() {
    assert_eq!(format_branching(Some(q(100.0)), "100"), "");
    assert_eq!(format_branching(Some(q(88.0)), "88"), "(88%)");
    assert_eq!(format_branching(Some(q(1.0)), "1"), "(1%)");
    assert_eq!(format_branching(Some(q(0.12)), "0"), "(< 1%)");
    assert_eq!(format_branching(None, ""), "None");
}

#[test]
fn branching_column_as_formatted() {
    for value in [150.0f32, 100.0, 99.5, 88.0, 12.34, 1.0, 0.99, 0.0] {
        let expected = if value >= 100.0 {
            String::new()
        } else if value >= 1.0 {
            format!("({:.0}%)", value)
        } else {
            String::from("(< 1%)")
        };
        assert_eq!(format_branching(Some(q(value)), &format!("{:.0}", value)), expected);
    }
}

#[test]
fn value_tiers() {
    assert_eq!(value_notation(q(1173.2)), Notation::Fixed(2));
    assert_eq!(value_notation(q(10.0)), Notation::Fixed(2));
    assert_eq!(value_notation(q(9.999)), Notation::Fixed(3));
    assert_eq!(value_notation(q(0.001)), Notation::Fixed(3));
    assert_eq!(value_notation(q(0.000999)), Notation::Scientific(2));
    assert_eq!(value_notation(q(2.0e-6)), Notation::Scientific(2));
    assert_eq!(value_notation(q(0.0)), Notation::Scientific(2));
    assert_eq!(value_notation(q(-3.0)), Notation::Scientific(2));
    assert_eq!(value_notation(q(100.0)), Notation::Fixed(2));
    assert_eq!(value_notation(q(f32::INFINITY)), Notation::Fixed(2));
}

#[test]
fn energy_and_intensity_columns() {
    assert_eq!(format_energy(Some(q(1173.2)), "1173.20"), "1173.20");
    assert_eq!(format_energy(Some(q(0.5)), "0.500"), "0.500");
    assert_eq!(format_energy(None, "ignored"), "  -");
    assert_eq!(format_intensity(Some(q(99.85)), "99.85"), "99.85");
    assert_eq!(format_intensity(Some(q(2.0e-6)), "2.00e-6"), "2.00e-6");
    assert_eq!(format_intensity(None, "ignored"), "  -");
}

#[test]
fn energy_column_as_formatted() {
    for value in [1332.5f32, 10.0, 9.5, 0.001, 0.0005, 2.0e-6] {
        let expected = if value >= 10.0 {
            format!("{:.2}", value)
        } else if value >= 0.001 {
            format!("{:.3}", value)
        } else {
            format!("{:.2e}", value)
        };
        let text = write_number(value, value_notation(q(value)));
        assert_eq!(format_energy(Some(q(value)), &text), expected);
    }
}

#[test]
fn half_life_units() {
    let year: f32 = 365.0 * 24.0 * 3600.0;
    let form = |unit, notation| HalfLifeForm { unit, notation };
    assert_eq!(half_life_form(q(100.0 * year)), form(TimeUnit::Years, Notation::Padded(2, 2)));
    assert_eq!(half_life_form(q(4.0e17)), form(TimeUnit::Years, Notation::Padded(2, 2)));
    assert_eq!(half_life_form(q(99.0 * year)), form(TimeUnit::Years, Notation::Fixed(2)));
    assert_eq!(half_life_form(q(year)), form(TimeUnit::Years, Notation::Fixed(2)));
    assert_eq!(half_life_form(q(year - 1000.0)), form(TimeUnit::Days, Notation::Fixed(2)));
    assert_eq!(half_life_form(q(86400.0)), form(TimeUnit::Days, Notation::Fixed(2)));
    assert_eq!(half_life_form(q(86399.0)), form(TimeUnit::Hours, Notation::Fixed(2)));
    assert_eq!(half_life_form(q(3600.0)), form(TimeUnit::Hours, Notation::Fixed(2)));
    assert_eq!(half_life_form(q(3599.0)), form(TimeUnit::Minutes, Notation::Fixed(2)));
    assert_eq!(half_life_form(q(60.0)), form(TimeUnit::Minutes, Notation::Fixed(2)));
    assert_eq!(half_life_form(q(59.9)), form(TimeUnit::Seconds, Notation::Fixed(2)));
    assert_eq!(half_life_form(q(1.0)), form(TimeUnit::Seconds, Notation::Fixed(2)));
    assert_eq!(half_life_form(q(0.99)), form(TimeUnit::Milliseconds, Notation::Fixed(2)));
    assert_eq!(half_life_form(q(1.0e-3)), form(TimeUnit::Milliseconds, Notation::Fixed(2)));
    assert_eq!(half_life_form(q(9.9e-4)), form(TimeUnit::Microseconds, Notation::Fixed(2)));
    assert_eq!(half_life_form(q(1.0e-6)), form(TimeUnit::Microseconds, Notation::Fixed(2)));
    assert_eq!(half_life_form(q(9.9e-7)), form(TimeUnit::Nanoseconds, Notation::Fixed(2)));
    assert_eq!(half_life_form(q(1.0e-12)), form(TimeUnit::Nanoseconds, Notation::Fixed(2)));
    assert_eq!(half_life_form(q(0.0)), form(TimeUnit::Nanoseconds, Notation::Fixed(2)));
}

#[test]
fn time_units() {
    let units = [
        (TimeUnit::Years, "years", 365.0f32 * 86400.0),
        (TimeUnit::Days, "days", 86400.0),
        (TimeUnit::Hours, "hours", 3600.0),
        (TimeUnit::Minutes, "minutes", 60.0),
        (TimeUnit::Seconds, "s", 1.0),
        (TimeUnit::Milliseconds, "ms", 1e-3),
        (TimeUnit::Microseconds, "us", 1e-6),
        (TimeUnit::Nanoseconds, "ns", 1e-9),
    ];
    for (unit, suffix, seconds) in units {
        assert_eq!(unit.suffix(), suffix);
        assert_eq!(unit.seconds(), seconds.to_bits());
    }
}

#[test]
fn half_life_text() {
    assert_eq!(human_readable_halflife(Some(q(1.6634e8)), "5.27"), "5.27 years");
    assert_eq!(human_readable_halflife(Some(q(172800.0)), "2.00"), "2.00 days");
    assert_eq!(human_readable_halflife(Some(q(7200.0)), "2.00"), "2.00 hours");
    assert_eq!(human_readable_halflife(Some(q(90.0)), "1.50"), "1.50 minutes");
    assert_eq!(human_readable_halflife(Some(q(2.5)), "2.50"), "2.50 s");
    assert_eq!(human_readable_halflife(Some(q(0.25)), "250.00"), "250.00 ms");
    assert_eq!(human_readable_halflife(Some(q(2.5e-5)), "25.00"), "25.00 us");
    assert_eq!(human_readable_halflife(Some(q(3.0e-8)), "30.00"), "30.00 ns");
    assert_eq!(human_readable_halflife(Some(q(4.0e17)), "1.27e+10"), "1.27e+10 years");
    assert_eq!(human_readable_halflife(None, "ignored"), "-");
}

#[test]
fn half_life_as_formatted() {
    let cases: [(f32, f32, &str); 8] = [
        (1.6634e8, 365.0 * 86400.0, "years"),
        (172800.0, 86400.0, "days"),
        (7200.0, 3600.0, "hours"),
        (90.0, 60.0, "minutes"),
        (2.5, 1.0, "s"),
        (0.25, 1e-3, "ms"),
        (2.5e-5, 1e-6, "us"),
        (3.0e-8, 1e-9, "ns"),
    ];
    for (seconds, unit, suffix) in cases {
        let expected = format!("{:.2} {}", seconds / unit, suffix);
        let form = half_life_form(q(seconds));
        let number = write_number(seconds / f32::from_bits(form.unit.seconds()), form.notation);
        assert_eq!(human_readable_halflife(Some(q(seconds)), &number), expected);
    }
}

#[test]
fn record_form_names_each_notation() {
    let full = record(Some(58.6), "IT", Some(12.0), Some(1173.2), Some(0.5), Some(90.0));
    assert_eq!(
        record_form(&full),
        RecordForm {
            p_energy: Notation::Shortest,
            half_life: Some(HalfLifeForm { unit: TimeUnit::Minutes, notation: Notation::Fixed(2) }),
            branching: Some(Notation::Fixed(0)),
            energy: Some(Notation::Fixed(2)),
            intensity: Some(Notation::Fixed(3)),
        }
    );
    let bare = record(None, "IT", None, None, None, None);
    assert_eq!(
        record_form(&bare),
        RecordForm {
            p_energy: Notation::Shortest,
            half_life: None,
            branching: None,
            energy: None,
            intensity: None,
        }
    );
    let whole = record(None, "IT", Some(100.0), None, Some(2.0e-6), Some(4.0e17));
    assert_eq!(record_form(&whole).branching, None);
    assert_eq!(record_form(&whole).intensity, Some(Notation::Scientific(2)));
    assert_eq!(
        record_form(&whole).half_life,
        Some(HalfLifeForm { unit: TimeUnit::Years, notation: Notation::Padded(2, 2) })
    );
    let trace = record(None, "IT", Some(0.2), None, None, None);
    assert_eq!(record_form(&trace).branching, None);
}

#[test]
fn missing_parent_energy_is_filed_under_zero() {
    let with = record(Some(58.6), "IT", None, None, None, None);
    let without = record(None, "IT", None, None, None, None);
    assert_eq!(val(filed_under(&with)), 58.6);
    assert_eq!(val(filed_under(&without)), 0.0);
}

#[test]
fn record_line_layout() {
    let r = record(Some(0.0), "B-", Some(100.0), Some(1173.2), Some(99.85), Some(1.6634e8));
    let mut highest = q(0.0);
    let got = format_record(&r, &write_out(&r), &mut highest);
    assert_eq!(got, "  Co60  >  B-   > Ni60             1173.20     99.85  \n");
    assert_eq!(got, line(&r, "", "1173.20", "99.85"));
    assert_eq!(val(highest), 0.0);
}

#[test]
fn record_line_with_missing_values() {
    let r = record(Some(0.0), "EC+B+", None, None, None, None);
    let mut highest = q(0.0);
    let got = format_record(&r, &write_out(&r), &mut highest);
    assert_eq!(got, line(&r, "None", "  -", "  -"));
    assert_eq!(got, "  Co60  > EC+B+ > Ni60  None         -           -    \n");
}

#[test]
fn record_line_with_long_fields() {
    let mut r = record(Some(0.0), "B-B-B-B", Some(12.0), Some(0.0004), Some(123456.0), None);
    r.parent = String::from("Ag110m1");
    r.daughter = String::from("Cd110xx");
    let mut highest = q(0.0);
    let got = format_record(&r, &write_out(&r), &mut highest);
    assert_eq!(got, line(&r, "(12%)", "4.00e-4", "123456.00"));
}

#[test]
fn record_above_the_highest_level_starts_with_an_empty_line() {
    let r = record(Some(58.6), "IT", Some(0.5), Some(58.6), Some(2.0), None);
    let mut highest = q(0.0);
    let got = format_record(&r, &write_out(&r), &mut highest);
    assert_eq!(got, format!("\n{}", line(&r, "(< 1%)", "58.60", "2.000")));
    assert_eq!(val(highest), 58.6);
    let again = format_record(&r, &write_out(&r), &mut highest);
    assert_eq!(again, line(&r, "(< 1%)", "58.60", "2.000"));
    assert_eq!(val(highest), 58.6);
}

#[test]
fn one_level_line_per_rising_parent_energy() {
    let s = source(
        "Co60m",
        vec![
            record(Some(0.0), "B-", None, Some(1.0), Some(1.0), Some(1.6634e8)),
            record(Some(58.6), "IT", None, Some(2.0), Some(1.0), Some(628.0)),
            record(Some(0.0), "B-", None, Some(3.0), Some(1.0), Some(1.6634e8)),
            record(Some(58.6), "IT", None, Some(4.0), Some(1.0), Some(628.0)),
            record(Some(120.5), "IT", None, Some(5.0), Some(1.0), None),
        ],
    );
    let mut highest = minus_one();
    let got = format_nuclide_header(&s, &texts_of(&s), &mut highest);
    let expected = format!(
        "\n Co60m [E = 0 keV, t1/2 = {:.2} years]\n\n Co60m [E = 58.6 keV, t1/2 = {:.2} minutes]\n\n Co60m [E = 120.5 keV, t1/2 = -]\n",
        1.6634e8f32 / (365.0 * 86400.0),
        628.0f32 / 60.0
    );
    assert_eq!(got, expected);
    assert_eq!(val(highest), 120.5);
}

#[test]
fn missing_parent_energy_counts_as_zero_in_the_level_lines() {
    let s = source(
        "H3",
        vec![
            record(None, "B-", None, Some(1.0), Some(1.0), Some(30.0)),
            record(None, "B-", None, Some(2.0), Some(1.0), Some(30.0)),
        ],
    );
    let mut highest = minus_one();
    let got = format_nuclide_header(&s, &texts_of(&s), &mut highest);
    assert_eq!(got, "\n H3 [E = 0 keV, t1/2 = 30.00 s]\n");
    assert_eq!(val(highest), 0.0);
}

#[test]
fn a_record_without_parent_energy_makes_the_nuclide_incomplete() {
    let full = source("Co60", vec![record(Some(0.0), "B-", None, None, None, None)]);
    let part = source(
        "Co60",
        vec![
            record(Some(0.0), "B-", None, None, None, None),
            record(None, "B-", None, None, None, None),
            record(None, "B-", None, None, None, None),
        ],
    );
    assert!(!incomplete(&full));
    assert!(incomplete(&part));
    assert!(!incomplete(&source("H3", vec![])));
}

#[test]
fn nuclide_without_records_has_no_lines() {
    let s = source("H3", vec![]);
    let mut highest = minus_one();
    assert_eq!(format_nuclide_header(&s, &vec![], &mut highest), "");
    assert_eq!(val(highest), -1.0);
    assert_eq!(nuclide_rows(&s, &vec![]), "");
}

#[test]
fn nuclide_rows_are_levels_then_records() {
    let s = source(
        "Co60",
        vec![
            record(Some(0.0), "B-", Some(100.0), Some(1173.2), Some(99.85), Some(1.6634e8)),
            record(Some(0.0), "B-", Some(100.0), Some(1332.5), Some(99.98), Some(1.6634e8)),
        ],
    );
    let texts = texts_of(&s);
    let expected = format!(
        "\n Co60 [E = 0 keV, t1/2 = 5.27 years]\n{}{}",
        line(&s.iaea_records[0], "", "1173.20", "99.85"),
        line(&s.iaea_records[1], "", "1332.50", "99.98")
    );
    assert_eq!(nuclide_rows(&s, &texts), expected);
}

#[test]
fn records_of_a_higher_level_follow_without_an_empty_line() {
    let s = source(
        "Co60m",
        vec![
            record(Some(0.0), "B-", None, Some(1.0), Some(1.0), None),
            record(Some(58.6), "IT", None, Some(2.0), Some(1.0), None),
        ],
    );
    let rows = nuclide_rows(&s, &texts_of(&s));
    let expected = format!(
        "\n Co60m [E = 0 keV, t1/2 = -]\n\n Co60m [E = 58.6 keV, t1/2 = -]\n{}{}",
        line(&s.iaea_records[0], "None", "1.000", "1.000"),
        line(&s.iaea_records[1], "None", "2.000", "1.000")
    );
    assert_eq!(rows, expected);
}

#[test]
fn content_is_the_blocks_in_turn() {
    let sources = vec![
        source("Co60", vec![record(Some(0.0), "B-", Some(100.0), Some(1173.2), Some(99.85), None)]),
        source("H3", vec![]),
        source("Ni63", vec![record(None, "B-", Some(50.0), Some(17.4), Some(100.0), Some(3.0e9))]),
    ];
    let texts: Vec<Vec<RecordText>> = sources.iter().map(texts_of).collect();
    let mut expected = String::new();
    for (s, t) in sources.iter().zip(texts.iter()) {
        expected.push_str(&nuclide_rows(s, t));
    }
    assert_eq!(content(&sources, &texts), expected);
    assert_eq!(content(&vec![], &vec![]), "");
}

#[test]
fn table_is_header_and_content() {
    let sources = vec![source(
        "Co60",
        vec![
            record(Some(0.0), "B-", Some(100.0), Some(1173.2), Some(99.85), Some(1.6634e8)),
            record(Some(0.0), "B-", Some(100.0), Some(1332.5), Some(99.98), Some(1.6634e8)),
        ],
    )];
    let texts: Vec<Vec<RecordText>> = sources.iter().map(texts_of).collect();
    let table = Table::new(&sources, &texts).unwrap();
    let expected = format!("{}{}", header(), content(&sources, &texts));
    assert_eq!(table.as_str(), expected);
    let lines: Vec<&str> = table.as_str().lines().collect();
    assert_eq!(lines.len(), 7);
    assert_eq!(lines[3], "");
    assert_eq!(lines[4], " Co60 [E = 0 keV, t1/2 = 5.27 years]");
    assert_eq!(lines[5], "  Co60  >  B-   > Ni60             1173.20     99.85  ");
    assert_eq!(lines[6], "  Co60  >  B-   > Ni60             1332.50     99.98  ");
}

#[test]
fn table_needs_a_text_for_each_record() {
    let sources = vec![source("Co60", vec![record(Some(0.0), "B-", None, None, None, None)])];
    assert!(Table::new(&sources, &vec![]).is_none());
    assert!(Table::new(&sources, &vec![vec![]]).is_none());
    assert!(!texts_fit(&sources, &vec![vec![]]));
    let texts: Vec<Vec<RecordText>> = sources.iter().map(texts_of).collect();
    assert!(texts_fit(&sources, &texts));
    assert!(Table::new(&sources, &texts).is_some());
    assert!(Table::new(&vec![], &vec![]).is_some());
}

#[test]
fn table_of_nothing_is_the_header() {
    let table = Table::new(&vec![], &vec![]).unwrap();
    assert_eq!(table.as_str(), header());
}

#[test]
fn write_appends_the_bytes() {
    let sources = vec![source("Co60", vec![record(Some(0.0), "B-", None, Some(1.0), Some(2.0), None)])];
    let texts: Vec<Vec<RecordText>> = sources.iter().map(texts_of).collect();
    let table = Table::new(&sources, &texts).unwrap();
    let mut sink: Vec<u8> = vec![b'#'];
    table.write(&mut sink);
    let mut expected = vec![b'#'];
    expected.extend_from_slice(table.as_str().as_bytes());
    assert_eq!(sink, expected);
}

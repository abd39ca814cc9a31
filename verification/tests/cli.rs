use fisdef::cli::{matches_ignoring_case, Cli, MultiRange, SortProperty};
use fisdef::output::{output_name, outputs, OutputKind};
use fisdef::wrappers::CliRadType;

fn cli() -> Cli {
    Cli {
        path: String::from("file.json"),
        index: MultiRange::All,
        rad: CliRadType::Gamma,
        sort: SortProperty::Energy,
        fetch: false,
        output: String::from("step"),
        text: false,
        json: false,
        mcnp: false,
        id: 100,
        verbose: 0,
        quiet: false,
    }
}

#[test]
fn sort_property_names() {
    assert_eq!(SortProperty::Intensity.name(), "intensity");
    assert_eq!(SortProperty::Energy.name(), "energy");
}

#[test]
fn sort_property_default_is_energy() {
    assert_eq!(SortProperty::default(), SortProperty::Energy);
}

#[test]
fn sort_property_from_word() {
    for word in ["i", "I", "intensity", "Intensity", "INTENSITY"] {
        assert_eq!(SortProperty::from(String::from(word)), SortProperty::Intensity, "{word}");
    }
    for word in ["e", "E", "energy", "ENERGY", "", "x", "int", "intensity ", " i", "ı", "İ"] {
        assert_eq!(SortProperty::from(String::from(word)), SortProperty::Energy, "{word}");
    }
}

#[test]
fn sort_property_from_word_is_lowercase_match() {
    for word in ["i", "I", "e", "Intensity", "iNtEnSiTy", "energy", "other", "İ", "K", "ſ"] {
        let lower = word.to_lowercase();
        let expected = match lower.as_str() {
            "i" | "intensity" => SortProperty::Intensity,
            _ => SortProperty::Energy,
        };
        assert_eq!(SortProperty::from(String::from(word)), expected, "{word}");
    }
}

#[test]
fn ignoring_case_folds_ascii_letters_only() {
    assert!(matches_ignoring_case("ALL", "all"));
    assert!(matches_ignoring_case("aLl", "all"));
    assert!(matches_ignoring_case("", ""));
    assert!(!matches_ignoring_case("al", "all"));
    assert!(!matches_ignoring_case("alll", "all"));
    assert!(!matches_ignoring_case("\u{212a}", "k"));
    assert!(!matches_ignoring_case("@", "`"));
    assert!(!matches_ignoring_case("[", "{"));
}

#[test]
fn rad_type_names() {
    assert_eq!(CliRadType::Alpha.name(), "alpha");
    assert_eq!(CliRadType::BetaPlus.name(), "beta plus");
    assert_eq!(CliRadType::BetaMinus.name(), "beta minus");
    assert_eq!(CliRadType::Gamma.name(), "gamma");
    assert_eq!(CliRadType::Xray.name(), "x-ray");
    assert_eq!(CliRadType::Electron.name(), "electron");
}

#[test]
fn no_output_asked_for() {
    let c = cli();
    assert!(!c.wants_output());
    assert!(outputs(&c).is_empty());
}

#[test]
fn outputs_in_writing_order() {
    let mut c = cli();
    c.text = true;
    c.json = true;
    c.mcnp = true;
    assert!(c.wants_output());
    assert_eq!(outputs(&c), vec![OutputKind::Json, OutputKind::Mcnp, OutputKind::Table]);
    c.json = false;
    assert_eq!(outputs(&c), vec![OutputKind::Mcnp, OutputKind::Table]);
    c.mcnp = false;
    assert!(c.wants_output());
    assert_eq!(outputs(&c), vec![OutputKind::Table]);
}

#[test]
fn log_settings() {
    let mut c = cli();
    assert_eq!(c.verbosity(), 2);
    assert!(!c.show_level());
    c.verbose = 1;
    assert_eq!(c.verbosity(), 3);
    assert!(c.show_level());
    c.verbose = 255;
    assert_eq!(c.verbosity(), 257);
}

#[test]
fn output_names() {
    assert_eq!(output_name(Some("step"), 2), "step_2");
    assert_eq!(output_name(Some("myname"), 12), "myname_12");
    assert_eq!(output_name(None, 0), "step_0");
}

#[test]
fn extensions_and_fallbacks() {
    assert_eq!(OutputKind::Json.extension(), "json");
    assert_eq!(OutputKind::Mcnp.extension(), "i");
    assert_eq!(OutputKind::Table.extension(), "txt");
    assert_eq!(OutputKind::Json.fallback_name(3), "step_3.json");
    assert_eq!(OutputKind::Mcnp.fallback_name(3), "step_3.i");
    assert_eq!(OutputKind::Table.fallback_name(3), "table.txt");
}

use keyinsight::ui::help::{all, help_strings_in, survival};

#[test]
fn table_entries_are_unique_and_non_empty() {
    let table = all();
    for (i, entry) in table.iter().enumerate() {
        assert!(!entry.is_empty());
        assert!(!table[..i].contains(entry), "duplicate help string {entry:?}");
    }
    assert_eq!(survival(), "Endless reading, 3 lives — beat your best score");
}

#[test]
fn extractor_handles_ternaries_and_interpolation() {
    let source = r#"
            .help("One")
            .help(flag
                  ? "Two"
                  : "Three")
            .help("Endless reading, \(SurvivalPolicy.startLives) lives")
        "#;
    assert_eq!(help_strings_in(source), ["One", "Two", "Three", "Endless reading, 3 lives"]);
}

#[test]
fn extractor_skips_unclosed_literals_and_nested_calls() {
    assert_eq!(help_strings_in(".help(f(x) ? \"A\" : \"B)"), ["A"]);
    assert_eq!(help_strings_in("no calls here"), Vec::<String>::new());
    assert_eq!(help_strings_in(".help(\"x\") .help(\"y\")"), ["x", "y"]);
}

use emanager::error::EnvError;
use emanager::report::{list_presets, show_preset};
use emanager::store::{
    add_to_preset, assign_rows, parse_pair, parse_pairs, remove_preset, Preset, Presets,
};
use emanager::table::Table;

fn strings(items: &[&str]) -> Vec<String> {
    items.iter().map(|s| s.to_string()).collect()
}

#[test]
fn add_then_show_reports_the_variables_sorted() {
    let mut store: Presets = Table::new();
    assert_eq!(add_to_preset(&mut store, "p", strings(&["Y=2", "X=1"])), Ok(()));
    assert_eq!(
        show_preset(&store, "p"),
        Ok(strings(&["[p]", "  X=1", "  Y=2"]))
    );
    assert_eq!(remove_preset(&mut store, "p"), Ok(()));
    assert_eq!(
        show_preset(&store, "p"),
        Err(EnvError::PresetNotFound { name: "p".to_string() })
    );
}

#[test]
fn malformed_pair_leaves_the_store_unchanged() {
    let mut store: Presets = Table::new();
    let r = add_to_preset(&mut store, "p", strings(&["GOOD=1", "BADNOVALUE"]));
    assert_eq!(
        r,
        Err(EnvError::InvalidPairFormat { pair: "BADNOVALUE".to_string() })
    );
    assert_eq!(store.len(), 0);
    assert!(store.get("p").is_none());
}

#[test]
fn malformed_pair_leaves_an_existing_preset_unchanged() {
    let mut store: Presets = Table::new();
    add_to_preset(&mut store, "p", strings(&["A=1"])).unwrap();
    let r = add_to_preset(&mut store, "p", strings(&["B=2", "=novalue", "alsobad"]));
    assert_eq!(
        r,
        Err(EnvError::InvalidPairFormat { pair: "=novalue".to_string() })
    );
    assert_eq!(show_preset(&store, "p"), Ok(strings(&["[p]", "  A=1"])));
}

#[test]
fn add_updates_an_existing_preset() {
    let mut store: Presets = Table::new();
    add_to_preset(&mut store, "p", strings(&["A=1", "B=2"])).unwrap();
    add_to_preset(&mut store, "p", strings(&["B=3", "C=4"])).unwrap();
    assert_eq!(
        show_preset(&store, "p"),
        Ok(strings(&["[p]", "  A=1", "  B=3", "  C=4"]))
    );
    assert_eq!(store.len(), 1);
}

#[test]
fn later_pair_of_a_batch_wins() {
    let mut store: Presets = Table::new();
    add_to_preset(&mut store, "p", strings(&["A=1", "A=2", "A=3"])).unwrap();
    assert_eq!(show_preset(&store, "p"), Ok(strings(&["[p]", "  A=3"])));
}

#[test]
fn add_without_pairs_creates_an_empty_preset() {
    let mut store: Presets = Table::new();
    assert_eq!(add_to_preset(&mut store, "p", Vec::new()), Ok(()));
    assert_eq!(show_preset(&store, "p"), Ok(strings(&["[p]"])));
}

#[test]
fn add_leaves_other_presets_alone() {
    let mut store: Presets = Table::new();
    add_to_preset(&mut store, "a", strings(&["A=1"])).unwrap();
    add_to_preset(&mut store, "b", strings(&["B=2"])).unwrap();
    assert_eq!(show_preset(&store, "a"), Ok(strings(&["[a]", "  A=1"])));
    assert_eq!(show_preset(&store, "b"), Ok(strings(&["[b]", "  B=2"])));
}

#[test]
fn preset_names_are_case_sensitive() {
    let mut store: Presets = Table::new();
    add_to_preset(&mut store, "Dev", strings(&["A=1"])).unwrap();
    assert_eq!(
        show_preset(&store, "dev"),
        Err(EnvError::PresetNotFound { name: "dev".to_string() })
    );
    assert_eq!(show_preset(&store, "Dev"), Ok(strings(&["[Dev]", "  A=1"])));
}

#[test]
fn remove_of_a_missing_preset_fails() {
    let mut store: Presets = Table::new();
    add_to_preset(&mut store, "a", strings(&["A=1"])).unwrap();
    assert_eq!(
        remove_preset(&mut store, "b"),
        Err(EnvError::PresetNotFound { name: "b".to_string() })
    );
    assert_eq!(store.len(), 1);
    assert_eq!(show_preset(&store, "a"), Ok(strings(&["[a]", "  A=1"])));
}

#[test]
fn remove_takes_out_only_the_named_preset() {
    let mut store: Presets = Table::new();
    add_to_preset(&mut store, "a", strings(&["A=1"])).unwrap();
    add_to_preset(&mut store, "b", strings(&["B=2"])).unwrap();
    add_to_preset(&mut store, "c", strings(&["C=3"])).unwrap();
    assert_eq!(remove_preset(&mut store, "b"), Ok(()));
    assert_eq!(
        list_presets(&store),
        strings(&["Available presets:", "- a", "- c"])
    );
}

#[test]
fn list_of_an_empty_store() {
    let store: Presets = Table::new();
    assert_eq!(
        list_presets(&store),
        strings(&["No presets found. Use 'emanager add ...' to create one."])
    );
}

#[test]
fn list_is_sorted_by_name() {
    let mut store: Presets = Table::new();
    for name in ["zeta", "alpha", "Beta", "mid", "alphabet", "10", "9"] {
        add_to_preset(&mut store, name, strings(&["K=v"])).unwrap();
    }
    assert_eq!(
        list_presets(&store),
        strings(&[
            "Available presets:",
            "- 10",
            "- 9",
            "- Beta",
            "- alpha",
            "- alphabet",
            "- mid",
            "- zeta",
        ])
    );
}

#[test]
fn list_order_is_that_of_std_for_other_scripts() {
    let names = ["é", "z", "日本", "a", "ä", "Z", "", "😀", "\u{e000}", "~"];
    let mut store: Presets = Table::new();
    for name in names {
        add_to_preset(&mut store, name, Vec::new()).unwrap();
    }
    let mut sorted: Vec<String> = names.iter().map(|s| s.to_string()).collect();
    sorted.sort();
    let mut expected = vec!["Available presets:".to_string()];
    expected.extend(sorted.iter().map(|n| format!("- {}", n)));
    assert_eq!(list_presets(&store), expected);
}

#[test]
fn show_prints_values_as_they_are() {
    let mut store: Presets = Table::new();
    add_to_preset(&mut store, "p", strings(&["MSG=hello world; rm -rf", "EQ=a=b=c", "E="]))
        .unwrap();
    assert_eq!(
        show_preset(&store, "p"),
        Ok(strings(&["[p]", "  E=", "  EQ=a=b=c", "  MSG=hello world; rm -rf"]))
    );
}

#[test]
fn pairs_split_at_the_first_equals_sign() {
    assert_eq!(parse_pair("A=B"), Ok(("A".to_string(), "B".to_string())));
    assert_eq!(parse_pair("A="), Ok(("A".to_string(), "".to_string())));
    assert_eq!(parse_pair("A=B=C"), Ok(("A".to_string(), "B=C".to_string())));
    assert_eq!(parse_pair("A=="), Ok(("A".to_string(), "=".to_string())));
    assert_eq!(
        parse_pair("schlüssel=wert ü"),
        Ok(("schlüssel".to_string(), "wert ü".to_string()))
    );
    assert_eq!(parse_pair(" A = B "), Ok((" A ".to_string(), " B ".to_string())));
}

#[test]
fn pairs_without_key_or_equals_sign_are_malformed() {
    for bad in ["", "=", "=B", "AB", "==", "no equals here"] {
        assert_eq!(
            parse_pair(bad),
            Err(EnvError::InvalidPairFormat { pair: bad.to_string() })
        );
    }
}

#[test]
fn batch_is_split_pair_by_pair() {
    assert_eq!(
        parse_pairs(&strings(&["A=1", "B=", "A=2=3"])),
        Ok(vec![
            ("A".to_string(), "1".to_string()),
            ("B".to_string(), "".to_string()),
            ("A".to_string(), "2=3".to_string()),
        ])
    );
    assert_eq!(parse_pairs(&Vec::new()), Ok(Vec::new()));
}

#[test]
fn batch_fails_at_its_first_malformed_pair() {
    assert_eq!(
        parse_pairs(&strings(&["A=1", "second", "=third", "D=4"])),
        Err(EnvError::InvalidPairFormat { pair: "second".to_string() })
    );
    assert_eq!(
        parse_pairs(&strings(&["=first"])),
        Err(EnvError::InvalidPairFormat { pair: "=first".to_string() })
    );
}

#[test]
fn rows_are_stored_in_turn() {
    let mut vars: Preset = Table::new();
    vars.insert("KEEP".to_string(), "old".to_string());
    vars.insert("A".to_string(), "old".to_string());
    let rows = vec![
        ("B".to_string(), "1".to_string()),
        ("A".to_string(), "2".to_string()),
        ("B".to_string(), "3".to_string()),
    ];
    assign_rows(&mut vars, &rows);
    assert_eq!(
        vars.entries(),
        &vec![
            ("A".to_string(), "2".to_string()),
            ("B".to_string(), "3".to_string()),
            ("KEEP".to_string(), "old".to_string()),
        ]
    );
}

#[test]
fn table_keeps_its_keys_in_order() {
    let mut vars: Preset = Table::new();
    assert_eq!(vars.len(), 0);
    vars.insert("b".to_string(), "2".to_string());
    vars.insert("a".to_string(), "1".to_string());
    vars.insert("c".to_string(), "3".to_string());
    vars.insert("b".to_string(), "two".to_string());
    assert_eq!(vars.len(), 3);
    assert_eq!(
        vars.entries(),
        &vec![
            ("a".to_string(), "1".to_string()),
            ("b".to_string(), "two".to_string()),
            ("c".to_string(), "3".to_string()),
        ]
    );
    assert_eq!(vars.get("a"), Some(&"1".to_string()));
    assert_eq!(vars.get("b"), Some(&"two".to_string()));
    assert_eq!(vars.get("d"), None);
    assert_eq!(vars.get(""), None);
    assert_eq!(vars.remove("a"), Some("1".to_string()));
    assert_eq!(vars.remove("a"), None);
    assert_eq!(vars.len(), 2);
    assert_eq!(
        vars.entries(),
        &vec![("b".to_string(), "two".to_string()), ("c".to_string(), "3".to_string())]
    );
}

#[test]
fn error_messages_name_what_failed() {
    assert_eq!(
        EnvError::PresetNotFound { name: "dev".to_string() }.message(),
        "Preset 'dev' not found."
    );
    assert_eq!(
        EnvError::InvalidPairFormat { pair: "BAD".to_string() }.message(),
        "Invalid key-value pair format: 'BAD'. Use KEY=VALUE."
    );
    assert_eq!(
        EnvError::StoreCorrupt.message(),
        "Failed to parse presets file. It might be malformed JSON."
    );
    assert_eq!(EnvError::StoreWriteError.message(), "Failed to serialize presets.");
    assert_eq!(EnvError::ConfigDirNotFound.message(), "Could not find config directory");
    assert_eq!(
        EnvError::PathResolutionError { path: "a/b".to_string() }.message(),
        "Failed to find absolute path for a/b"
    );
}

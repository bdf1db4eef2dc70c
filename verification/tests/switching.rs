use emanager::error::EnvError;
use emanager::store::{add_to_preset, Presets};
use emanager::switch::{clear_preset, export_line, unset_line, use_preset, Transition};
use emanager::table::Table;

fn store_with(presets: &[(&str, &[&str])]) -> Presets {
    let mut store: Presets = Table::new();
    for (name, pairs) in presets {
        let pairs: Vec<String> = pairs.iter().map(|p| p.to_string()).collect();
        add_to_preset(&mut store, name, pairs).unwrap();
    }
    store
}

fn lines(t: &Transition) -> Vec<&str> {
    t.commands.iter().map(|s| s.as_str()).collect()
}

#[test]
fn use_exports_the_variables_in_key_order() {
    let store = store_with(&[("dev", &["PORT=8080", "HOST=localhost", "DEBUG=1"])]);
    let t = use_preset(None, &store, "dev");
    assert_eq!(
        lines(&t),
        vec!["export DEBUG=1;", "export HOST=localhost;", "export PORT=8080;"]
    );
    assert_eq!(t.active, Some("dev".to_string()));
    assert_eq!(t.failure, None);
}

#[test]
fn use_twice_unsets_then_exports_again() {
    let store = store_with(&[("a", &["X=1", "Y=2"])]);
    let first = use_preset(None, &store, "a");
    assert_eq!(lines(&first), vec!["export X=1;", "export Y=2;"]);
    let second = use_preset(first.active.as_deref(), &store, "a");
    assert_eq!(
        lines(&second),
        vec!["unset X;", "unset Y;", "export X=1;", "export Y=2;"]
    );
    assert_eq!(second.active, Some("a".to_string()));
    assert_eq!(second.failure, None);
}

#[test]
fn use_switches_from_one_preset_to_another() {
    let store = store_with(&[("a", &["X=1", "SHARED=a"]), ("b", &["Z=3", "SHARED=b"])]);
    let t = use_preset(Some("a"), &store, "b");
    assert_eq!(
        lines(&t),
        vec!["unset SHARED;", "unset X;", "export SHARED=b;", "export Z=3;"]
    );
    assert_eq!(t.active, Some("b".to_string()));
    assert_eq!(t.failure, None);
}

#[test]
fn clear_without_active_preset_does_nothing() {
    let store = store_with(&[("a", &["X=1"])]);
    let t = clear_preset(None, Some(&store));
    assert!(t.commands.is_empty());
    assert_eq!(t.active, None);
    assert_eq!(t.failure, None);
    let mut same = store_with(&[("a", &["X=1"])]);
    assert_eq!(store, same);
    add_to_preset(&mut same, "a", vec!["Y=2".to_string()]).unwrap();
    assert_ne!(store, same);
}

#[test]
fn clear_unsets_the_active_preset() {
    let store = store_with(&[("a", &["B=2", "A=1"]), ("b", &["C=3"])]);
    let t = clear_preset(Some("a"), Some(&store));
    assert_eq!(lines(&t), vec!["unset A;", "unset B;"]);
    assert_eq!(t.active, None);
    assert_eq!(t.failure, None);
}

#[test]
fn clear_tolerates_a_preset_that_was_removed() {
    let store = store_with(&[("b", &["C=3"])]);
    let t = clear_preset(Some("gone"), Some(&store));
    assert!(t.commands.is_empty());
    assert_eq!(t.active, None);
    assert_eq!(t.failure, None);
}

#[test]
fn clear_tolerates_a_store_that_cannot_be_read() {
    let t = clear_preset(Some("a"), None);
    assert!(t.commands.is_empty());
    assert_eq!(t.active, None);
    assert_eq!(t.failure, None);
}

#[test]
fn clear_twice_writes_nothing_the_second_time() {
    let store = store_with(&[("a", &["X=1"])]);
    let first = clear_preset(Some("a"), Some(&store));
    assert_eq!(lines(&first), vec!["unset X;"]);
    let second = clear_preset(first.active.as_deref(), Some(&store));
    assert!(second.commands.is_empty());
    assert_eq!(second.active, None);
}

#[test]
fn failed_switch_leaves_no_active_preset() {
    let store = store_with(&[("a", &["X=1", "Y=2"])]);
    let t = use_preset(Some("a"), &store, "missing");
    assert_eq!(lines(&t), vec!["unset X;", "unset Y;"]);
    assert_eq!(t.active, None);
    assert_eq!(
        t.failure,
        Some(EnvError::PresetNotFound { name: "missing".to_string() })
    );
}

#[test]
fn failed_switch_without_active_preset_writes_nothing() {
    let store: Presets = Table::new();
    let t = use_preset(None, &store, "missing");
    assert!(t.commands.is_empty());
    assert_eq!(t.active, None);
    assert_eq!(
        t.failure,
        Some(EnvError::PresetNotFound { name: "missing".to_string() })
    );
}

#[test]
fn use_of_an_empty_preset_exports_nothing() {
    let store = store_with(&[("empty", &[])]);
    let t = use_preset(None, &store, "empty");
    assert!(t.commands.is_empty());
    assert_eq!(t.active, Some("empty".to_string()));
    assert_eq!(t.failure, None);
}

#[test]
fn values_are_escaped_for_the_shell() {
    let store = store_with(&[("p", &["X=hello world; rm -rf"])]);
    let t = use_preset(None, &store, "p");
    assert_eq!(lines(&t), vec!["export X='hello world; rm -rf';"]);
}

#[test]
fn quotes_and_empty_values_are_escaped() {
    let store = store_with(&[("p", &["EMPTY=", "QUOTE=it's", "PLAIN=a/b-c_d.e"])]);
    let t = use_preset(None, &store, "p");
    assert_eq!(
        lines(&t),
        vec![
            "export EMPTY='';",
            "export PLAIN=a/b-c_d.e;",
            "export QUOTE='it'\\''s';",
        ]
    );
}

#[test]
fn control_characters_and_shell_syntax_are_quoted() {
    let store = store_with(&[(
        "p",
        &["NL=a\nb", "SUB=$(id)", "TAB=a\tb", "BANG=hi!", "VAR=$HOME"],
    )]);
    let t = use_preset(None, &store, "p");
    assert_eq!(
        lines(&t),
        vec![
            "export BANG='hi'\\!'';",
            "export NL='a\nb';",
            "export SUB='$(id)';",
            "export TAB='a\tb';",
            "export VAR='$HOME';",
        ]
    );
}

#[test]
fn keys_are_not_escaped_in_unset_commands() {
    let store = store_with(&[("p", &["MY VAR=1"])]);
    let t = clear_preset(Some("p"), Some(&store));
    assert_eq!(lines(&t), vec!["unset MY VAR;"]);
}

#[test]
fn command_lines_have_their_exact_form() {
    assert_eq!(unset_line("PATH"), "unset PATH;");
    assert_eq!(export_line("PATH", "'/a b'"), "export PATH='/a b';");
    assert_eq!(export_line("", ""), "export =;");
}

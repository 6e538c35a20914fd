use annotation_store::generator::ConfigError;
use annotation_store::generator::Fact;
use annotation_store::generator::RelationConfig;
use annotation_store::relation::Verdict;
use annotation_store::relation::verdict;

fn fact(history: &[&str], kind: &str, present: bool) -> Fact {
    Fact {
        history: history.iter().map(|s| s.to_string()).collect(),
        kind: kind.to_string(),
        verdict: if present { Verdict::Present } else { Verdict::Absent },
    }
}

fn names(kinds: &[&str]) -> Vec<String> {
    kinds.iter().map(|s| s.to_string()).collect()
}

#[test]
fn impl_token_streams_match() {
    let config = RelationConfig::new(2, names(&["Foo", "Bar"])).unwrap();
    let generated = config.generate();
    let expected = vec![
        fact(&["Foo"], "Foo", true),
        fact(&["Bar"], "Foo", false),
        fact(&["Foo"], "Bar", false),
        fact(&["Bar"], "Bar", true),
        fact(&["Foo", "Foo"], "Foo", true),
        fact(&["Foo", "Bar"], "Foo", true),
        fact(&["Bar", "Foo"], "Foo", true),
        fact(&["Bar", "Bar"], "Foo", false),
        fact(&["Foo", "Foo"], "Bar", false),
        fact(&["Foo", "Bar"], "Bar", true),
        fact(&["Bar", "Foo"], "Bar", true),
        fact(&["Bar", "Bar"], "Bar", true),
    ];
    assert_eq!(generated, expected);
}

#[test]
fn full_token_streams_match() {
    let config = RelationConfig::new(2, names(&["Foo", "Bar"])).unwrap();
    assert_eq!(config.max_depth(), 2);
    assert_eq!(config.kind_names(), &names(&["Foo", "Bar"]));
    let generated = config.generate();
    let expected = vec![
        fact(&["Foo"], "Foo", true),
        fact(&["Bar"], "Foo", false),
        fact(&["Foo"], "Bar", false),
        fact(&["Bar"], "Bar", true),
        fact(&["Foo", "Foo"], "Foo", true),
        fact(&["Foo", "Bar"], "Foo", true),
        fact(&["Bar", "Foo"], "Foo", true),
        fact(&["Bar", "Bar"], "Foo", false),
        fact(&["Foo", "Foo"], "Bar", false),
        fact(&["Foo", "Bar"], "Bar", true),
        fact(&["Bar", "Foo"], "Bar", true),
        fact(&["Bar", "Bar"], "Bar", true),
    ];
    assert_eq!(generated, expected);
}

#[test]
fn impl_depth_3_token_streams_match3() {
    let config = RelationConfig::new(3, names(&["Foo", "Bar"])).unwrap();
    let generated = config.generate();
    let expected = vec![
        fact(&["Foo"], "Foo", true),
        fact(&["Bar"], "Foo", false),
        fact(&["Foo"], "Bar", false),
        fact(&["Bar"], "Bar", true),
        fact(&["Foo", "Foo"], "Foo", true),
        fact(&["Foo", "Bar"], "Foo", true),
        fact(&["Bar", "Foo"], "Foo", true),
        fact(&["Bar", "Bar"], "Foo", false),
        fact(&["Foo", "Foo"], "Bar", false),
        fact(&["Foo", "Bar"], "Bar", true),
        fact(&["Bar", "Foo"], "Bar", true),
        fact(&["Bar", "Bar"], "Bar", true),
        fact(&["Foo", "Foo", "Foo"], "Foo", true),
        fact(&["Foo", "Foo", "Bar"], "Foo", true),
        fact(&["Foo", "Bar", "Foo"], "Foo", true),
        fact(&["Foo", "Bar", "Bar"], "Foo", true),
        fact(&["Bar", "Foo", "Foo"], "Foo", true),
        fact(&["Bar", "Foo", "Bar"], "Foo", true),
        fact(&["Bar", "Bar", "Foo"], "Foo", true),
        fact(&["Bar", "Bar", "Bar"], "Foo", false),
        fact(&["Foo", "Foo", "Foo"], "Bar", false),
        fact(&["Foo", "Foo", "Bar"], "Bar", true),
        fact(&["Foo", "Bar", "Foo"], "Bar", true),
        fact(&["Foo", "Bar", "Bar"], "Bar", true),
        fact(&["Bar", "Foo", "Foo"], "Bar", true),
        fact(&["Bar", "Foo", "Bar"], "Bar", true),
        fact(&["Bar", "Bar", "Foo"], "Bar", true),
        fact(&["Bar", "Bar", "Bar"], "Bar", true),
    ];
    assert_eq!(generated.len(), 28);
    assert_eq!(generated, expected);
}

#[test]
fn verdict_is_containment() {
    let history = names(&["Bar", "Foo"]);
    assert_eq!(verdict(&history, &"Foo".to_string()), Verdict::Present);
    assert_eq!(verdict(&history, &"Bar".to_string()), Verdict::Present);
    let shorter = names(&["Bar"]);
    assert_eq!(verdict(&shorter, &"Foo".to_string()), Verdict::Absent);
    let empty: Vec<String> = Vec::new();
    assert_eq!(verdict(&empty, &"Foo".to_string()), Verdict::Absent);
}

#[test]
fn two_marker_gating_scenario() {
    // markers = {Foo, Bar}, depth 3: with history [Bar, Foo] both kinds are
    // present, so an operation demanding both is enabled; with [Bar] alone,
    // Foo is absent and the same operation is disabled.
    let config = RelationConfig::new(3, names(&["Foo", "Bar"])).unwrap();
    let facts = config.generate();
    let both = names(&["Bar", "Foo"]);
    let foo_present = facts
        .iter()
        .any(|f| f.history == both && f.kind == "Foo" && f.verdict == Verdict::Present);
    let bar_present = facts
        .iter()
        .any(|f| f.history == both && f.kind == "Bar" && f.verdict == Verdict::Present);
    assert!(foo_present && bar_present);
    let only_bar = names(&["Bar"]);
    let foo_absent = facts
        .iter()
        .any(|f| f.history == only_bar && f.kind == "Foo" && f.verdict == Verdict::Absent);
    assert!(foo_absent);
}

#[test]
fn fact_count_matches_formula() {
    // N = 3, D = 2: N * (N + N^2) = 3 * 12 = 36 facts.
    let config = RelationConfig::new(2, names(&["A", "B", "C"])).unwrap();
    assert_eq!(config.generate().len(), 36);
}

#[test]
fn degenerate_configurations_are_legal() {
    let no_kinds = RelationConfig::new(3, Vec::new()).unwrap();
    assert_eq!(no_kinds.generate(), Vec::<Fact>::new());
    let zero_depth = RelationConfig::new(0, names(&["Foo"])).unwrap();
    assert_eq!(zero_depth.generate(), Vec::<Fact>::new());
}

#[test]
fn negative_depth_is_a_configuration_error() {
    let r = RelationConfig::new(-1, names(&["Foo"]));
    assert_eq!(r.err(), Some(ConfigError::NegativeDepth));
}

#[test]
fn invalid_kind_name_is_a_configuration_error() {
    let r = RelationConfig::new(1, names(&["1a"]));
    assert_eq!(r.err(), Some(ConfigError::InvalidKind));
    let r = RelationConfig::new(1, names(&["sdf@f"]));
    assert_eq!(r.err(), Some(ConfigError::InvalidKind));
    let r = RelationConfig::new(1, names(&[""]));
    assert_eq!(r.err(), Some(ConfigError::InvalidKind));
}

#[test]
fn duplicate_kind_name_is_a_configuration_error() {
    let r = RelationConfig::new(1, names(&["Foo", "Bar", "Foo"]));
    assert_eq!(r.err(), Some(ConfigError::DuplicateKind));
}

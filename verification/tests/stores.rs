use git_ignore::{Config, NameMap};

fn sorted(mut names: Vec<String>) -> Vec<String> {
    names.sort();
    names
}

#[test]
fn a_new_map_holds_nothing() {
    let map: NameMap<u32> = NameMap::new();
    assert!(map.keys().is_empty());
    assert!(map.get(&"a".to_string()).is_none());
    assert!(!map.contains_key(&"a".to_string()));
}

#[test]
fn insert_puts_a_value_under_a_name() {
    let mut map = NameMap::new();
    map.insert("a".to_string(), 1u32);
    map.insert("b".to_string(), 2u32);
    assert_eq!(map.get(&"a".to_string()), Some(&1));
    assert_eq!(map.get(&"b".to_string()), Some(&2));
    assert_eq!(map.get(&"c".to_string()), None);
    assert!(map.contains_key(&"b".to_string()));
    assert_eq!(sorted(map.keys()), vec!["a".to_string(), "b".to_string()]);
}

#[test]
fn insert_replaces_the_value_under_a_name() {
    let mut map = NameMap::new();
    map.insert("a".to_string(), 1u32);
    map.insert("b".to_string(), 2u32);
    map.insert("a".to_string(), 3u32);
    assert_eq!(map.get(&"a".to_string()), Some(&3));
    assert_eq!(map.get(&"b".to_string()), Some(&2));
    assert_eq!(map.keys().len(), 2);
}

#[test]
fn remove_takes_a_name_away() {
    let mut map = NameMap::new();
    map.insert("a".to_string(), 1u32);
    map.insert("b".to_string(), 2u32);
    map.insert("c".to_string(), 3u32);
    map.remove(&"b".to_string());
    assert_eq!(map.get(&"a".to_string()), Some(&1));
    assert_eq!(map.get(&"b".to_string()), None);
    assert_eq!(map.get(&"c".to_string()), Some(&3));
    assert_eq!(sorted(map.keys()), vec!["a".to_string(), "c".to_string()]);
    map.remove(&"missing".to_string());
    assert_eq!(map.keys().len(), 2);
}

#[test]
fn from_entries_keeps_the_later_entry() {
    let map = NameMap::from_entries(vec![
        ("a".to_string(), 1u32),
        ("b".to_string(), 2u32),
        ("a".to_string(), 3u32),
    ]);
    assert_eq!(map.get(&"a".to_string()), Some(&3));
    assert_eq!(map.get(&"b".to_string()), Some(&2));
    assert_eq!(map.keys().len(), 2);
    let empty: NameMap<u32> = NameMap::from_entries(Vec::new());
    assert!(empty.keys().is_empty());
}

#[test]
fn names_differ_by_case() {
    let mut map = NameMap::new();
    map.insert("Rust".to_string(), 1u32);
    assert_eq!(map.get(&"rust".to_string()), None);
    assert_eq!(map.get(&"Rust".to_string()), Some(&1));
}

#[test]
fn a_new_configuration_defines_nothing() {
    let config = Config::new();
    assert!(config.names().is_empty());
    assert!(config.aliases.keys().is_empty());
    assert!(config.templates.keys().is_empty());
}

#[test]
fn a_configuration_names_its_aliases_and_templates() {
    let mut config = Config::new();
    config.add_alias("web".to_string(), vec!["node".to_string()]);
    config.add_template("mine".to_string(), "/tmp/mine".to_string());
    config.add_template("web".to_string(), "/tmp/web".to_string());
    assert_eq!(
        sorted(config.names()),
        vec!["mine".to_string(), "web".to_string(), "web".to_string()]
    );
}

#[test]
fn an_alias_is_defined_anew_and_taken_away() {
    let mut config = Config::new();
    config.add_alias("web".to_string(), vec!["node".to_string()]);
    config.add_alias("web".to_string(), vec!["node".to_string(), "react".to_string()]);
    assert_eq!(
        config.aliases.get(&"web".to_string()),
        Some(&vec!["node".to_string(), "react".to_string()])
    );
    assert_eq!(config.names(), vec!["web".to_string()]);
    config.remove_alias(&"other".to_string());
    assert_eq!(config.names(), vec!["web".to_string()]);
    config.remove_alias(&"web".to_string());
    assert!(config.names().is_empty());
}

#[test]
fn a_template_is_registered_anew_and_taken_away() {
    let mut config = Config::new();
    config.add_alias("web".to_string(), vec!["node".to_string()]);
    config.add_template("mine".to_string(), "/tmp/old".to_string());
    config.add_template("mine".to_string(), "/tmp/new".to_string());
    assert_eq!(config.templates.get(&"mine".to_string()), Some(&"/tmp/new".to_string()));
    config.remove_template(&"web".to_string());
    assert_eq!(sorted(config.names()), vec!["mine".to_string(), "web".to_string()]);
    config.remove_template(&"mine".to_string());
    assert_eq!(config.names(), vec!["web".to_string()]);
    assert!(config.templates.get(&"mine".to_string()).is_none());
}

use storage::alias_mapping::{AliasMapping, AliasPersistence, ALIAS_MAPPING_CONFIG_FILE};
use storage::errors::StorageError;

fn reopen(persistence: &AliasPersistence) -> AliasPersistence {
    let saved = persistence.state().to_pairs();
    AliasPersistence::new(persistence.data_path().clone(), AliasMapping::from_pairs(saved))
}

#[test]
fn test_alias_mapping() {
    let dir = "alias_mapping_test";
    let mut alias_persistence =
        AliasPersistence::new(AliasPersistence::get_config_path(dir), AliasMapping::default());

    alias_persistence.insert("alias1".to_string(), "collection1".to_string());
    alias_persistence.insert("alias2".to_string(), "collection1".to_string());
    alias_persistence.insert("alias3".to_string(), "collection2".to_string());

    assert_eq!(
        alias_persistence.get("alias1"),
        Some("collection1".to_string())
    );
    assert_eq!(
        alias_persistence.get("alias2"),
        Some("collection1".to_string())
    );
    assert_eq!(
        alias_persistence.get("alias3"),
        Some("collection2".to_string())
    );
    assert_eq!(alias_persistence.get("alias4"), None);

    assert!(alias_persistence.check_alias_exists("alias1"));
    assert!(!alias_persistence.check_alias_exists("alias4"));

    let mut coll1_aliases = alias_persistence.collection_aliases("collection1");
    coll1_aliases.sort();
    assert_eq!(
        coll1_aliases,
        vec!["alias1".to_string(), "alias2".to_string()]
    );

    let coll2_aliases = alias_persistence.collection_aliases("collection2");
    assert_eq!(coll2_aliases, vec!["alias3".to_string()]);

    alias_persistence
        .rename_alias("alias1", "alias1_renamed".to_string())
        .unwrap();
    assert_eq!(alias_persistence.get("alias1"), None);
    assert_eq!(
        alias_persistence.get("alias1_renamed"),
        Some("collection1".to_string())
    );

    let rename_err = alias_persistence.rename_alias("non_existent", "new_name".to_string());
    assert!(rename_err.is_err());
    assert!(matches!(
        rename_err.unwrap_err(),
        StorageError::NotFound { .. }
    ));

    let removed = alias_persistence.remove("alias1_renamed");
    assert_eq!(removed, Some("collection1".to_string()));
    assert_eq!(alias_persistence.get("alias1_renamed"), None);

    let removed_none = alias_persistence.remove("alias_not_found");
    assert_eq!(removed_none, None);

    alias_persistence.remove_collection("collection1");
    assert_eq!(alias_persistence.get("alias2"), None);
    assert_eq!(
        alias_persistence.get("alias3"),
        Some("collection2".to_string())
    );

    let alias_persistence_reopened = reopen(&alias_persistence);
    assert_eq!(
        alias_persistence_reopened.get("alias3"),
        Some("collection2".to_string())
    );
    assert_eq!(alias_persistence_reopened.get("alias2"), None);
}

fn persistence_with(pairs: &[(&str, &str)]) -> AliasPersistence {
    let mut p = AliasPersistence::new("aliases/data.json".to_string(), AliasMapping::default());
    for (alias, collection) in pairs {
        p.insert(alias.to_string(), collection.to_string());
    }
    p
}

#[test]
fn config_path_is_data_file_in_directory() {
    assert_eq!(ALIAS_MAPPING_CONFIG_FILE, "data.json");
    assert_eq!(AliasPersistence::get_config_path("/var/aliases"), "/var/aliases/data.json");
    assert_eq!(AliasPersistence::get_config_path("/var/aliases/"), "/var/aliases/data.json");
    assert_eq!(AliasPersistence::get_config_path(""), "data.json");
}

#[test]
fn data_path_is_kept() {
    let mut p = AliasPersistence::new("some/dir/data.json".to_string(), AliasMapping::default());
    p.insert("a".to_string(), "c".to_string());
    p.remove_collection("c");
    assert_eq!(p.data_path(), "some/dir/data.json");
}

#[test]
fn insert_then_get_returns_written_value() {
    let mut p = persistence_with(&[("a", "c1"), ("b", "c2")]);
    p.insert("a".to_string(), "c3".to_string());
    assert_eq!(p.get("a"), Some("c3".to_string()));
    assert_eq!(p.get("b"), Some("c2".to_string()));
}

#[test]
fn remove_returns_previous_target_and_keeps_others() {
    let mut p = persistence_with(&[("a", "c1"), ("b", "c2"), ("d", "c1")]);
    assert_eq!(p.remove("b"), Some("c2".to_string()));
    assert_eq!(p.get("b"), None);
    assert_eq!(p.get("a"), Some("c1".to_string()));
    assert_eq!(p.get("d"), Some("c1".to_string()));
    assert_eq!(p.remove("b"), None);
}

#[test]
fn remove_collection_reports_change_and_is_idempotent() {
    let mut p = persistence_with(&[("a", "c1"), ("b", "c2"), ("d", "c1")]);
    assert!(p.remove_collection("c1"));
    assert!(p.collection_aliases("c1").is_empty());
    assert_eq!(p.get("b"), Some("c2".to_string()));
    assert!(!p.remove_collection("c1"));
    assert!(!p.remove_collection("unknown"));
    assert_eq!(p.collection_aliases("c2"), vec!["b".to_string()]);
}

#[test]
fn rename_moves_target_and_keeps_others() {
    let mut p = persistence_with(&[("a", "c1"), ("b", "c2")]);
    p.rename_alias("a", "z".to_string()).unwrap();
    assert_eq!(p.get("a"), None);
    assert_eq!(p.get("z"), Some("c1".to_string()));
    assert_eq!(p.get("b"), Some("c2".to_string()));
}

#[test]
fn rename_onto_existing_alias_replaces_it() {
    let mut p = persistence_with(&[("a", "c1"), ("b", "c2")]);
    p.rename_alias("a", "b".to_string()).unwrap();
    assert_eq!(p.get("a"), None);
    assert_eq!(p.get("b"), Some("c1".to_string()));
    assert!(p.collection_aliases("c2").is_empty());
}

#[test]
fn rename_to_same_name_keeps_alias() {
    let mut p = persistence_with(&[("a", "c1")]);
    p.rename_alias("a", "a".to_string()).unwrap();
    assert_eq!(p.get("a"), Some("c1".to_string()));
}

#[test]
fn rename_of_missing_alias_is_not_found_and_changes_nothing() {
    let mut p = persistence_with(&[("a", "c1")]);
    let err = p.rename_alias("missing", "new".to_string()).unwrap_err();
    match &err {
        StorageError::NotFound { description } => {
            assert_eq!(description, "Alias missing does not exists!")
        }
        other => panic!("unexpected error {other:?}"),
    }
    assert_eq!(err.description(), "Alias missing does not exists!");
    assert_eq!(p.get("a"), Some("c1".to_string()));
    assert_eq!(p.get("new"), None);
}

#[test]
fn check_alias_exists_agrees_with_get() {
    let p = persistence_with(&[("a", "c1")]);
    assert_eq!(p.check_alias_exists("a"), p.get("a").is_some());
    assert_eq!(p.check_alias_exists("b"), p.get("b").is_some());
}

#[test]
fn apply_state_replaces_table() {
    let mut p = persistence_with(&[("a", "c1")]);
    let other = persistence_with(&[("x", "c9"), ("y", "c9")]);
    p.apply_state(other.state().clone());
    assert_eq!(p.get("a"), None);
    assert_eq!(p.get("x"), Some("c9".to_string()));
    let mut aliases = p.collection_aliases("c9");
    aliases.sort();
    assert_eq!(aliases, vec!["x".to_string(), "y".to_string()]);
    assert!(p.state() == other.state());
}

#[test]
fn pairs_round_trip_gives_same_table() {
    let p = persistence_with(&[("a", "c1"), ("b", "c2"), ("c", "c1")]);
    let pairs = p.state().to_pairs();
    assert_eq!(pairs.len(), 3);
    let back = AliasMapping::from_pairs(pairs);
    assert!(back == *p.state());
}

#[test]
fn from_pairs_later_pair_wins() {
    let mapping = AliasMapping::from_pairs(vec![
        ("a".to_string(), "c1".to_string()),
        ("a".to_string(), "c2".to_string()),
        ("b".to_string(), "c3".to_string()),
    ]);
    let p = AliasPersistence::new("f".to_string(), mapping);
    assert_eq!(p.get("a"), Some("c2".to_string()));
    assert_eq!(p.get("b"), Some("c3".to_string()));
    assert_eq!(p.state().to_pairs().len(), 2);
}

#[test]
fn equality_ignores_insertion_order() {
    let p1 = persistence_with(&[("a", "c1"), ("b", "c2")]);
    let p2 = persistence_with(&[("b", "c2"), ("a", "c1")]);
    let p3 = persistence_with(&[("a", "c1"), ("b", "c3")]);
    let p4 = persistence_with(&[("a", "c1")]);
    assert!(p1.state() == p2.state());
    assert!(p1.state() != p3.state());
    assert!(p1.state() != p4.state());
    assert!(p4.state() != p1.state());
    assert!(AliasMapping::default() == AliasMapping::default());
}

#[test]
fn storage_error_constructors() {
    let e = StorageError::service_error("boom".to_string());
    assert!(matches!(e, StorageError::ServiceError { .. }));
    assert_eq!(e.description(), "boom");
    let e = StorageError::not_found("gone".to_string());
    assert!(matches!(e, StorageError::NotFound { .. }));
}

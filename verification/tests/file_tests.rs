use std::path::{Path, PathBuf};

use cad_studio::ids::{EntityId, LayerId};
use cad_studio::model::{default_layer_id, Entity};
use cad_studio::paths::{
    autosave_file_name, autosave_path, backups_dir_for, place_in, project_stem, recovered_path,
    svg_path_for, temp_path_for,
};
use cad_studio::persist::{
    backup_file_name, backups_to_prune, check_loaded_project, escape_xml, is_backup_of,
    latest_backup_name, select_backups, sort_texts, validate_for_save, IoError, MAX_BACKUPS,
};

type Project = cad_studio::model::Project<(f64, f64), (f64, f64), f64>;

#[test]
fn autosave_path_uses_autosave_suffix() {
    let path = "house.cadproj";
    assert_eq!(PathBuf::from(autosave_path(path)), Path::new("house.autosave.cadproj"));
}

#[test]
fn autosave_path_stays_in_the_same_folder() {
    assert_eq!(autosave_path("plans/house.cadproj"), "plans/house.autosave.cadproj");
    assert_eq!(autosave_path("/"), "project.autosave.cadproj");
    assert_eq!(autosave_file_name(None), "project.autosave.cadproj");
    assert_eq!(autosave_file_name(Some("a".to_owned())), "a.autosave.cadproj");
}

#[test]
fn backups_live_next_to_the_project() {
    assert_eq!(backups_dir_for("plans/house.cadproj"), "plans/backups");
    assert_eq!(backups_dir_for("house.cadproj"), "backups");
    assert_eq!(place_in(Some(String::new()), "x"), "x");
    assert_eq!(place_in(None, "x"), "x");
    assert_eq!(project_stem("plans/house.cadproj"), "house");
}

#[test]
fn derived_paths_replace_or_extend_the_name() {
    assert_eq!(temp_path_for("plans/house.cadproj"), "plans/house.cadproj.tmp");
    assert_eq!(recovered_path("plans/house.cadproj"), "plans/house.recovered.cadproj");
    assert_eq!(svg_path_for("a.cadproj"), "a.svg");
}

#[test]
fn backup_names_are_fixed_width() {
    assert_eq!(backup_file_name("house", 1234, 7), "house_0000000000001234_000007.cadproj");
    assert_eq!(backup_file_name("h", 0, 0), "h_0000000000000000_000000.cadproj");
    assert_eq!(
        backup_file_name("h", 123456789012345678, 1234567),
        "h_123456789012345678_1234567.cadproj"
    );
}

#[test]
fn backup_names_sort_in_time_order() {
    let earlier = backup_file_name("p", 999, 5);
    let later = backup_file_name("p", 1000, 0);
    let same_millis_later = backup_file_name("p", 1000, 1);
    assert!(earlier < later);
    assert!(later < same_millis_later);
}

#[test]
fn only_backups_of_the_stem_are_selected() {
    assert!(is_backup_of("house_0000000000000001_000000.cadproj", "house"));
    assert!(!is_backup_of("houseboat_0000000000000001_000000.cadproj", "house"));
    assert!(!is_backup_of("house_0000000000000001_000000.svg", "house"));
    assert!(!is_backup_of("house_2.cadproj", "house"));
    assert!(!is_backup_of("house_000000000000000x_000000.cadproj", "house"));
    let names = vec![
        "b_0000000000000001_000000.cadproj".to_owned(),
        backup_file_name("house", 2, 0),
        "notes.txt".to_owned(),
        backup_file_name("house", 1, 0),
    ];
    assert_eq!(select_backups(&names, "house"), vec![backup_file_name("house", 2, 0), backup_file_name("house", 1, 0)]);
}

#[test]
fn backups_of_a_project_with_a_longer_stem_are_not_taken() {
    assert!(!is_backup_of(&backup_file_name("plan_v2", 5, 0), "plan"));
    let mut names: Vec<String> = (0..11u128).map(|m| backup_file_name("plan_v2", m, 0)).collect();
    names.push(backup_file_name("plan", 3, 0));
    assert!(backups_to_prune(&names, "plan").is_empty());
    assert_eq!(latest_backup_name(&names, "plan"), Some(backup_file_name("plan", 3, 0)));
    assert_eq!(backups_to_prune(&names, "plan_v2"), vec![backup_file_name("plan_v2", 0, 0)]);
}

#[test]
fn sorting_orders_by_characters() {
    let sorted = sort_texts(vec!["b".to_owned(), "ab".to_owned(), "a".to_owned(), "é".to_owned(), "Z".to_owned()]);
    assert_eq!(sorted, vec!["Z".to_owned(), "a".to_owned(), "ab".to_owned(), "b".to_owned(), "é".to_owned()]);
}

#[test]
fn pruning_keeps_the_most_recent_backups() {
    let mut names: Vec<String> = (0..(MAX_BACKUPS as u128 + 3)).rev().map(|m| backup_file_name("test", m, 0)).collect();
    names.push("other_0000000000000000_000000.cadproj".to_owned());
    let pruned = backups_to_prune(&names, "test");
    assert_eq!(
        pruned,
        vec![backup_file_name("test", 0, 0), backup_file_name("test", 1, 0), backup_file_name("test", 2, 0)]
    );
    let few: Vec<String> = (0..3).map(|m| backup_file_name("test", m, 0)).collect();
    assert!(backups_to_prune(&few, "test").is_empty());
}

#[test]
fn latest_backup_is_the_greatest_name() {
    let names = vec![
        backup_file_name("test", 5, 0),
        backup_file_name("test", 7, 2),
        backup_file_name("test", 7, 1),
        "zzz.cadproj".to_owned(),
    ];
    assert_eq!(latest_backup_name(&names, "test"), Some(backup_file_name("test", 7, 2)));
    assert_eq!(latest_backup_name(&names, "none"), None);
}

#[test]
fn xml_special_characters_are_escaped() {
    assert_eq!(escape_xml("a < b && c > d"), "a &lt; b &amp;&amp; c &gt; d");
    assert_eq!(escape_xml("plain 한글"), "plain 한글");
    assert_eq!(escape_xml(""), "");
}

fn project_with_entity_on(layer: LayerId) -> Project {
    let mut project = Project::default();
    project.drawing.entities.push(Entity { id: EntityId::new(1), layer_id: layer, geometry: (0.0, 0.0) });
    project
}

#[test]
fn save_rejects_a_project_with_a_dangling_layer() {
    let result = validate_for_save(&project_with_entity_on(LayerId::new(99)));
    assert!(matches!(result, Err(IoError::Validation(_))));
    assert!(validate_for_save(&project_with_entity_on(default_layer_id())).is_ok());
}

#[test]
fn loading_checks_schema_version_units_and_validity() {
    let r = check_loaded_project(999, "millimeter".to_owned(), Project::default());
    assert!(matches!(r, Err(IoError::UnsupportedSchemaVersion(999))));
    let r = check_loaded_project(1, "inch".to_owned(), Project::default());
    assert!(matches!(r, Err(IoError::UnsupportedUnits(ref u)) if u == "inch"));
    let r = check_loaded_project(1, "millimeter".to_owned(), project_with_entity_on(LayerId::new(4)));
    assert!(matches!(r, Err(IoError::Validation(_))));
    let r = check_loaded_project(1, "millimeter".to_owned(), project_with_entity_on(default_layer_id()));
    assert_eq!(r.ok(), Some(project_with_entity_on(default_layer_id())));
}

#[test]
fn io_error_messages_describe_the_failure() {
    assert_eq!(IoError::UnsupportedSchemaVersion(999).message(), "unsupported schema_version: 999");
    assert_eq!(IoError::UnsupportedUnits("inch".to_owned()).message(), "unsupported units: inch");
    assert_eq!(
        IoError::RoundTripMismatch.message(),
        "saved file did not round-trip to an identical project"
    );
    let report = match validate_for_save(&project_with_entity_on(LayerId::new(4))) {
        Err(IoError::Validation(report)) => report,
        _ => panic!("a dangling layer reference is refused"),
    };
    assert_eq!(IoError::Validation(report).message(), "validation failed with 1 issue(s)");
    let io = IoError::from(std::io::Error::new(std::io::ErrorKind::Other, "disk full"));
    assert_eq!(io.message(), "file I/O error: disk full");
    let json = IoError::from(serde_json::from_str::<u32>("not json").unwrap_err());
    let text = json.message();
    assert!(text.starts_with("JSON error: "));
    assert!(text.len() > "JSON error: ".len());
}

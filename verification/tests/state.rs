use yac::update::{
    build_file_updated, src_files_updated, yac_toml_updated, YacUpdate,
};

fn record() -> YacUpdate {
    YacUpdate {
        debug_hash: "dh".to_string(),
        release_hash: "rh".to_string(),
        build_hash: "bh".to_string(),
        yac_toml_hash: "mh".to_string(),
        last_src_error: false,
        last_build_error: false,
    }
}

#[test]
fn unchanged_tree_is_not_stale() {
    let update = record();
    let (stale, stored) = src_files_updated(&update, &"dh".to_string(), false);
    assert!(!stale);
    assert!(stored.is_none());
}

#[test]
fn changed_tree_is_stale_and_stores_its_hash() {
    let update = record();
    let (stale, stored) = src_files_updated(&update, &"fresh".to_string(), true);
    assert!(stale);
    let stored = stored.unwrap();
    assert_eq!(stored.release_hash, "fresh");
    assert_eq!(stored.debug_hash, "dh");
    assert_eq!(stored.build_hash, "bh");
}

#[test]
fn profiles_are_tracked_independently() {
    let update = record();
    let (debug_stale, _) = src_files_updated(&update, &"rh".to_string(), false);
    let (release_stale, _) = src_files_updated(&update, &"rh".to_string(), true);
    assert!(debug_stale);
    assert!(!release_stale);
}

#[test]
fn sticky_build_error_forces_recompile_on_unchanged_hash() {
    let update = record().mark_build_error();
    let (stale, stored) = build_file_updated(&update, &"bh".to_string());
    assert!(stale);
    assert!(stored.is_none());
}

#[test]
fn sticky_src_error_forces_rebuild_on_unchanged_hash() {
    let update = record().mark_src_error();
    let (stale, stored) = src_files_updated(&update, &"dh".to_string(), false);
    assert!(stale);
    assert!(stored.is_none());
}

#[test]
fn clearing_the_flags_restores_hash_decisions() {
    let update = record().mark_build_error().mark_src_error();
    let update = update.clear_build_error().clear_src_error();
    assert!(!update.last_build_error);
    assert!(!update.last_src_error);
    let (build_stale, _) = build_file_updated(&update, &"bh".to_string());
    let (src_stale, _) = src_files_updated(&update, &"dh".to_string(), false);
    assert!(!build_stale);
    assert!(!src_stale);
}

#[test]
fn manifest_check_stores_its_own_hash() {
    let update = record();
    let (changed, stored) = yac_toml_updated(&update, &"other".to_string());
    assert!(changed);
    let stored = stored.unwrap();
    assert_eq!(stored.yac_toml_hash, "other");
    assert_eq!(stored.build_hash, "bh");
    let (unchanged, none) = yac_toml_updated(&stored, &"other".to_string());
    assert!(!unchanged);
    assert!(none.is_none());
}

#[test]
fn absent_record_degrades_to_empty() {
    let update = YacUpdate::default();
    assert_eq!(update.debug_hash, "");
    assert_eq!(update.release_hash, "");
    assert!(!update.last_src_error);
    assert!(!update.last_build_error);
    let (stale, stored) = src_files_updated(&update, &"anything".to_string(), false);
    assert!(stale);
    assert!(stored.is_some());
}

use garmr::lock::{check_promoted, exclusion, restored_marker_path, Probe};

#[test]
fn restored_marker_is_the_state_db_plus_suffix() {
    assert_eq!(
        restored_marker_path("/data/garmr/state.redb"),
        "/data/garmr/state.redb.restored"
    );
}

#[test]
fn a_restored_node_does_not_write() {
    assert!(check_promoted("/m", false).is_ok());
    assert_eq!(
        check_promoted("/m", true).unwrap_err(),
        "this node was restored from a backup and has NOT been promoted (marker /m) — run `garmr backup promote` before any writable open"
    );
}

#[test]
fn missing_paths_acquire_trivially() {
    assert_eq!(exclusion(&vec![Probe::Missing]), Ok(true));
    assert_eq!(exclusion(&vec![]), Ok(true));
}

#[test]
fn a_held_database_reports_not_acquirable() {
    assert_eq!(exclusion(&vec![Probe::Held, Probe::Busy]), Ok(false));
    assert_eq!(exclusion(&vec![Probe::Held, Probe::Missing]), Ok(true));
    assert_eq!(
        exclusion(&vec![Probe::Failed("corrupt".into()), Probe::Busy]),
        Err("corrupt".to_string())
    );
}

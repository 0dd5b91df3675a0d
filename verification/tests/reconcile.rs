use wlscsr::exclusion::partition_heads;
use wlscsr::fingerprint::fingerprint;
use wlscsr::reconcile::{load_head_config, reconcile, LoadFailure, RestoreError};
use wlscsr::restore::{head_names, plan_restore, RestorePlan};
use wlscsr::store::snapshot_records;
use wlscsr::types::{DisplayIdentity, Head, HeadConfig};

fn geometry(width: i32, x: i32) -> HeadConfig {
    HeadConfig {
        width,
        height: 1080,
        refresh_rate: "60".to_string(),
        x,
        y: 0,
        scale: "1".to_string(),
        transform: 0,
        vrr: false,
    }
}

fn head(
    name: Option<&str>,
    make: &str,
    model: &str,
    serial: &str,
    config: Option<HeadConfig>,
) -> Head {
    Head {
        name: name.map(|n| n.to_string()),
        make: make.to_string(),
        model: model.to_string(),
        serial: serial.to_string(),
        config,
    }
}

fn identity(make: &str, model: &str, serial: &str) -> DisplayIdentity {
    DisplayIdentity {
        make: make.to_string(),
        model: model.to_string(),
        serial: serial.to_string(),
    }
}

#[test]
fn save_then_restore_follows_the_identity_not_the_name() {
    let g1 = geometry(1920, 0);
    let g2 = geometry(2560, 1920);
    let at_save = [
        head(Some("DP-1"), "A", "B", "1", Some(g1.clone())),
        head(Some("DP-2"), "C", "D", "2", Some(g2.clone())),
    ];
    let snapshot = snapshot_records(&at_save);
    let key_at_save = fingerprint(&at_save);

    // The second enumeration lists the displays the other way round and has
    // handed the names out anew; the geometry is whatever it is now.
    let enumerated = [
        head(Some("DP-1"), "C", "D", "2", None),
        head(Some("DP-2"), "A", "B", "1", Some(geometry(800, 0))),
    ];
    let (active, ignored) = partition_heads(&enumerated, &[]);
    assert_eq!(active, enumerated.to_vec());
    assert_eq!(fingerprint(&active), key_at_save);

    let restored = reconcile(&active, &ignored, snapshot).unwrap();
    assert_eq!(
        restored,
        vec![
            head(Some("DP-2"), "A", "B", "1", Some(g1)),
            head(Some("DP-1"), "C", "D", "2", Some(g2)),
        ]
    );
}

#[test]
fn snapshot_records_drop_names_and_sort() {
    let heads = [
        head(Some("DP-2"), "C", "D", "2", Some(geometry(2560, 0))),
        head(Some("DP-1"), "A", "B", "1", None),
    ];
    assert_eq!(
        snapshot_records(&heads),
        vec![
            head(None, "A", "B", "1", None),
            head(None, "C", "D", "2", Some(geometry(2560, 0))),
        ]
    );
    assert_eq!(snapshot_records(&[]), Vec::<Head>::new());
}

#[test]
fn restore_with_one_display_more_is_a_length_mismatch() {
    let at_save = [
        head(Some("DP-1"), "A", "B", "1", Some(geometry(1920, 0))),
        head(Some("DP-2"), "C", "D", "2", Some(geometry(2560, 1920))),
    ];
    let snapshot = snapshot_records(&at_save);
    let active = [
        head(Some("DP-1"), "A", "B", "1", None),
        head(Some("DP-2"), "C", "D", "2", None),
        head(Some("DP-3"), "E", "F", "3", None),
    ];
    assert_eq!(
        reconcile(&active, &[], snapshot.clone()),
        Err(RestoreError::LengthMismatch { snapshot_len: 2, connected_len: 3 })
    );
    let plan = plan_restore(&active, &[], Ok(snapshot.clone()), false);
    assert_eq!(
        plan,
        RestorePlan::Fail {
            cause: RestoreError::LengthMismatch { snapshot_len: 2, connected_len: 3 }
        }
    );
    let plan = plan_restore(&active, &[], Ok(snapshot), true);
    assert!(!matches!(plan, RestorePlan::Apply { .. }));
}

#[test]
fn length_mismatch_does_not_count_ignored_displays() {
    let snapshot = vec![head(None, "A", "B", "1", Some(geometry(1920, 0)))];
    let active: [Head; 0] = [];
    let ignored = [head(Some("eDP-1"), "A", "B", "1", None)];
    assert_eq!(
        reconcile(&active, &ignored, snapshot),
        Err(RestoreError::LengthMismatch { snapshot_len: 1, connected_len: 0 })
    );
}

#[test]
fn restore_with_another_display_is_an_identity_mismatch() {
    let snapshot = vec![
        head(None, "A", "B", "1", Some(geometry(1920, 0))),
        head(None, "C", "D", "2", Some(geometry(2560, 1920))),
        head(None, "E", "F", "3", None),
    ];
    let active = [
        head(Some("DP-1"), "A", "B", "1", None),
        head(Some("DP-2"), "C", "D", "9", None),
        head(Some("DP-3"), "E", "F", "4", None),
    ];
    assert_eq!(
        reconcile(&active, &[], snapshot.clone()),
        Err(RestoreError::IdentityMismatch {
            index: 1,
            saved: identity("C", "D", "2"),
            connected: identity("C", "D", "9"),
        })
    );
    let plan = plan_restore(&active, &[], Ok(snapshot), false);
    assert!(matches!(
        plan,
        RestorePlan::Fail { cause: RestoreError::IdentityMismatch { index: 1, .. } }
    ));
}

#[test]
fn identity_mismatch_names_the_first_place_that_differs() {
    let snapshot = vec![head(None, "B", "", "", None), head(None, "A", "", "", None)];
    let active = [head(Some("x"), "A", "", "x", None), head(Some("y"), "B", "", "y", None)];
    assert_eq!(
        reconcile(&active, &[], snapshot),
        Err(RestoreError::IdentityMismatch {
            index: 0,
            saved: identity("A", "", ""),
            connected: identity("A", "", "x"),
        })
    );
}

#[test]
fn reconcile_sorts_the_snapshot_before_matching() {
    let snapshot = vec![
        head(None, "C", "D", "2", Some(geometry(2560, 1920))),
        head(None, "A", "B", "1", Some(geometry(1920, 0))),
    ];
    let active = [
        head(Some("HDMI-A-1"), "A", "B", "1", None),
        head(Some("DP-7"), "C", "D", "2", None),
    ];
    assert_eq!(
        reconcile(&active, &[], snapshot),
        Ok(vec![
            head(Some("HDMI-A-1"), "A", "B", "1", Some(geometry(1920, 0))),
            head(Some("DP-7"), "C", "D", "2", Some(geometry(2560, 1920))),
        ])
    );
}

#[test]
fn reconcile_sorts_the_active_displays_before_matching() {
    let snapshot = vec![
        head(None, "A", "B", "1", Some(geometry(1920, 0))),
        head(None, "C", "D", "2", Some(geometry(2560, 1920))),
        head(None, "E", "F", "3", None),
    ];
    let active = [
        head(Some("DP-7"), "E", "F", "3", Some(geometry(800, 0))),
        head(Some("DP-8"), "A", "B", "1", None),
        head(Some("DP-9"), "C", "D", "2", None),
    ];
    assert_eq!(
        reconcile(&active, &[], snapshot),
        Ok(vec![
            head(Some("DP-8"), "A", "B", "1", Some(geometry(1920, 0))),
            head(Some("DP-9"), "C", "D", "2", Some(geometry(2560, 1920))),
            head(Some("DP-7"), "E", "F", "3", None),
        ])
    );
}

#[test]
fn reconcile_replaces_a_name_that_the_snapshot_carries() {
    let snapshot = vec![head(Some("old"), "A", "B", "1", Some(geometry(1920, 0)))];
    let named = [head(Some("new"), "A", "B", "1", None)];
    assert_eq!(
        reconcile(&named, &[], snapshot.clone()),
        Ok(vec![head(Some("new"), "A", "B", "1", Some(geometry(1920, 0)))])
    );
    let unnamed = [head(None, "A", "B", "1", None)];
    assert_eq!(
        reconcile(&unnamed, &[], snapshot),
        Ok(vec![head(None, "A", "B", "1", Some(geometry(1920, 0)))])
    );
}

#[test]
fn reconcile_appends_the_ignored_displays_switched_off() {
    let snapshot = vec![head(None, "A", "B", "1", Some(geometry(1920, 0)))];
    let active = [head(Some("DP-1"), "A", "B", "1", None)];
    let ignored = [
        head(Some("eDP-1"), "L", "M", "", Some(geometry(1366, 0))),
        head(Some("eDP-2"), "L", "M", "", None),
    ];
    assert_eq!(
        reconcile(&active, &ignored, snapshot),
        Ok(vec![
            head(Some("DP-1"), "A", "B", "1", Some(geometry(1920, 0))),
            head(Some("eDP-1"), "L", "M", "", None),
            head(Some("eDP-2"), "L", "M", "", None),
        ])
    );
}

#[test]
fn reconcile_of_nothing_gives_the_ignored_displays() {
    let ignored = [head(Some("eDP-1"), "L", "M", "", Some(geometry(1366, 0)))];
    assert_eq!(
        reconcile(&[], &ignored, Vec::new()),
        Ok(vec![head(Some("eDP-1"), "L", "M", "", None)])
    );
    assert_eq!(reconcile(&[], &[], Vec::new()), Ok(Vec::new()));
}

#[test]
fn reconcile_matches_twins_in_snapshot_order() {
    let snapshot = vec![
        head(None, "A", "B", "", Some(geometry(1920, 0))),
        head(None, "A", "B", "", Some(geometry(1920, 1920))),
    ];
    let active = [head(Some("DP-1"), "A", "B", "", None), head(Some("DP-2"), "A", "B", "", None)];
    assert_eq!(
        reconcile(&active, &[], snapshot),
        Ok(vec![
            head(Some("DP-1"), "A", "B", "", Some(geometry(1920, 0))),
            head(Some("DP-2"), "A", "B", "", Some(geometry(1920, 1920))),
        ])
    );
}

#[test]
fn load_failure_is_handed_on() {
    let active = [head(Some("DP-1"), "A", "B", "1", None)];
    assert_eq!(
        load_head_config(&active, &[], Err(LoadFailure::NotFound)),
        Err(RestoreError::SnapshotNotFound)
    );
    assert_eq!(
        load_head_config(
            &active,
            &[],
            Err(LoadFailure::Corrupt { detail: "expected value at line 1".to_string() })
        ),
        Err(RestoreError::SnapshotCorrupt { detail: "expected value at line 1".to_string() })
    );
}

#[test]
fn load_head_config_reconciles_what_was_loaded() {
    let active = [head(Some("DP-1"), "A", "B", "1", None)];
    let loaded = Ok(vec![head(None, "A", "B", "1", Some(geometry(1920, 0)))]);
    assert_eq!(
        load_head_config(&active, &[], loaded),
        Ok(vec![head(Some("DP-1"), "A", "B", "1", Some(geometry(1920, 0)))])
    );
}

#[test]
fn plan_restore_applies_a_match() {
    let active = [head(Some("DP-1"), "A", "B", "1", None)];
    let ignored = [head(Some("eDP-1"), "L", "M", "", Some(geometry(1366, 0)))];
    let loaded = Ok(vec![head(None, "A", "B", "1", Some(geometry(1920, 0)))]);
    for fallback in [false, true] {
        assert_eq!(
            plan_restore(&active, &ignored, loaded.clone(), fallback),
            RestorePlan::Apply {
                heads: vec![
                    head(Some("DP-1"), "A", "B", "1", Some(geometry(1920, 0))),
                    head(Some("eDP-1"), "L", "M", "", None),
                ]
            }
        );
    }
}

#[test]
fn plan_restore_falls_back_only_when_asked() {
    let active = [
        head(Some("DP-3"), "E", "F", "3", None),
        head(None, "C", "D", "2", None),
        head(Some("DP-1"), "A", "B", "1", None),
    ];
    let ignored = [head(Some("eDP-1"), "L", "M", "", None)];
    assert_eq!(
        plan_restore(&active, &ignored, Err(LoadFailure::NotFound), false),
        RestorePlan::Fail { cause: RestoreError::SnapshotNotFound }
    );
    assert_eq!(
        plan_restore(&active, &ignored, Err(LoadFailure::NotFound), true),
        RestorePlan::Fallback {
            cause: RestoreError::SnapshotNotFound,
            active_head_names: vec!["DP-3".to_string(), "DP-1".to_string()],
            inactive_head_names: vec!["eDP-1".to_string()],
        }
    );
}

#[test]
fn fallback_plan_is_the_same_whatever_was_saved() {
    let active = [head(Some("DP-1"), "A", "B", "1", None)];
    let ignored = [head(Some("eDP-1"), "L", "M", "", None)];
    let names = |plan: RestorePlan| match plan {
        RestorePlan::Fallback { active_head_names, inactive_head_names, .. } => {
            (active_head_names, inactive_head_names)
        }
        other => panic!("no fallback: {:?}", other),
    };
    let missing = names(plan_restore(&active, &ignored, Err(LoadFailure::NotFound), true));
    let corrupt = names(plan_restore(
        &active,
        &ignored,
        Err(LoadFailure::Corrupt { detail: String::new() }),
        true,
    ));
    let wrong = names(plan_restore(&active, &ignored, Ok(Vec::new()), true));
    let again = names(plan_restore(&active, &ignored, Ok(Vec::new()), true));
    assert_eq!(missing, (vec!["DP-1".to_string()], vec!["eDP-1".to_string()]));
    assert_eq!(missing, corrupt);
    assert_eq!(missing, wrong);
    assert_eq!(wrong, again);
}

#[test]
fn head_names_pass_over_displays_without_a_name() {
    let heads = [
        head(Some("DP-1"), "A", "B", "1", None),
        head(None, "C", "D", "2", None),
        head(Some(""), "E", "F", "3", None),
    ];
    assert_eq!(head_names(&heads), vec!["DP-1".to_string(), String::new()]);
    assert_eq!(head_names(&[]), Vec::<String>::new());
}

#[test]
fn describe_names_what_went_wrong() {
    let path = "/state/wlscsr/abc.json";
    assert_eq!(
        RestoreError::SnapshotNotFound.describe(path),
        "Screen config /state/wlscsr/abc.json not found"
    );
    assert_eq!(
        RestoreError::SnapshotCorrupt { detail: "EOF while parsing".to_string() }.describe(path),
        "Screen config /state/wlscsr/abc.json cannot be read: EOF while parsing"
    );
    assert_eq!(
        RestoreError::LengthMismatch { snapshot_len: 2, connected_len: 13 }.describe(path),
        "Screen config /state/wlscsr/abc.json does not match connected heads (2!=13)"
    );
    assert_eq!(
        RestoreError::IdentityMismatch {
            index: 10,
            saved: identity("Dell Inc.", "DELL U2720Q", "7RNT123"),
            connected: identity("Dell Inc.", "DELL U2720Q", ""),
        }
        .describe(path),
        "Screen config /state/wlscsr/abc.json does not match connected heads (idx 10: saved \
         Dell Inc. DELL U2720Q 7RNT123, connected Dell Inc. DELL U2720Q )"
    );
}

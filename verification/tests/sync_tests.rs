use zeroclaw::sync::{
    OPEN_SKILLS_SYNC_INTERVAL_SECS, SyncAction, clawpilot_config_path, open_skills_enabled,
    plan_sync, resolve_open_skills_dir, should_sync_open_skills,
};

#[test]
fn toggle_falsy_values_disable_sync() {
    for falsy in ["0", "false", "off", "no", " FALSE ", "Off", "NO"] {
        let v = falsy.to_string();
        assert!(!open_skills_enabled(Some(&v), true), "{falsy:?} should disable");
    }
    for truthy in ["1", "true", "yes", "on", "anything"] {
        let v = truthy.to_string();
        assert!(open_skills_enabled(Some(&v), false), "{truthy:?} should enable");
    }
    assert!(open_skills_enabled(None, true));
    assert!(!open_skills_enabled(None, false));
}

#[test]
fn sync_dir_prefers_non_blank_override() {
    let over = " /data/open-skills ".to_string();
    let home = "/home/u".to_string();
    assert_eq!(
        resolve_open_skills_dir(Some(&over), Some(&home)),
        Some("/data/open-skills".to_string())
    );
    let blank = "   ".to_string();
    assert_eq!(
        resolve_open_skills_dir(Some(&blank), Some(&home)),
        Some("/home/u/open-skills".to_string())
    );
    assert_eq!(resolve_open_skills_dir(None, Some(&home)), Some("/home/u/open-skills".to_string()));
    assert_eq!(resolve_open_skills_dir(None, None), None);
}

#[test]
fn staleness_follows_the_seven_day_interval() {
    assert!(should_sync_open_skills(None));
    assert!(should_sync_open_skills(Some(OPEN_SKILLS_SYNC_INTERVAL_SECS)));
    assert!(should_sync_open_skills(Some(OPEN_SKILLS_SYNC_INTERVAL_SECS + 1)));
    assert!(!should_sync_open_skills(Some(OPEN_SKILLS_SYNC_INTERVAL_SECS - 1)));
    assert!(!should_sync_open_skills(Some(0)));
    assert_eq!(OPEN_SKILLS_SYNC_INTERVAL_SECS, 7 * 24 * 60 * 60);
}

#[test]
fn sync_plan_covers_every_state() {
    assert_eq!(plan_sync(false, true, Some(0), true), SyncAction::Skip);
    assert_eq!(plan_sync(true, false, None, false), SyncAction::Clone);
    assert_eq!(plan_sync(true, true, Some(0), true), SyncAction::UseExisting);
    assert_eq!(plan_sync(true, true, None, true), SyncAction::Pull);
    assert_eq!(
        plan_sync(true, true, Some(OPEN_SKILLS_SYNC_INTERVAL_SECS), false),
        SyncAction::RefreshMarkerOnly
    );
}

#[test]
fn config_path_lives_under_a_home() {
    let path = clawpilot_config_path();
    assert!(path.ends_with(".clawpilot/clawpilot.json") || path == ".clawpilot/clawpilot.json");
    assert!(path.contains(".clawpilot"));
}

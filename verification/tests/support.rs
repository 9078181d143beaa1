use nimble::debug_log::{format_timestamp, log_file_path, log_line, timestamp};
use nimble::deploy::{
    deploy_plan, deployed_message, link_error, parent_error, removal_error, skill_dir, DeployPlan,
    Removal, TargetFound,
};
use nimble::focus::{capture_previous_app, restore_previous_app};
use nimble::migration::{legacy_config_dir, should_migrate};
use nimble::watcher::{apply_command, is_relevant_event, FsEventKind, WatchConfig, WatcherCommand};

// ── Debug log ───────────────────────────────────────────────────────────

#[test]
fn timestamp_is_zero_padded_time_of_day() {
    // 1970-01-02 03:04:05.006 UTC
    assert_eq!(format_timestamp(86400 + 3 * 3600 + 4 * 60 + 5, 6), "[03:04:05.006]");
    assert_eq!(format_timestamp(0, 0), "[00:00:00.000]");
    assert_eq!(format_timestamp(86399, 999), "[23:59:59.999]");
}

#[test]
fn log_creates_file_and_appends() {
    let mut contents = String::new();
    contents.push_str(&log_line(&timestamp(), "hello"));
    contents.push_str(&log_line(&timestamp(), "world"));
    assert!(contents.contains("hello"));
    assert!(contents.contains("world"));
    let lines: Vec<&str> = contents.trim().lines().collect();
    assert_eq!(lines.len(), 2);
    assert!(lines[0].starts_with('['));
}

#[test]
fn timestamp_has_fixed_shape() {
    let t = timestamp();
    assert_eq!(t.len(), 14);
    assert!(t.starts_with('[') && t.ends_with(']'));
    assert_eq!(&t[3..4], ":");
    assert_eq!(&t[9..10], ".");
}

#[test]
fn log_line_and_path() {
    assert_eq!(log_line("[00:00:01.000]", "msg"), "[00:00:01.000] msg\n");
    assert_eq!(log_file_path("/cfg"), "/cfg/debug.log");
}

// ── Watcher ─────────────────────────────────────────────────────────────

fn paths(ps: &[&str]) -> Vec<String> {
    ps.iter().map(|p| p.to_string()).collect()
}

#[test]
fn command_and_script_changes_are_relevant() {
    assert!(is_relevant_event(FsEventKind::Create, &paths(&["/c/a.yaml"])));
    assert!(is_relevant_event(FsEventKind::Modify, &paths(&["/c/x.txt", "/c/run.sh"])));
    assert!(is_relevant_event(FsEventKind::Modify, &paths(&["/c/t.ps1"])));
    assert!(!is_relevant_event(FsEventKind::Modify, &paths(&["/c/list.tsv"])));
    assert!(!is_relevant_event(FsEventKind::Create, &paths(&[])));
}

#[test]
fn any_removal_is_relevant() {
    assert!(is_relevant_event(FsEventKind::Remove, &paths(&["/c/sub"])));
    assert!(!is_relevant_event(FsEventKind::Remove, &paths(&[])));
    assert!(!is_relevant_event(FsEventKind::Other, &paths(&["/c/a.yaml"])));
}

#[test]
fn reconfigure_switches_only_on_new_directory() {
    let cur = WatchConfig { commands_dir: "/a".to_string(), allow_duplicates: false, shared_dir: "shared".to_string() };
    let (cfg, switch) = apply_command(
        &cur,
        WatcherCommand::Reconfigure { commands_dir: "/a".to_string(), allow_duplicates: true, shared_dir: "s2".to_string() },
    );
    assert!(!switch);
    assert!(cfg.allow_duplicates);
    assert_eq!(cfg.shared_dir, "s2");
    let (cfg, switch) = apply_command(
        &cfg,
        WatcherCommand::Reconfigure { commands_dir: "/b".to_string(), allow_duplicates: true, shared_dir: "s2".to_string() },
    );
    assert!(switch);
    assert_eq!(cfg.commands_dir, "/b");
    for same in ["/b/", "/b/.", "//b"] {
        let (_, switch) = apply_command(
            &cfg,
            WatcherCommand::Reconfigure { commands_dir: same.to_string(), allow_duplicates: true, shared_dir: "s2".to_string() },
        );
        assert!(!switch, "{same}");
    }
    let (_, switch) = apply_command(
        &cfg,
        WatcherCommand::Reconfigure { commands_dir: "b".to_string(), allow_duplicates: true, shared_dir: "s2".to_string() },
    );
    assert!(switch);
}

// ── Deploying the skill ─────────────────────────────────────────────────

#[test]
fn deploy_fails_without_installed_files() {
    match deploy_plan("/cfg/skills/nimble-authoring", false, Some("/home/u"), TargetFound::Absent) {
        DeployPlan::Fail(m) => assert_eq!(m, "Skill files not found in config directory. Please restart Nimble."),
        other => panic!("unexpected {other:?}"),
    }
}

#[test]
fn deploy_fails_without_home() {
    match deploy_plan("/cfg/skills/nimble-authoring", true, None, TargetFound::Absent) {
        DeployPlan::Fail(m) => assert_eq!(m, "Could not determine home directory"),
        other => panic!("unexpected {other:?}"),
    }
}

#[test]
fn deploy_up_to_date_link_does_nothing() {
    let src = skill_dir("/cfg");
    assert_eq!(src, "/cfg/skills/nimble-authoring");
    match deploy_plan(&src, true, Some("/home/u"), TargetFound::Symlink(Ok(src.clone()))) {
        DeployPlan::UpToDate(m) => assert_eq!(m, "Already deployed — symlink is up to date."),
        other => panic!("unexpected {other:?}"),
    }
}

#[test]
fn deploy_compares_link_as_path() {
    let src = "/cfg/skills/nimble-authoring";
    for dest in ["/cfg/skills/nimble-authoring/", "/cfg//skills/./nimble-authoring"] {
        match deploy_plan(src, true, Some("/home/u"), TargetFound::Symlink(Ok(dest.to_string()))) {
            DeployPlan::UpToDate(_) => {}
            other => panic!("unexpected {other:?} for {dest}"),
        }
    }
    for dest in ["cfg/skills/nimble-authoring", "/cfg/skills/nimble", "/cfg/skills/../nimble-authoring"] {
        match deploy_plan(src, true, Some("/home/u"), TargetFound::Symlink(Ok(dest.to_string()))) {
            DeployPlan::Link { remove, .. } => assert_eq!(remove, Some(Removal::File)),
            other => panic!("unexpected {other:?} for {dest}"),
        }
    }
}

#[test]
fn deploy_replaces_stale_targets() {
    let src = "/cfg/skills/nimble-authoring";
    for (found, want) in [
        (TargetFound::Absent, None),
        (TargetFound::Symlink(Ok("/old".to_string())), Some(Removal::File)),
        (TargetFound::Directory, Some(Removal::Directory)),
        (TargetFound::File, Some(Removal::File)),
    ] {
        match deploy_plan(src, true, Some("/home/u"), found) {
            DeployPlan::Link { remove, parent, source, target } => {
                assert_eq!(remove, want);
                assert_eq!(parent, "/home/u/.copilot/skills");
                assert_eq!(source, src);
                assert_eq!(target, "/home/u/.copilot/skills/nimble-authoring");
            }
            other => panic!("unexpected {other:?}"),
        }
    }
}

#[test]
fn deploy_unreadable_link_fails() {
    match deploy_plan("/s", true, Some("/h"), TargetFound::Symlink(Err("bad link".to_string()))) {
        DeployPlan::Fail(m) => assert_eq!(m, "bad link"),
        other => panic!("unexpected {other:?}"),
    }
}

#[test]
fn deploy_messages() {
    assert_eq!(removal_error(Removal::Directory, "busy"), "Could not remove existing directory: busy");
    assert_eq!(removal_error(Removal::File, "busy"), "Could not remove existing file: busy");
    assert_eq!(parent_error("ro"), "Could not create .copilot/skills/: ro");
    assert_eq!(link_error("exists"), "Could not create symlink: exists");
    assert_eq!(deployed_message("/s"), "Deployed — symlinked to /s");
}

// ── Focus records ───────────────────────────────────────────────────────

#[test]
fn capture_skips_own_process() {
    assert_eq!(capture_previous_app(Some(4242), Some(4242)), None);
    assert_eq!(capture_previous_app(Some(77), Some(4242)).as_deref(), Some("77"));
    assert_eq!(capture_previous_app(Some(0), None).as_deref(), Some("0"));
    assert_eq!(capture_previous_app(None, Some(1)), None);
}

#[test]
fn restore_reads_back_records() {
    assert_eq!(restore_previous_app("77"), Some(77));
    assert_eq!(restore_previous_app("+5"), Some(5));
    assert_eq!(restore_previous_app("18446744073709551615"), Some(u64::MAX));
    assert_eq!(restore_previous_app("18446744073709551616"), None);
    assert_eq!(restore_previous_app(""), None);
    assert_eq!(restore_previous_app("+"), None);
    assert_eq!(restore_previous_app("-3"), None);
    assert_eq!(restore_previous_app("12a"), None);
    for id in [0u64, 9, 10, 123456789, u64::MAX] {
        let rec = capture_previous_app(Some(id), None).unwrap();
        assert_eq!(restore_previous_app(&rec), Some(id));
        assert_eq!(restore_previous_app(&rec), rec.parse::<u64>().ok());
    }
}

// ── Config directory migration ──────────────────────────────────────────

#[test]
fn legacy_dir_is_a_sibling() {
    assert_eq!(legacy_config_dir("/home/u/.config/nimble").as_deref(), Some("/home/u/.config/io.switchpanel.nimble"));
    assert_eq!(legacy_config_dir("/nimble").as_deref(), Some("/io.switchpanel.nimble"));
    assert_eq!(legacy_config_dir("nimble").as_deref(), Some("io.switchpanel.nimble"));
    assert_eq!(legacy_config_dir("/"), None);
    assert_eq!(legacy_config_dir(""), None);
}

#[test]
fn migrate_only_into_a_missing_directory() {
    assert!(should_migrate(true, false));
    assert!(!should_migrate(true, true));
    assert!(!should_migrate(false, false));
}

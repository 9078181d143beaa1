use nimble::env::{EnvMap, ScriptEnv};
use nimble::paths::{join_path, resolve_script_path};
use nimble::files::{is_command_file_path, sort_for_loading, FileStamp};
use nimble::loader::{load_commands, preflight_script_path, CommandFile, FileContent, LoadResult, ScriptState};
use nimble::schema::{
    default_arg_mode, Action, ArgMode, Command, CopyTextConfig, DynamicListConfig, OpenUrlConfig,
    PasteTextConfig, StaticListConfig,
};

const ROOT: &str = "/home/u/.config/nimble/commands";

fn command(phrase: &str, title: &str, enabled: bool, action: Action) -> Command {
    Command {
        phrase: phrase.to_string(),
        title: title.to_string(),
        enabled,
        env: EnvMap::new(),
        action,
        source_dir: String::new(),
        source_file: String::new(),
    }
}

fn open_url(url: &str) -> Action {
    Action::OpenUrl(OpenUrlConfig { url: url.to_string() })
}

fn paste_text(text: &str) -> Action {
    Action::PasteText(PasteTextConfig { text: text.to_string() })
}

fn copy_text(text: &str) -> Action {
    Action::CopyText(CopyTextConfig { text: text.to_string() })
}

fn dynamic_list(script: &str) -> Action {
    Action::DynamicList(DynamicListConfig { script: script.to_string(), arg: default_arg_mode(), item_action: None })
}

fn parsed(cmd: Command) -> FileContent {
    FileContent::Parsed(cmd, ScriptState::Present)
}

/// Load files that share one modification time: they load in path order.
fn load(files: Vec<(&str, FileContent)>, allow_duplicates: bool) -> LoadResult {
    let stamps: Vec<FileStamp> = files
        .iter()
        .map(|(p, _)| FileStamp { path: p.to_string(), modified: Some(1_700_000_000_000_000_000) })
        .collect();
    let order = sort_for_loading(stamps);
    let mut pending: Vec<Option<(&str, FileContent)>> = files.into_iter().map(Some).collect();
    let mut sorted = Vec::new();
    for s in order {
        let i = pending
            .iter()
            .position(|f| matches!(f, Some((p, _)) if *p == s.path))
            .unwrap();
        let (p, content) = pending[i].take().unwrap();
        sorted.push(CommandFile { rel_path: p.to_string(), content });
    }
    load_commands(sorted, allow_duplicates, ROOT, "shared")
}

// ── Deduplication ───────────────────────────────────────────────────────

#[test]
fn duplicate_phrase_emits_warning_and_keeps_first() {
    let result = load(
        vec![
            ("b.yaml", parsed(command("open google", "Second", true, open_url("https://duckduckgo.com")))),
            ("a.yaml", parsed(command("open google", "First", true, open_url("https://www.google.com")))),
        ],
        false,
    );
    assert_eq!(result.commands.len(), 1, "only one command should survive");
    assert_eq!(result.duplicates.len(), 1, "one duplicate warning expected");
    assert_eq!(result.duplicates[0].phrase, "open google");
    assert_eq!(result.commands[0].title, "First");
    assert_eq!(result.duplicates[0].kept, "a.yaml");
    assert_eq!(result.duplicates[0].ignored, "b.yaml");
}

#[test]
fn duplicate_phrase_case_insensitive() {
    let result = load(
        vec![
            ("a.yaml", parsed(command("Open Google", "First", true, open_url("https://www.google.com")))),
            ("b.yaml", parsed(command("open google", "Second", true, open_url("https://duckduckgo.com")))),
        ],
        false,
    );
    assert_eq!(result.commands.len(), 1, "case-insensitive duplicate should be caught");
    assert_eq!(result.duplicates.len(), 1);
}

#[test]
fn duplicate_warning_records_lowercase_phrase() {
    let result = load(
        vec![
            ("a.yaml", parsed(command("open google", "First", true, open_url("https://a.com")))),
            ("b.yaml", parsed(command("Open Google", "Second", true, open_url("https://b.com")))),
        ],
        false,
    );
    assert_eq!(result.duplicates.len(), 1);
    assert_eq!(result.duplicates[0].phrase, "open google");
    assert_eq!(result.duplicates[0].kept, "a.yaml");
    assert_eq!(result.duplicates[0].ignored, "b.yaml");
}

#[test]
fn multiple_duplicates_of_same_phrase() {
    let result = load(
        vec![
            ("a.yaml", parsed(command("open google", "First", true, open_url("https://a.com")))),
            ("b.yaml", parsed(command("open google", "Second", true, open_url("https://b.com")))),
            ("c.yaml", parsed(command("open google", "Third", true, open_url("https://c.com")))),
        ],
        false,
    );
    assert_eq!(result.commands.len(), 1, "only one command survives");
    assert_eq!(result.duplicates.len(), 2, "two duplicate warnings");
    assert!(result.duplicates.iter().all(|d| d.kept == "a.yaml"));
}

#[test]
fn duplicates_of_different_phrases_tracked_separately() {
    let result = load(
        vec![
            ("a-open.yaml", parsed(command("open google", "First Open", true, open_url("https://a.com")))),
            ("b-open.yaml", parsed(command("open google", "Second Open", true, open_url("https://b.com")))),
            ("a-paste.yaml", parsed(command("paste email", "First Paste", true, paste_text("a@test.com")))),
            ("b-paste.yaml", parsed(command("paste email", "Second Paste", true, paste_text("b@test.com")))),
        ],
        false,
    );
    assert_eq!(result.commands.len(), 2, "one of each phrase survives");
    assert_eq!(result.duplicates.len(), 2, "one duplicate warning per phrase");
}

#[test]
fn allow_duplicates_true_loads_all_commands() {
    let result = load(
        vec![
            ("a.yaml", parsed(command("open google", "First", true, open_url("https://www.google.com")))),
            ("b.yaml", parsed(command("open google", "Second", true, open_url("https://duckduckgo.com")))),
        ],
        true,
    );
    assert_eq!(result.commands.len(), 2, "both commands should load when allow_duplicates=true");
    assert!(result.duplicates.is_empty(), "no warnings when allow_duplicates=true");
}

#[test]
fn disabled_command_not_counted_as_duplicate() {
    let result = load(
        vec![
            ("a.yaml", parsed(command("open google", "Disabled", false, open_url("https://disabled.com")))),
            ("b.yaml", parsed(command("open google", "Enabled", true, open_url("https://enabled.com")))),
        ],
        false,
    );
    assert_eq!(result.commands.len(), 1, "enabled command loads");
    assert!(result.duplicates.is_empty(), "disabled command does not trigger duplicate");
    assert_eq!(result.commands[0].title, "Enabled");
}

#[test]
fn malformed_command_not_counted_as_duplicate() {
    let result = load(
        vec![
            (
                "bad.yaml",
                FileContent::Malformed(
                    "action: unknown variant `unknown_type`, expected one of `open_url`, `paste_text`, `copy_text`, `static_list`, `dynamic_list`, `script_action` at line 3 column 3".to_string(),
                ),
            ),
            ("good.yaml", parsed(command("open google", "Good", true, open_url("https://google.com")))),
        ],
        false,
    );
    assert_eq!(result.commands.len(), 1, "valid command loads");
    assert!(result.duplicates.is_empty(), "malformed file does not count as duplicate");
}

// ── Disabled, malformed, unreadable ─────────────────────────────────────

#[test]
fn disabled_command_is_skipped() {
    let result = load(
        vec![("disabled.yaml", parsed(command("hidden cmd", "Hidden", false, open_url("https://example.com"))))],
        true,
    );
    assert!(result.commands.is_empty(), "disabled command must be filtered out");
    assert!(result.skipped.is_empty());
}

#[test]
fn malformed_yaml_is_skipped_without_panic() {
    let result = load(
        vec![
            (
                "bad.yaml",
                FileContent::Malformed("mapping values are not allowed in this context at line 1 column 9".to_string()),
            ),
            ("good.yaml", parsed(command("open google", "Open Google", true, open_url("https://www.google.com")))),
        ],
        true,
    );
    assert_eq!(result.commands.len(), 1, "only the valid command should load");
    assert_eq!(result.skipped.len(), 1, "malformed file should appear in skipped");
    assert!(result.skipped[0].file.contains("bad.yaml"));
    assert!(!result.skipped[0].reason.is_empty());
}

#[test]
fn skipped_includes_unreadable_file_reason() {
    let result = load(
        vec![(
            "broken.yaml",
            FileContent::Unreadable("Permission denied (os error 13)".to_string()),
        )],
        true,
    );
    assert_eq!(result.commands.len(), 0);
    assert_eq!(result.skipped.len(), 1);
    assert!(result.skipped[0].file.contains("broken.yaml"));
    assert!(result.skipped[0].reason.len() > 5);
    assert_eq!(result.skipped[0].reason, "Could not read file: Permission denied (os error 13)");
}

#[test]
fn multiple_malformed_files_do_not_prevent_valid_loading() {
    let result = load(
        vec![
            ("bad1.yaml", FileContent::Malformed("mapping values are not allowed in this context at line 1 column 4".to_string())),
            ("bad2.yaml", FileContent::Malformed("missing field `title`".to_string())),
            ("bad3.yaml", FileContent::Malformed("EOF while parsing a value".to_string())),
            ("good.yaml", parsed(command("open google", "Open Google", true, open_url("https://www.google.com")))),
        ],
        true,
    );
    assert_eq!(result.commands.len(), 1, "only valid command should load");
    assert_eq!(result.commands[0].phrase, "open google");
    assert_eq!(result.skipped.len(), 3);
}

// ── Reserved phrases ────────────────────────────────────────────────────

#[test]
fn reserved_slash_phrase_is_rejected() {
    let result = load(
        vec![("slash.yaml", parsed(command("/ctx set foo", "Bad", true, open_url("https://example.com"))))],
        true,
    );
    assert!(result.commands.is_empty(), "/phrase must not load as a command");
    assert_eq!(result.reserved.len(), 1);
    assert_eq!(result.reserved[0].phrase, "/ctx set foo");
}

#[test]
fn reserved_slash_any_suffix_is_rejected() {
    let result = load(
        vec![("slash2.yaml", parsed(command("/ctx reset", "Bad", true, open_url("https://example.com"))))],
        true,
    );
    assert!(result.commands.is_empty());
    assert_eq!(result.reserved.len(), 1);
    assert_eq!(result.reserved[0].phrase, "/ctx reset");
}

#[test]
fn phrase_with_slash_not_at_start_is_accepted() {
    let result = load(
        vec![("no-slash.yaml", parsed(command("open github/issues", "Not reserved", true, open_url("https://github.com"))))],
        true,
    );
    assert_eq!(result.commands.len(), 1, "slash not at start is not reserved");
    assert!(result.reserved.is_empty());
}

#[test]
fn normal_phrase_is_accepted() {
    let result = load(
        vec![("open-google.yaml", parsed(command("open google", "Open Google", true, open_url("https://www.google.com"))))],
        true,
    );
    assert_eq!(result.commands.len(), 1, "normal phrase is not reserved");
    assert!(result.reserved.is_empty());
}

#[test]
fn reserved_vec_empty_without_violations() {
    let result = load(
        vec![("good.yaml", parsed(command("open google", "Open Google", true, open_url("https://www.google.com"))))],
        true,
    );
    assert!(result.reserved.is_empty());
}

#[test]
fn allow_duplicates_still_rejects_reserved_phrases() {
    let result = load(
        vec![
            ("reserved.yaml", parsed(command("/ctx set work", "Bad", true, open_url("https://example.com")))),
            ("good.yaml", parsed(command("open google", "Good", true, open_url("https://google.com")))),
        ],
        true,
    );
    assert_eq!(result.commands.len(), 1, "only non-reserved command loads");
    assert_eq!(result.reserved.len(), 1, "reserved phrase still caught");
}

#[test]
fn mixed_reserved_disabled_malformed_valid() {
    let result = load(
        vec![
            ("reserved.yaml", parsed(command("/ctx set", "Reserved", true, open_url("https://reserved.com")))),
            ("disabled.yaml", parsed(command("disabled cmd", "Disabled", false, open_url("https://disabled.com")))),
            ("malformed.yaml", FileContent::Malformed("invalid type: string \"this is not valid yaml ::::\", expected struct Command".to_string())),
            ("good1.yaml", parsed(command("open google", "Open Google", true, open_url("https://google.com")))),
            ("good2.yaml", parsed(command("paste email", "Paste Email", true, paste_text("test@test.com")))),
        ],
        true,
    );
    assert_eq!(result.commands.len(), 2, "only valid+enabled commands load");
    assert_eq!(result.reserved.len(), 1, "reserved phrase tracked");
    assert_eq!(result.skipped.len(), 1);
}

// ── Where a command came from ───────────────────────────────────────────

#[test]
fn parses_static_list_command_without_item_action() {
    let result = load(
        vec![(
            "sub/show.yaml",
            parsed(command(
                "team emails",
                "Team emails",
                true,
                Action::StaticList(StaticListConfig { list: "team-emails".to_string(), item_action: None }),
            )),
        )],
        true,
    );
    assert_eq!(result.commands.len(), 1);
    if let Action::StaticList(cfg) = &result.commands[0].action {
        assert_eq!(cfg.list, "team-emails");
        assert!(cfg.item_action.is_none());
    } else {
        panic!("expected StaticList action");
    }
    assert_eq!(result.commands[0].source_dir, "sub");
    assert_eq!(result.commands[0].source_file, "sub/show.yaml");
}

#[test]
fn source_dir_is_empty_for_root_commands() {
    let result = load(
        vec![("open.yaml", parsed(command("open google", "Open Google", true, open_url("https://www.google.com"))))],
        true,
    );
    assert_eq!(result.commands[0].source_dir, "");
    assert_eq!(result.commands[0].source_file, "open.yaml");
}

#[test]
fn commands_from_subdirectories_load_alongside_root() {
    let result = load(
        vec![
            ("root.yaml", parsed(command("open google", "Root", true, open_url("https://google.com")))),
            ("sub/nested.yaml", parsed(command("paste email", "Nested", true, paste_text("test@test.com")))),
            ("deep/a/b/deep.yaml", parsed(command("copy text", "Deep", true, copy_text("deep")))),
        ],
        true,
    );
    assert_eq!(result.commands.len(), 3, "all nested levels load");
    let deep = result.commands.iter().find(|c| c.title == "Deep").unwrap();
    assert_eq!(deep.source_dir, "deep/a/b");
}

#[test]
fn empty_directory_returns_no_commands() {
    let result = load(vec![], true);
    assert!(result.commands.is_empty());
    assert!(result.duplicates.is_empty());
    assert!(result.reserved.is_empty());
}

// ── Load-time warnings ──────────────────────────────────────────────────

#[test]
fn missing_script_produces_command_warning() {
    let result = load(
        vec![(
            "dl.yaml",
            FileContent::Parsed(
                command("list items", "List items", true, dynamic_list("does-not-exist.sh")),
                ScriptState::Missing,
            ),
        )],
        true,
    );
    assert_eq!(result.commands.len(), 1, "command still loads despite missing script");
    assert_eq!(result.warnings.len(), 1, "one warning for missing script");
    assert!(result.warnings[0].message.contains("not found") || result.warnings[0].message.contains("Script not found"));
    assert_eq!(
        result.warnings[0].message,
        format!("Script not found: {ROOT}/does-not-exist.sh")
    );
}

#[test]
fn non_executable_script_produces_command_warning() {
    let result = load(
        vec![(
            "dl.yaml",
            FileContent::Parsed(
                command("list items", "List items", true, dynamic_list("myscript.sh")),
                ScriptState::NotExecutable,
            ),
        )],
        true,
    );
    assert_eq!(result.commands.len(), 1);
    assert_eq!(result.warnings.len(), 1, "one warning for non-executable script");
    assert!(result.warnings[0].message.contains("not executable") || result.warnings[0].message.contains("chmod"));
    assert_eq!(
        result.warnings[0].message,
        format!("Script is not executable (run: chmod +x {ROOT}/myscript.sh)")
    );
}

#[test]
fn executable_script_produces_no_warning() {
    let result = load(
        vec![(
            "dl.yaml",
            FileContent::Parsed(
                command("list items", "List items", true, dynamic_list("myscript.sh")),
                ScriptState::Present,
            ),
        )],
        true,
    );
    assert_eq!(result.commands.len(), 1);
    assert_eq!(result.warnings.len(), 0, "no warning for an executable script");
}

#[test]
fn invalid_env_key_produces_command_warning() {
    let mut cmd = command("my cmd", "My cmd", true, paste_text("hello"));
    cmd.env.insert("NIMBLE_FORBIDDEN".to_string(), "value".to_string());
    let result = load(vec![("cmd.yaml", parsed(cmd))], true);
    assert_eq!(result.commands.len(), 1, "command still loads despite bad env key");
    assert_eq!(result.warnings.len(), 1, "one warning for forbidden env key");
    assert!(result.warnings[0].message.contains("NIMBLE_") || result.warnings[0].message.contains("reserved"));
}

#[test]
fn valid_env_keys_produce_no_warnings() {
    let mut cmd = command("my cmd", "My cmd", true, paste_text("hello"));
    cmd.env.insert("MY_API_KEY".to_string(), "value".to_string());
    cmd.env.insert("another_key".to_string(), "other".to_string());
    let result = load(vec![("cmd.yaml", parsed(cmd))], true);
    assert_eq!(result.commands.len(), 1);
    assert_eq!(result.warnings.len(), 0, "no warnings for valid env keys");
}

#[test]
fn preflight_path_for_shared_and_nested_scripts() {
    assert_eq!(
        preflight_script_path("/c", "shared", "tools/x", "run.sh"),
        "/c/tools/x/run.sh"
    );
    assert_eq!(preflight_script_path("/c", "shared", "", "run.sh"), "/c/run.sh");
    assert_eq!(preflight_script_path("/c", "lib", "a", "shared: tool.sh "), "/c/lib/tool.sh");
}

#[test]
fn arg_mode_defaults_to_no_argument() {
    assert_eq!(default_arg_mode(), ArgMode::NoArg);
}

// ── Which files are command files ───────────────────────────────────────

#[test]
fn env_yaml_is_skipped_by_collect() {
    assert!(is_command_file_path("/tmp/d/open.yaml"));
    assert!(!is_command_file_path("/tmp/d/env.yaml"));
}

#[test]
fn env_yml_is_skipped_by_collect() {
    assert!(!is_command_file_path("/tmp/d/env.yml"));
}

#[test]
fn sidecar_env_yaml_in_subdir_is_skipped() {
    assert!(is_command_file_path("/tmp/d/sub/cmd.yaml"));
    assert!(!is_command_file_path("/tmp/d/sub/env.yaml"));
}

#[test]
fn non_env_yaml_with_env_in_name_is_not_skipped() {
    assert!(is_command_file_path("/tmp/d/my-env.yaml"));
}

#[test]
fn only_yaml_extensions_are_command_files() {
    assert!(is_command_file_path("a/b.yml"));
    assert!(!is_command_file_path("a/b.tsv"));
    assert!(!is_command_file_path("a/.yaml"));
    assert!(!is_command_file_path("a/yaml"));
    assert!(!is_command_file_path("a/b.YAML"));
}

// ── Load order ──────────────────────────────────────────────────────────

#[test]
fn older_files_load_first_then_by_path() {
    let stamps = vec![
        FileStamp { path: "b.yaml".to_string(), modified: Some(20) },
        FileStamp { path: "a.yaml".to_string(), modified: Some(30) },
        FileStamp { path: "c.yaml".to_string(), modified: None },
        FileStamp { path: "a-b.yaml".to_string(), modified: Some(20) },
        FileStamp { path: "a/b.yaml".to_string(), modified: Some(20) },
    ];
    let order: Vec<String> = sort_for_loading(stamps).into_iter().map(|s| s.path).collect();
    assert_eq!(order, vec!["c.yaml", "a/b.yaml", "a-b.yaml", "b.yaml", "a.yaml"]);
}

#[test]
fn preflight_checks_where_the_script_runs_from() {
    let ue = EnvMap::new();
    for (source_dir, raw) in [("tools", "run.sh"), ("", "run.sh"), ("a/b", "shared: x.sh"), ("a", "shared:y.py")] {
        let command_dir = join_path(ROOT, source_dir);
        let env = ScriptEnv {
            context: "",
            phrase: "",
            config_dir: ROOT,
            commands_root: ROOT,
            command_dir: &command_dir,
            user_env: &ue,
            shared_dir: "shared",
            debug: false,
        };
        let resolved = resolve_script_path(raw, &command_dir, &env).unwrap();
        assert_eq!(resolved, preflight_script_path(ROOT, "shared", source_dir, raw));
    }
}

#[test]
fn every_file_is_accounted_for_once() {
    let result = load(
        vec![
            ("a.yaml", parsed(command("x", "A", true, open_url("https://a")))),
            ("b.yaml", parsed(command("X", "B", true, open_url("https://b")))),
            ("c.yaml", parsed(command("/r", "C", true, open_url("https://c")))),
            ("d.yaml", parsed(command("y", "D", false, open_url("https://d")))),
            ("e.yaml", FileContent::Unreadable("denied".to_string())),
            ("f.yaml", parsed(command("z", "F", true, open_url("https://f")))),
        ],
        false,
    );
    let disabled = 1;
    assert_eq!(
        result.commands.len() + result.duplicates.len() + result.reserved.len() + result.skipped.len() + disabled,
        6
    );
    let titles: Vec<&str> = result.commands.iter().map(|c| c.title.as_str()).collect();
    assert_eq!(titles, vec!["A", "F"]);
    assert_eq!(result.duplicates[0].ignored, "b.yaml");
    assert_eq!(result.duplicates[0].kept, "a.yaml");
}

/// Load files with the given modification times, in load order.
fn load_timed(files: Vec<(&str, i128, FileContent)>) -> LoadResult {
    let stamps: Vec<FileStamp> =
        files.iter().map(|(p, t, _)| FileStamp { path: p.to_string(), modified: Some(*t) }).collect();
    let order = sort_for_loading(stamps);
    let mut pending: Vec<Option<(&str, i128, FileContent)>> = files.into_iter().map(Some).collect();
    let mut sorted = Vec::new();
    for s in order {
        let i = pending.iter().position(|f| matches!(f, Some((p, _, _)) if *p == s.path)).unwrap();
        let (p, _, content) = pending[i].take().unwrap();
        sorted.push(CommandFile { rel_path: p.to_string(), content });
    }
    load_commands(sorted, false, ROOT, "shared")
}

#[test]
fn oldest_file_wins_whatever_its_name() {
    let result = load_timed(vec![
        ("a.yaml", 200, parsed(command("Greet", "Newer", true, copy_text("new")))),
        ("z.yaml", 100, parsed(command("greet", "Older", true, copy_text("old")))),
    ]);
    assert_eq!(result.commands.len(), 1);
    assert_eq!(result.commands[0].title, "Older");
    assert_eq!(result.duplicates.len(), 1);
    assert_eq!(result.duplicates[0].kept, "z.yaml");
    assert_eq!(result.duplicates[0].ignored, "a.yaml");
    assert_eq!(result.duplicates[0].phrase, "greet");
}

#[test]
fn each_file_is_reported_once() {
    let result = load(
        vec![
            ("a.yaml", parsed(command("hello", "A", true, copy_text("a")))),
            ("b.yaml", parsed(command("HELLO", "B", true, copy_text("b")))),
            ("c.yaml", parsed(command("/ctx", "C", true, copy_text("c")))),
            ("d.yaml", parsed(command("off", "D", false, copy_text("d")))),
            ("e.yaml", FileContent::Unreadable("denied".to_string())),
            ("f.yaml", FileContent::Malformed("bad".to_string())),
        ],
        false,
    );
    let count = |p: &str| {
        [
            result.commands.iter().any(|c| c.source_file == p),
            result.duplicates.iter().any(|d| d.ignored == p),
            result.reserved.iter().any(|w| w.file == p),
            result.skipped.iter().any(|w| w.file == p),
        ]
        .iter()
        .filter(|b| **b)
        .count()
    };
    for p in ["a.yaml", "b.yaml", "c.yaml", "e.yaml", "f.yaml"] {
        assert_eq!(count(p), 1, "{p}");
    }
    assert_eq!(count("d.yaml"), 0);
    assert!(result.commands.iter().all(|c| !c.phrase.starts_with('/')));
}

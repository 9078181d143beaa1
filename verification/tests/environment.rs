use nimble::env::{build_user_env, env_yaml_path, load_env_yaml, script_env_vars, EnvFile, EnvMap, ScriptEnv};
use std::path::Path;
use tempfile::TempDir;

fn content(text: &str) -> EnvFile {
    EnvFile::Content(text.to_string())
}

fn load(path: &Path, file: EnvFile) -> Result<EnvMap, String> {
    load_env_yaml(path.to_str().unwrap(), &file)
}

/// Build the user env for `cmd_dir` under `commands_root`, given the state
/// of the global and sidecar `env.yaml` files.
fn build(
    commands_root: &Path,
    cmd_dir: &Path,
    global: EnvFile,
    sidecar: EnvFile,
    inline: &EnvMap,
) -> Result<EnvMap, String> {
    let root = commands_root.to_str().unwrap();
    let dir = cmd_dir.to_str().unwrap();
    assert_eq!(env_yaml_path(root), commands_root.join("env.yaml").to_str().unwrap());
    assert_eq!(env_yaml_path(dir), cmd_dir.join("env.yaml").to_str().unwrap());
    build_user_env(root, dir, &global, &sidecar, inline)
}

// ── load_env_yaml ───────────────────────────────────────────────────────

#[test]
fn load_env_yaml_missing_file_returns_empty() {
    let dir = TempDir::new().unwrap();
    let result = load(&dir.path().join("env.yaml"), EnvFile::Missing).unwrap();
    assert!(result.is_empty());
}

#[test]
fn load_env_yaml_empty_file_returns_empty() {
    let dir = TempDir::new().unwrap();
    let result = load(&dir.path().join("env.yaml"), content("")).unwrap();
    assert!(result.is_empty());
}

#[test]
fn load_env_yaml_parses_string_values() {
    let dir = TempDir::new().unwrap();
    let result = load(&dir.path().join("env.yaml"), content("MY_EMAIL: alice@example.com\nTEAM: engineering\n")).unwrap();
    assert_eq!(result.get("MY_EMAIL").unwrap(), "alice@example.com");
    assert_eq!(result.get("TEAM").unwrap(), "engineering");
}

#[test]
fn load_env_yaml_coerces_number_to_string() {
    let dir = TempDir::new().unwrap();
    let result = load(&dir.path().join("env.yaml"), content("PORT: 8080\n")).unwrap();
    assert_eq!(result.get("PORT").unwrap(), "8080");
}

#[test]
fn load_env_yaml_coerces_bool_to_string() {
    let dir = TempDir::new().unwrap();
    let result = load(&dir.path().join("env.yaml"), content("ENABLED: true\n")).unwrap();
    assert_eq!(result.get("ENABLED").unwrap(), "true");
}

#[test]
fn load_env_yaml_rejects_nimble_prefix() {
    let dir = TempDir::new().unwrap();
    assert!(load(&dir.path().join("env.yaml"), content("NIMBLE_HACK: evil\n")).is_err());
}

#[test]
fn load_env_yaml_rejects_nested_map() {
    let dir = TempDir::new().unwrap();
    assert!(load(&dir.path().join("env.yaml"), content("NESTED:\n  a: b\n")).is_err());
}

#[test]
fn load_env_yaml_null_value_coerced_to_empty_string() {
    let dir = TempDir::new().unwrap();
    let result = load(&dir.path().join("env.yaml"), content("EMPTY_VAR:\n")).unwrap();
    assert_eq!(result.get("EMPTY_VAR").unwrap(), "");
}

#[test]
fn load_env_yaml_error_messages() {
    assert_eq!(
        load_env_yaml("/c/env.yaml", &EnvFile::Unreadable("denied".to_string())).unwrap_err(),
        "Could not read /c/env.yaml: denied"
    );
    let e = load_env_yaml("/c/env.yaml", &EnvFile::Content("NESTED:\n  a: b\n".to_string())).unwrap_err();
    assert_eq!(e, "Unsupported value for key \"NESTED\" in /c/env.yaml");
    let e = load_env_yaml("/c/env.yaml", &EnvFile::Content("[1, 2]".to_string())).unwrap_err();
    assert!(e.starts_with("Could not parse /c/env.yaml: "), "{e}");
    let e = load_env_yaml("/c/env.yaml", &EnvFile::Content("1: x\n".to_string())).unwrap_err();
    assert_eq!(e, "Non-string key in /c/env.yaml");
    let e = load_env_yaml("/c/env.yaml", &EnvFile::Content("NIMBLE_X: y\n".to_string())).unwrap_err();
    assert_eq!(e, "Key \"NIMBLE_X\" in /c/env.yaml uses the reserved NIMBLE_ prefix");
}

#[test]
fn load_env_yaml_blank_text_is_empty() {
    let m = load_env_yaml("/c/env.yaml", &EnvFile::Content("  \n\t\n".to_string())).unwrap();
    assert!(m.is_empty());
}

// ── build_user_env ──────────────────────────────────────────────────────

#[test]
fn build_user_env_empty_when_no_files() {
    let dir = TempDir::new().unwrap();
    let commands_root = dir.path().join("commands");
    let cmd_dir = commands_root.join("my-cmd");
    let result = build(&commands_root, &cmd_dir, EnvFile::Missing, EnvFile::Missing, &EnvMap::new()).unwrap();
    assert!(result.is_empty());
}

#[test]
fn build_user_env_loads_global_env() {
    let dir = TempDir::new().unwrap();
    let commands_root = dir.path().join("commands");
    let cmd_dir = commands_root.join("my-cmd");
    let result = build(&commands_root, &cmd_dir, content("TEAM: ops\n"), EnvFile::Missing, &EnvMap::new()).unwrap();
    assert_eq!(result.get("TEAM").unwrap(), "ops");
}

#[test]
fn build_user_env_sidecar_overrides_global() {
    let dir = TempDir::new().unwrap();
    let commands_root = dir.path().join("commands");
    let cmd_dir = commands_root.join("my-cmd");
    let result = build(&commands_root, &cmd_dir, content("TEAM: ops\nREGION: us\n"), content("TEAM: dev\n"), &EnvMap::new()).unwrap();
    assert_eq!(result.get("TEAM").unwrap(), "dev");
    assert_eq!(result.get("REGION").unwrap(), "us");
}

#[test]
fn build_user_env_inline_overrides_sidecar() {
    let dir = TempDir::new().unwrap();
    let commands_root = dir.path().join("commands");
    let cmd_dir = commands_root.join("my-cmd");
    let mut inline = EnvMap::new();
    inline.insert("TEAM".to_string(), "override".to_string());
    let result = build(&commands_root, &cmd_dir, EnvFile::Missing, content("TEAM: dev\n"), &inline).unwrap();
    assert_eq!(result.get("TEAM").unwrap(), "override");
}

#[test]
fn build_user_env_full_precedence_chain() {
    let dir = TempDir::new().unwrap();
    let commands_root = dir.path().join("commands");
    let cmd_dir = commands_root.join("my-cmd");
    let mut inline = EnvMap::new();
    inline.insert("C".to_string(), "inline".to_string());
    let result = build(&commands_root, &cmd_dir, content("A: global\nB: global\nC: global\n"), content("B: sidecar\nC: sidecar\n"), &inline).unwrap();
    assert_eq!(result.get("A").unwrap(), "global");
    assert_eq!(result.get("B").unwrap(), "sidecar");
    assert_eq!(result.get("C").unwrap(), "inline");
}

#[test]
fn build_user_env_rejects_nimble_in_inline() {
    let dir = TempDir::new().unwrap();
    let commands_root = dir.path().join("commands");
    let cmd_dir = commands_root.join("my-cmd");
    let mut inline = EnvMap::new();
    inline.insert("NIMBLE_HACK".to_string(), "evil".to_string());
    assert!(build(&commands_root, &cmd_dir, EnvFile::Missing, EnvFile::Missing, &inline).is_err());
}

#[test]
fn build_user_env_no_parent_traversal() {
    // Only the command directory's own env.yaml is a layer.
    let dir = TempDir::new().unwrap();
    let commands_root = dir.path().join("commands");
    let parent = commands_root.join("parent");
    let cmd_dir = parent.join("my-cmd");
    let result = build(&commands_root, &cmd_dir, content("GLOBAL: yes\n"), EnvFile::Missing, &EnvMap::new()).unwrap();
    assert_eq!(result.get("GLOBAL").unwrap(), "yes");
    assert!(!result.contains_key("PARENT"));
}

#[test]
fn build_user_env_global_error_stops() {
    let inline = EnvMap::new();
    let r = build_user_env(
        "/r",
        "/r/c",
        &EnvFile::Content("NIMBLE_A: x\n".to_string()),
        &EnvFile::Missing,
        &inline,
    );
    assert_eq!(r.unwrap_err(), "Key \"NIMBLE_A\" in /r/env.yaml uses the reserved NIMBLE_ prefix");
}

// ── EnvMap ──────────────────────────────────────────────────────────────

#[test]
fn env_map_insert_replaces_in_place() {
    let mut m = EnvMap::new();
    m.insert("A".to_string(), "1".to_string());
    m.insert("B".to_string(), "2".to_string());
    m.insert("A".to_string(), "3".to_string());
    assert_eq!(m.len(), 2);
    assert_eq!(m.get("A").unwrap(), "3");
    assert_eq!(m.entry(0).0, "A");
    assert_eq!(m.entry(1).1, "2");
    assert!(m.get("C").is_none());
}

// ── Variables handed to scripts ─────────────────────────────────────────

fn value_of(vars: &[(String, String)], key: &str) -> Option<String> {
    // The last setting of a name wins, as on a process.
    vars.iter().rev().find(|(k, _)| k == key).map(|(_, v)| v.clone())
}

fn env_for<'a>(root: &'a str, user_env: &'a EnvMap, context: &'a str, phrase: &'a str, debug: bool) -> ScriptEnv<'a> {
    ScriptEnv {
        context,
        phrase,
        config_dir: root,
        commands_root: root,
        command_dir: root,
        user_env,
        shared_dir: "shared",
        debug,
    }
}

#[test]
fn run_script_injects_nimble_context() {
    let ue = EnvMap::new();
    let env = env_for("/tmp/x", &ue, "my-ctx", "test phrase", false);
    let vars = script_env_vars(&env, "macos", "1.0.0");
    assert_eq!(value_of(&vars, "NIMBLE_CONTEXT").unwrap(), "my-ctx");
}

#[test]
fn run_script_injects_nimble_phrase() {
    let ue = EnvMap::new();
    let env = env_for("/tmp/x", &ue, "", "search contacts", false);
    let vars = script_env_vars(&env, "macos", "1.0.0");
    assert_eq!(value_of(&vars, "NIMBLE_PHRASE").unwrap(), "search contacts");
}

#[test]
fn run_script_injects_nimble_os() {
    let ue = EnvMap::new();
    let env = env_for("/tmp/x", &ue, "test-context", "test phrase", false);
    let vars = script_env_vars(&env, "macos", "1.0.0");
    assert_eq!(value_of(&vars, "NIMBLE_OS").unwrap(), "macos");
}

#[test]
fn run_script_injects_nimble_version() {
    let ue = EnvMap::new();
    let env = env_for("/tmp/x", &ue, "test-context", "test phrase", false);
    let vars = script_env_vars(&env, "macos", "0.1.0");
    assert_eq!(value_of(&vars, "NIMBLE_VERSION").unwrap(), "0.1.0");
}

#[test]
fn run_script_injects_nimble_config_dir() {
    let dir = TempDir::new().unwrap();
    let root = dir.path().to_str().unwrap().to_string();
    let ue = EnvMap::new();
    let env = env_for(&root, &ue, "", "test", false);
    let vars = script_env_vars(&env, "macos", "1.0.0");
    assert_eq!(value_of(&vars, "NIMBLE_CONFIG_DIR").unwrap(), dir.path().to_string_lossy());
}

#[test]
fn run_script_injects_nimble_command_dir() {
    let dir = TempDir::new().unwrap();
    let root = dir.path().to_str().unwrap().to_string();
    let ue = EnvMap::new();
    let env = env_for(&root, &ue, "", "test", false);
    let vars = script_env_vars(&env, "macos", "1.0.0");
    assert_eq!(value_of(&vars, "NIMBLE_COMMAND_DIR").unwrap(), dir.path().to_string_lossy());
}

#[test]
fn run_script_injects_nimble_commands_root() {
    let dir = TempDir::new().unwrap();
    let root = dir.path().to_str().unwrap().to_string();
    let ue = EnvMap::new();
    let env = env_for(&root, &ue, "", "test", false);
    let vars = script_env_vars(&env, "macos", "1.0.0");
    assert_eq!(value_of(&vars, "NIMBLE_COMMANDS_ROOT").unwrap(), dir.path().to_string_lossy());
}

#[test]
fn run_script_injects_nimble_debug_when_debug_on() {
    let ue = EnvMap::new();
    let env = env_for("/tmp/x", &ue, "", "test", true);
    let vars = script_env_vars(&env, "macos", "1.0.0");
    assert_eq!(value_of(&vars, "NIMBLE_DEBUG").unwrap(), "1");
}

#[test]
fn run_script_does_not_inject_nimble_debug_when_debug_off() {
    let ue = EnvMap::new();
    let env = env_for("/tmp/x", &ue, "", "test", false);
    let vars = script_env_vars(&env, "macos", "1.0.0");
    assert!(value_of(&vars, "NIMBLE_DEBUG").is_none());
}

#[test]
fn user_nimble_debug_never_reaches_scripts() {
    let mut ue = EnvMap::new();
    ue.insert("NIMBLE_DEBUG".to_string(), "user".to_string());
    ue.insert("TEAM".to_string(), "core".to_string());
    let off = env_for("/tmp/x", &ue, "", "test", false);
    let vars = script_env_vars(&off, "macos", "1.0.0");
    assert!(vars.iter().all(|(k, _)| k != "NIMBLE_DEBUG"));
    assert_eq!(value_of(&vars, "TEAM").unwrap(), "core");
    let on = env_for("/tmp/x", &ue, "", "test", true);
    let vars = script_env_vars(&on, "macos", "1.0.0");
    assert_eq!(vars.iter().filter(|(k, _)| k == "NIMBLE_DEBUG").count(), 1);
    assert_eq!(value_of(&vars, "NIMBLE_DEBUG").unwrap(), "1");
}

#[test]
fn run_script_values_injects_nimble_context() {
    let ue = EnvMap::new();
    let env = env_for("/tmp/x", &ue, "work", "copy uuid", false);
    let vars = script_env_vars(&env, "macos", "1.0.0");
    assert_eq!(value_of(&vars, "NIMBLE_CONTEXT").unwrap(), "work");
}

#[test]
fn run_script_empty_context_injects_empty_string() {
    let ue = EnvMap::new();
    let env = env_for("/tmp/x", &ue, "", "test", false);
    let vars = script_env_vars(&env, "macos", "1.0.0");
    assert_eq!(format!("ctx={}|", value_of(&vars, "NIMBLE_CONTEXT").unwrap()), "ctx=|");
}

#[test]
fn run_script_injects_user_env() {
    let mut ue = EnvMap::new();
    ue.insert("MY_VAR".to_string(), "hello-from-env".to_string());
    let env = env_for("/tmp/x", &ue, "", "test", false);
    let vars = script_env_vars(&env, "macos", "1.0.0");
    assert_eq!(value_of(&vars, "MY_VAR").unwrap(), "hello-from-env");
}

#[test]
fn run_script_values_injects_user_env() {
    let mut ue = EnvMap::new();
    ue.insert("TEAM_ID".to_string(), "T12345".to_string());
    let env = env_for("/tmp/x", &ue, "", "test", false);
    let vars = script_env_vars(&env, "macos", "1.0.0");
    assert_eq!(value_of(&vars, "TEAM_ID").unwrap(), "T12345");
}

#[test]
fn run_script_builtins_override_user_nimble_prefix() {
    let mut ue = EnvMap::new();
    ue.insert("NIMBLE_CONTEXT".to_string(), "evil".to_string());
    let env = env_for("/tmp/x", &ue, "real-context", "test", false);
    let vars = script_env_vars(&env, "macos", "1.0.0");
    assert_eq!(value_of(&vars, "NIMBLE_CONTEXT").unwrap(), "real-context");
}

#[test]
fn script_env_vars_order_user_first() {
    let mut ue = EnvMap::new();
    ue.insert("A".to_string(), "1".to_string());
    let env = env_for("/r", &ue, "c", "p", false);
    let vars = script_env_vars(&env, "linux", "9.9");
    let keys: Vec<&str> = vars.iter().map(|(k, _)| k.as_str()).collect();
    assert_eq!(
        keys,
        vec![
            "A",
            "NIMBLE_CONTEXT",
            "NIMBLE_PHRASE",
            "NIMBLE_CONFIG_DIR",
            "NIMBLE_COMMANDS_ROOT",
            "NIMBLE_COMMAND_DIR",
            "NIMBLE_OS",
            "NIMBLE_VERSION"
        ]
    );
}

#[test]
fn merged_keys_are_always_valid_names() {
    let mut inline = EnvMap::new();
    inline.insert("_x1".to_string(), "v".to_string());
    let m = build_user_env(
        "/r",
        "/r/c",
        &content("A: 1\nb_2: true\n"),
        &content("C: ~\n"),
        &inline,
    )
    .unwrap();
    assert_eq!(m.len(), 4);
    for i in 0..m.len() {
        let (k, _) = m.entry(i);
        let mut chars = k.chars();
        let first = chars.next().unwrap();
        assert!(first.is_ascii_alphabetic() || first == '_');
        assert!(chars.all(|c| c.is_ascii_alphanumeric() || c == '_'));
        assert!(!k.starts_with("NIMBLE_"));
    }
    assert_eq!(m.get("b_2").unwrap(), "true");
    assert_eq!(m.get("C").unwrap(), "");
}

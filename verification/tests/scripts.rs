use nimble::env::{EnvMap, ScriptEnv};
use nimble::lists::ListItem;
use nimble::paths::resolve_script_path;
use nimble::scripts::{
    exit_error, items_from_output, script_not_found, script_outcome, spawn_error, test_run_result,
    timeout_error, values_from_exit, values_from_output, values_from_parsed, ScriptExit,
};
use std::path::Path;
use tempfile::TempDir;

fn finished(code: i32, stdout: &str, stderr: &str) -> ScriptExit {
    ScriptExit::Finished {
        code: Some(code),
        stdout: stdout.as_bytes().to_vec(),
        stderr: stderr.as_bytes().to_vec(),
    }
}

fn test_env<'a>(root: &'a str, user_env: &'a EnvMap) -> ScriptEnv<'a> {
    ScriptEnv {
        context: "test-context",
        phrase: "test phrase",
        config_dir: root,
        commands_root: root,
        command_dir: root,
        user_env,
        shared_dir: "shared",
        debug: false,
    }
}

/// What running `script_ref` in `dir` fails with before any process is
/// started: a rejected name, or a script that is not there.
fn pre_spawn_error(dir: &TempDir, script_ref: &str) -> Option<String> {
    let root = dir.path().to_str().unwrap().to_string();
    let ue = EnvMap::new();
    let env = test_env(&root, &ue);
    match resolve_script_path(script_ref, &root, &env) {
        Err(e) => Some(e),
        Ok(p) => {
            if Path::new(&p).exists() {
                None
            } else {
                Some(script_not_found(&p))
            }
        }
    }
}

/// Items of a run whose stdout is not a JSON list of items.
fn items_of(exit: &ScriptExit) -> Result<Vec<ListItem>, String> {
    let out = script_outcome("s.sh", exit)?;
    Ok(items_from_output(out, None))
}

// ── Before the process ──────────────────────────────────────────────────

#[test]
fn run_script_rejects_path_traversal_dotdot() {
    let dir = TempDir::new().unwrap();
    assert!(pre_spawn_error(&dir, "../secret.sh").is_some());
}

#[test]
fn run_script_rejects_path_with_slash() {
    let dir = TempDir::new().unwrap();
    assert!(pre_spawn_error(&dir, "sub/file.sh").is_some());
}

#[test]
fn run_script_missing_script_returns_err() {
    let dir = TempDir::new().unwrap();
    let e = pre_spawn_error(&dir, "nonexistent.sh").unwrap();
    assert_eq!(
        e,
        format!("Script not found: {}", dir.path().join("nonexistent.sh").display())
    );
}

#[test]
fn run_script_values_rejects_path_traversal_dotdot() {
    let dir = TempDir::new().unwrap();
    assert!(pre_spawn_error(&dir, "../secret.sh").is_some());
}

#[test]
fn run_script_values_rejects_path_with_slash() {
    let dir = TempDir::new().unwrap();
    assert!(pre_spawn_error(&dir, "sub/file.sh").is_some());
}

#[test]
fn run_script_values_missing_script_returns_err() {
    let dir = TempDir::new().unwrap();
    assert!(pre_spawn_error(&dir, "nonexistent.sh").is_some());
}

#[test]
fn spawn_error_message_quotes_path() {
    assert_eq!(
        spawn_error("/x/a b.sh", "Permission denied (os error 13)"),
        "Could not spawn \"/x/a b.sh\": Permission denied (os error 13)"
    );
}

// ── How the process ended ───────────────────────────────────────────────

#[test]
fn run_script_nonzero_exit_returns_err_with_stderr() {
    let result = items_of(&finished(1, "partial output\n", "something went wrong\n"));
    assert!(result.is_err(), "non-zero exit must return Err");
    let msg = result.unwrap_err();
    assert!(msg.contains("exit 1") || msg.contains("1"), "error should include exit code");
    assert!(msg.contains("something went wrong"), "error should include first stderr line");
    assert_eq!(msg, "exit 1: something went wrong");
}

#[test]
fn run_script_nonzero_exit_no_stderr_returns_generic_err() {
    let result = items_of(&finished(2, "", ""));
    assert!(result.is_err(), "non-zero exit must return Err even with no stderr");
    let msg = result.unwrap_err();
    assert!(msg.contains("2") || msg.contains("code"), "error should mention exit code");
    assert_eq!(msg, "Script exited with code 2");
}

#[test]
fn exit_error_skips_blank_lines_and_cuts_long_lines() {
    assert_eq!(exit_error(Some(3), "\n   \n\tfirst\nsecond\n"), "exit 3: \tfirst");
    assert_eq!(exit_error(None, "  \n"), "Script exited with code -1");
    let long = "x".repeat(250);
    assert_eq!(exit_error(Some(-9), &long), format!("exit -9: {}", "x".repeat(200)));
    assert_eq!(exit_error(Some(1), "bad\r\nmore"), "exit 1: bad");
}

#[test]
fn signal_ended_run_reports_minus_one() {
    let exit = ScriptExit::Finished { code: None, stdout: vec![], stderr: b"killed\n".to_vec() };
    assert_eq!(script_outcome("s.sh", &exit).unwrap_err(), "exit -1: killed");
}

#[test]
fn timed_out_run_reports_timeout() {
    assert_eq!(
        script_outcome("slow.sh", &ScriptExit::TimedOut).unwrap_err(),
        "Script \"slow.sh\" timed out after 5 seconds"
    );
    assert_eq!(timeout_error("a\"b"), "Script \"a\\\"b\" timed out after 5 seconds");
}

#[test]
fn failed_wait_reports_error() {
    assert_eq!(
        script_outcome("s.sh", &ScriptExit::WaitFailed("broken pipe".to_string())).unwrap_err(),
        "Script error: broken pipe"
    );
}

#[test]
fn run_script_stderr_does_not_affect_result() {
    let items = items_of(&finished(0, "good output\n", "error info\n")).unwrap();
    assert_eq!(items.len(), 1);
    assert_eq!(items[0].title, "good output");
}

#[test]
fn invalid_utf8_output_is_replaced() {
    let exit = ScriptExit::Finished { code: Some(0), stdout: vec![b'a', 0xff, b'b', b'\n'], stderr: vec![] };
    assert_eq!(script_outcome("s.sh", &exit).unwrap(), "a\u{fffd}b");
}

// ── Output of a successful run ──────────────────────────────────────────

#[test]
fn run_script_empty_output_returns_empty_vec() {
    let items = items_of(&finished(0, "", "")).unwrap();
    assert!(items.is_empty(), "empty stdout should return empty vec");
}

#[test]
fn run_script_values_empty_output_returns_empty_vec() {
    let values = values_from_exit("empty.sh", &finished(0, "", "")).unwrap();
    assert!(values.is_empty(), "empty stdout should return empty vec");
}

#[test]
fn run_script_plain_text_returns_single_item() {
    let items = items_of(&finished(0, "hello world\n", "")).unwrap();
    assert_eq!(items.len(), 1);
    assert_eq!(items[0].title, "hello world");
    assert!(items[0].subtext.is_none());
}

#[test]
fn run_script_malformed_json_falls_back_to_plain_text() {
    let items = items_of(&finished(0, "[{\"title\": broken\n", "")).unwrap();
    assert_eq!(items.len(), 1, "malformed JSON should fall back to plain text");
    assert!(items[0].title.contains("broken"));
}

#[test]
fn run_script_json_output_returns_items() {
    let parsed = vec![
        ListItem { title: "A".to_string(), subtext: None },
        ListItem { title: "B".to_string(), subtext: Some("sub".to_string()) },
    ];
    let items = items_from_output(
        "[{\"title\":\"A\"},{\"title\":\"B\",\"subtext\":\"sub\"}]".to_string(),
        Some(parsed),
    );
    assert_eq!(items.len(), 2);
    assert_eq!(items[0].title, "A");
    assert_eq!(items[1].subtext.as_deref(), Some("sub"));
}

#[test]
fn run_script_values_json_array_returns_strings() {
    let values = values_from_exit("values.sh", &finished(0, "[\"alpha\",\"beta\",\"gamma\"]\n", "")).unwrap();
    assert_eq!(values, vec!["alpha", "beta", "gamma"]);
}

#[test]
fn run_script_values_plain_text_returns_single_value() {
    let values = values_from_exit("plain.sh", &finished(0, "hello world\n", "")).unwrap();
    assert_eq!(values.len(), 1);
    assert_eq!(values[0], "hello world");
}

#[test]
fn run_script_values_malformed_json_falls_back_to_plain_text() {
    let values = values_from_output("[\"alpha\", broken".to_string());
    assert_eq!(values.len(), 1, "malformed JSON should fall back to single value");
    assert!(values[0].contains("broken"));
}

#[test]
fn values_from_parsed_uses_parse_only_for_nonempty_output() {
    assert!(values_from_parsed(String::new(), Some(vec!["x".to_string()])).is_empty());
    assert_eq!(values_from_parsed("raw".to_string(), None), vec!["raw"]);
    assert_eq!(values_from_parsed("raw".to_string(), Some(vec![])), Vec::<String>::new());
}

#[test]
fn values_from_exit_passes_errors_through() {
    assert_eq!(
        values_from_exit("f.sh", &finished(4, "", "oops\n")).unwrap_err(),
        "exit 4: oops"
    );
}

// ── Test runs ───────────────────────────────────────────────────────────

#[test]
fn test_run_reports_raw_output_and_exit_code() {
    let r = test_run_result(&finished(3, "  out \n", " err \n"), 42).unwrap();
    assert_eq!(r.stdout, "out");
    assert_eq!(r.stderr, "err");
    assert_eq!(r.exit_code, Some(3));
    assert_eq!(r.duration_ms, 42);
    assert!(!r.timed_out);
}

#[test]
fn test_run_timeout_is_not_an_error() {
    let r = test_run_result(&ScriptExit::TimedOut, 5001).unwrap();
    assert_eq!(r.stdout, "");
    assert_eq!(r.stderr, "Script timed out after 5 seconds");
    assert_eq!(r.exit_code, None);
    assert!(r.timed_out);
}

#[test]
fn test_run_wait_failure_is_an_error() {
    let r = test_run_result(&ScriptExit::WaitFailed("gone".to_string()), 1);
    assert_eq!(r.unwrap_err(), "Script error: gone");
}

//! What a script run yields: the outcome of a finished, failed or timed-out
//! process, and how a successful run's output becomes list items or values.
//!
//! Spawning the process and waiting on it happen at the caller; it reports
//! how the process ended as a [`ScriptExit`].

use vstd::prelude::*;
use crate::launcher::{json_string_array, json_strings};
use crate::lists::{ListItem, items_view};
use crate::paths::string_result_view;
use crate::text::{
    concat2, debug_quoted, debug_str, decimal, decimal_int, i32_to_decimal, push_decimal,
    split_lines, text_lines, trim, trim_string, chars_of, string_from_range,
};
use vstd::string::StringExecFns;
use vstd::utf8::{decode_utf8, valid_utf8};

verus! {

/// Wall-clock seconds a script may run before it counts as timed out.
pub const SCRIPT_TIMEOUT_SECS: u64 = 5;

/// Characters of script stderr kept for the debug log.
pub const STDERR_SNIPPET_LEN: usize = 500;

/// Characters of script stdout kept for the debug log.
pub const STDOUT_SNIPPET_LEN: usize = 500;

/// Characters of the first stderr line kept in an error message.
pub const ERROR_LINE_LEN: usize = 200;

// ── Decoding process output ─────────────────────────────────────────────────

/// `String::from_utf8_lossy`: the bytes decoded as UTF-8, each invalid
/// sequence replaced by U+FFFD.
pub uninterp spec fn lossy_text(bytes: Seq<u8>) -> Seq<char>;

/// Decodes process output with `String::from_utf8_lossy`. Besides naming
/// the result, the contract states what its documentation promises for
/// valid UTF-8: the text is returned unchanged.
#[verifier::external_body]
pub(crate) fn decode_lossy(bytes: &[u8]) -> (r: String)
    ensures
        r@ == lossy_text(bytes@),
        valid_utf8(bytes@) ==> r@ == decode_utf8(bytes@),
{
    String::from_utf8_lossy(bytes).into_owned()
}

// ── How a process ended ─────────────────────────────────────────────────────

/// How a script process ended, as seen by the caller that waited on it.
#[derive(Debug)]
pub enum ScriptExit {
    /// The process ran to completion. `code` is its exit code (`None` when
    /// a signal ended it); the run succeeded exactly when it is `Some(0)`.
    Finished { code: Option<i32>, stdout: Vec<u8>, stderr: Vec<u8> },
    /// Waiting for the process failed with this error text.
    WaitFailed(String),
    /// The process did not finish within [`SCRIPT_TIMEOUT_SECS`].
    TimedOut,
}

/// The first line whose trimmed text is non-empty, or the empty text.
pub open spec fn first_nonblank(ls: Seq<Seq<char>>) -> Seq<char>
    decreases ls.len(),
{
    if ls.len() == 0 {
        Seq::empty()
    } else if trim(ls[0]).len() > 0 {
        ls[0]
    } else {
        first_nonblank(ls.drop_first())
    }
}

/// The first `n` characters of `s` (all of `s` when shorter).
pub open spec fn clip(s: Seq<char>, n: nat) -> Seq<char> {
    if s.len() <= n {
        s
    } else {
        s.take(n as int)
    }
}

/// The error for a non-zero exit: the first non-blank stderr line, cut to
/// [`ERROR_LINE_LEN`] characters, or just the code when stderr is blank.
pub open spec fn exit_message(code: int, stderr: Seq<char>) -> Seq<char> {
    let first = first_nonblank(text_lines(stderr));
    if first.len() == 0 {
        "Script exited with code "@ + decimal_int(code)
    } else {
        "exit "@ + decimal_int(code) + ": "@ + clip(first, ERROR_LINE_LEN as nat)
    }
}

/// The error for a run that exceeded the timeout.
pub open spec fn timeout_message(script_ref: Seq<char>) -> Seq<char> {
    "Script "@ + debug_str(script_ref) + " timed out after "@ + decimal(SCRIPT_TIMEOUT_SECS as nat)
        + " seconds"@
}

/// The exit code reported in messages: the code, or -1 without one.
pub open spec fn code_or_minus_one(code: Option<i32>) -> int {
    match code {
        Some(c) => c as int,
        None => -1,
    }
}

/// The outcome of a run: the trimmed stdout on success, else the error.
pub open spec fn script_outcome_spec(script_ref: Seq<char>, exit: ScriptExit) -> Result<
    Seq<char>,
    Seq<char>,
> {
    match exit {
        ScriptExit::Finished { code, stdout, stderr } => {
            if code == Some(0i32) {
                Ok(trim(lossy_text(stdout@)))
            } else {
                Err(exit_message(code_or_minus_one(code), lossy_text(stderr@)))
            }
        },
        ScriptExit::WaitFailed(e) => Err("Script error: "@ + e@),
        ScriptExit::TimedOut => Err(timeout_message(script_ref)),
    }
}

/// The first non-blank line of `s`.
fn first_nonblank_line(s: &str) -> (r: String)
    ensures
        r@ == first_nonblank(text_lines(s@)),
{
    let lines = split_lines(s);
    let ghost ls = text_lines(s@);
    let mut i: usize = 0;
    assert(ls.skip(0) == ls);
    while i < lines.len()
        invariant
            i <= lines@.len(),
            ls == text_lines(s@),
            lines@.map_values(|l: String| l@) == ls,
            first_nonblank(ls.skip(i as int)) == first_nonblank(ls),
        decreases lines.len() - i,
    {
        assert(lines@[i as int]@ == ls[i as int]);
        let t = trim_string(lines[i].as_str());
        assert(ls.skip(i as int)[0] == ls[i as int]);
        if !t.as_str().is_empty() {
            assert(trim(ls[i as int]).len() > 0);
            assert(first_nonblank(ls.skip(i as int)) == ls[i as int]);
            return String::from_str(lines[i].as_str());
        }
        assert(ls.skip(i as int).drop_first() == ls.skip(i + 1));
        i = i + 1;
    }
    assert(ls.skip(i as int).len() == 0);
    String::new()
}

/// The error text for a non-zero exit.
pub fn exit_error(code: Option<i32>, stderr: &str) -> (r: String)
    ensures
        r@ == exit_message(code_or_minus_one(code), stderr@),
{
    let c: i32 = match code {
        Some(c) => c,
        None => -1,
    };
    let digits = i32_to_decimal(c);
    let first = first_nonblank_line(stderr);
    if first.as_str().is_empty() {
        concat2("Script exited with code ", digits.as_str())
    } else {
        let v = chars_of(first.as_str());
        let end: usize = if v.len() <= ERROR_LINE_LEN {
            v.len()
        } else {
            ERROR_LINE_LEN
        };
        let cut = string_from_range(v.as_slice(), 0, end);
        assert(v@.subrange(0, end as int) == clip(first@, ERROR_LINE_LEN as nat));
        let mut m = concat2("exit ", digits.as_str());
        m.append(": ");
        m.append(cut.as_str());
        m
    }
}

/// The error text for a run that exceeded the timeout.
pub fn timeout_error(script_ref: &str) -> (r: String)
    ensures
        r@ == timeout_message(script_ref@),
{
    let q = debug_quoted(script_ref);
    let mut m = concat2("Script ", q.as_str());
    m.append(" timed out after ");
    push_decimal(&mut m, SCRIPT_TIMEOUT_SECS);
    m.append(" seconds");
    m
}

/// The outcome of a script run: `Ok` with the trimmed stdout when the
/// process exited with code 0; otherwise the error message the launcher
/// shows (first non-blank stderr line or the exit code, the wait error, or
/// the timeout).
pub fn script_outcome(script_ref: &str, exit: &ScriptExit) -> (r: Result<String, String>)
    ensures
        string_result_view(r) == script_outcome_spec(script_ref@, *exit),
{
    match exit {
        ScriptExit::Finished { code, stdout, stderr } => {
            let out = decode_lossy(stdout.as_slice());
            let err = decode_lossy(stderr.as_slice());
            match code {
                Some(c) => {
                    if *c == 0 {
                        return Ok(trim_string(out.as_str()));
                    }
                },
                None => {},
            }
            Err(exit_error(*code, err.as_str()))
        },
        ScriptExit::WaitFailed(e) => Err(concat2("Script error: ", e.as_str())),
        ScriptExit::TimedOut => Err(timeout_error(script_ref)),
    }
}

/// The error for a script path that does not exist.
pub fn script_not_found(path: &str) -> (r: String)
    ensures
        r@ == "Script not found: "@ + path@,
{
    concat2("Script not found: ", path)
}

/// The error for a script that could not be started.
pub fn spawn_error(path: &str, reason: &str) -> (r: String)
    ensures
        r@ == "Could not spawn "@ + debug_str(path@) + ": "@ + reason@,
{
    let q = debug_quoted(path);
    let mut m = concat2("Could not spawn ", q.as_str());
    m.append(": ");
    m.append(reason);
    m
}

// ── Output of a successful run ──────────────────────────────────────────────

/// The items of a `dynamic_list` run: none for empty output, the parsed
/// JSON items when the output is a JSON array of items, else one item whose
/// title is the whole output.
pub open spec fn items_from_output_spec(
    stdout: Seq<char>,
    parsed: Option<Seq<(Seq<char>, Option<Seq<char>>)>>,
) -> Seq<(Seq<char>, Option<Seq<char>>)> {
    if stdout.len() == 0 {
        Seq::empty()
    } else {
        match parsed {
            Some(items) => items,
            None => seq![(stdout, None)],
        }
    }
}

/// The items view of an optional item list.
pub open spec fn parsed_items_view(p: Option<Vec<ListItem>>) -> Option<
    Seq<(Seq<char>, Option<Seq<char>>)>,
> {
    match p {
        Some(v) => Some(items_view(v@)),
        None => None,
    }
}

/// The items a `dynamic_list` run yields, given its trimmed stdout and the
/// result of parsing that stdout as a JSON array of items.
pub fn items_from_output(stdout: String, parsed: Option<Vec<ListItem>>) -> (r: Vec<ListItem>)
    ensures
        items_view(r@) == items_from_output_spec(stdout@, parsed_items_view(parsed)),
{
    if stdout.as_str().is_empty() {
        return Vec::new();
    }
    match parsed {
        Some(items) => items,
        None => {
            let v = vec![ListItem { title: stdout, subtext: None }];
            assert(items_view(v@) =~= seq![(stdout@, None::<Seq<char>>)]);
            v
        },
    }
}

/// The values of a `script_action` run: none for empty output, the strings
/// when the output is a JSON array of strings, else the whole output.
pub open spec fn values_from_output_spec(stdout: Seq<char>, parsed: Option<Seq<Seq<char>>>) -> Seq<
    Seq<char>,
> {
    if stdout.len() == 0 {
        Seq::empty()
    } else {
        match parsed {
            Some(vals) => vals,
            None => seq![stdout],
        }
    }
}

/// The characters of each string.
pub open spec fn strings_view(v: Seq<String>) -> Seq<Seq<char>> {
    v.map_values(|s: String| s@)
}

/// The values a `script_action` run yields, given its trimmed stdout and
/// the result of parsing it as a JSON array of strings.
pub fn values_from_parsed(stdout: String, parsed: Option<Vec<String>>) -> (r: Vec<String>)
    ensures
        strings_view(r@) == values_from_output_spec(
            stdout@,
            match parsed {
                Some(v) => Some(strings_view(v@)),
                None => None,
            },
        ),
{
    if stdout.as_str().is_empty() {
        return Vec::new();
    }
    match parsed {
        Some(vals) => vals,
        None => {
            let v = vec![stdout];
            assert(strings_view(v@) =~= seq![stdout@]);
            v
        },
    }
}

/// The values a `script_action` run yields for its trimmed stdout: the
/// output is parsed as a JSON array of strings with `serde_json`.
pub fn values_from_output(stdout: String) -> (r: Vec<String>)
    ensures
        strings_view(r@) == values_from_output_spec(stdout@, json_string_array(stdout@)),
{
    if stdout.as_str().is_empty() {
        return Vec::new();
    }
    let parsed = json_strings(stdout.as_str());
    values_from_parsed(stdout, parsed)
}

/// The values of a `script_action` run, from how its process ended.
pub fn values_from_exit(script_ref: &str, exit: &ScriptExit) -> (r: Result<Vec<String>, String>)
    ensures
        match script_outcome_spec(script_ref@, *exit) {
            Ok(out) => r matches Ok(v) && strings_view(v@) == values_from_output_spec(
                out,
                json_string_array(out),
            ),
            Err(e) => r matches Err(m) && m@ == e,
        },
{
    let out = script_outcome(script_ref, exit)?;
    Ok(values_from_output(out))
}

/// A `script_action` run whose trimmed output is not a JSON array of
/// strings yields one value, the whole trimmed output, every line of it:
/// for a run that succeeded with non-empty trimmed output `out` that does
/// not parse as such an array, the values are exactly `[out]`.
pub proof fn law_plain_output_is_one_value(script_ref: Seq<char>, exit: ScriptExit, out: Seq<char>)
    requires
        script_outcome_spec(script_ref, exit) == Ok::<Seq<char>, Seq<char>>(out),
        out.len() > 0,
        json_string_array(out) is None,
    ensures
        values_from_output_spec(out, json_string_array(out)) == seq![out],
        values_from_output_spec(out, json_string_array(out)).len() == 1,
        values_from_output_spec(out, json_string_array(out))[0] == out,
{
}

/// Output decides the values of a `script_action` run: empty output gives
/// no values, and output that parses as a JSON array of strings gives
/// exactly those strings, in order.
pub proof fn law_output_values(out: Seq<char>, parsed: Seq<Seq<char>>)
    ensures
        values_from_output_spec(Seq::<char>::empty(), json_string_array(Seq::<char>::empty()))
            == Seq::<Seq<char>>::empty(),
        out.len() > 0 ==> values_from_output_spec(out, Some(parsed)) == parsed,
{
}

/// A `dynamic_list` run whose non-empty trimmed output is not a JSON array
/// of items yields one item: the whole output as its title, no subtext.
pub proof fn law_plain_output_is_one_item(out: Seq<char>)
    requires
        out.len() > 0,
    ensures
        items_from_output_spec(out, None) == seq![(out, None::<Seq<char>>)],
{
}

// ── Test runs ───────────────────────────────────────────────────────────────

/// Raw result of a test run (the preferences "Test" button).
#[derive(Debug)]
pub struct ScriptTestResult {
    pub stdout: String,
    pub stderr: String,
    pub exit_code: Option<i32>,
    pub duration_ms: u64,
    pub timed_out: bool,
}

/// The stderr text a timed-out test run reports.
pub open spec fn test_timeout_text() -> Seq<char> {
    "Script timed out after "@ + decimal(SCRIPT_TIMEOUT_SECS as nat) + " seconds"@
}

/// The result of a test run, which never treats a non-zero exit as an
/// error: a finished run reports both streams trimmed and its exit code; a
/// timed-out run reports no output and the timeout in stderr; only a failed
/// wait is an error.
pub fn test_run_result(exit: &ScriptExit, duration_ms: u64) -> (r: Result<ScriptTestResult, String>)
    ensures
        match *exit {
            ScriptExit::Finished { code, stdout, stderr } => r matches Ok(t) && t.stdout@ == trim(
                lossy_text(stdout@),
            ) && t.stderr@ == trim(lossy_text(stderr@)) && t.exit_code == code && t.duration_ms
                == duration_ms && !t.timed_out,
            ScriptExit::WaitFailed(e) => r matches Err(m) && m@ == "Script error: "@ + e@,
            ScriptExit::TimedOut => r matches Ok(t) && t.stdout@.len() == 0 && t.stderr@
                == test_timeout_text() && t.exit_code is None && t.duration_ms == duration_ms
                && t.timed_out,
        },
{
    match exit {
        ScriptExit::Finished { code, stdout, stderr } => {
            let out = decode_lossy(stdout.as_slice());
            let err = decode_lossy(stderr.as_slice());
            Ok(
                ScriptTestResult {
                    stdout: trim_string(out.as_str()),
                    stderr: trim_string(err.as_str()),
                    exit_code: *code,
                    duration_ms,
                    timed_out: false,
                },
            )
        },
        ScriptExit::WaitFailed(e) => Err(concat2("Script error: ", e.as_str())),
        ScriptExit::TimedOut => {
            let mut m = String::from_str("Script timed out after ");
            push_decimal(&mut m, SCRIPT_TIMEOUT_SECS);
            m.append(" seconds");
            Ok(
                ScriptTestResult {
                    stdout: String::new(),
                    stderr: m,
                    exit_code: None,
                    duration_ms,
                    timed_out: true,
                },
            )
        },
    }
}

} // verus!

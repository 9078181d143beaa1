//! The debug log: one timestamped line per entry in `<config_dir>/debug.log`.

use vstd::prelude::*;
use crate::paths::{join_path, path_join};
use crate::text::{decimal, push_char, push_padded, zero_pad};
use vstd::string::StringExecFns;

verus! {

/// The log file's path under the config directory.
pub fn log_file_path(config_dir: &str) -> (r: String)
    ensures
        r@ == path_join(config_dir@, "debug.log"@),
{
    join_path(config_dir, "debug.log")
}

/// `[HH:MM:SS.mmm]` for a time `secs` seconds and `millis` milliseconds
/// after midnight UTC of some day, each field zero-padded.
pub open spec fn timestamp_text(secs: nat, millis: nat) -> Seq<char> {
    "["@ + zero_pad(decimal((secs / 3600) % 24), 2) + ":"@ + zero_pad(decimal((secs / 60) % 60), 2)
        + ":"@ + zero_pad(decimal(secs % 60), 2) + "."@ + zero_pad(decimal(millis), 3) + "]"@
}

/// Format a time since the Unix epoch as `[HH:MM:SS.mmm]` (UTC).
pub fn format_timestamp(secs: u64, millis: u32) -> (r: String)
    ensures
        r@ == timestamp_text(secs as nat, millis as nat),
{
    let mut s = String::new();
    push_char(&mut s, '[');
    push_padded(&mut s, (secs / 3600) % 24, 2);
    push_char(&mut s, ':');
    push_padded(&mut s, (secs / 60) % 60, 2);
    push_char(&mut s, ':');
    push_padded(&mut s, secs % 60, 2);
    push_char(&mut s, '.');
    push_padded(&mut s, millis as u64, 3);
    push_char(&mut s, ']');
    proof {
        reveal_strlit("[");
        reveal_strlit(":");
        reveal_strlit(".");
        reveal_strlit("]");
    }
    s
}

#[verifier::external_type_specification]
#[verifier::external_body]
pub struct ExSystemTime(std::time::SystemTime);

/// Reads the system clock (`SystemTime::now`). Nothing is stated of the
/// time it returns.
#[verifier::external_body]
fn system_now() -> (t: std::time::SystemTime) {
    std::time::SystemTime::now()
}

/// Time elapsed from the Unix epoch to `t` (`SystemTime::duration_since`
/// with `UNIX_EPOCH`); `None` when `t` is before the epoch. Nothing is
/// stated of the duration.
#[verifier::external_body]
fn since_epoch(t: &std::time::SystemTime) -> (d: Option<std::time::Duration>) {
    t.duration_since(std::time::UNIX_EPOCH).ok()
}

/// Whole seconds of a duration (`Duration::as_secs`).
#[verifier::external_body]
fn whole_seconds(d: &std::time::Duration) -> (s: u64) {
    d.as_secs()
}

/// Milliseconds of the fractional second of a duration
/// (`Duration::subsec_millis`), which its documentation bounds below one
/// thousand.
#[verifier::external_body]
fn subsecond_millis(d: &std::time::Duration) -> (m: u32)
    ensures
        m < 1000,
{
    d.subsec_millis()
}

/// The current time as `[HH:MM:SS.mmm]` (UTC); a clock before the Unix
/// epoch reads as midnight.
pub fn timestamp() -> (r: String)
    ensures
        exists|secs: nat, millis: nat| millis < 1000 && r@ == timestamp_text(secs, millis),
{
    let now = system_now();
    let (secs, millis): (u64, u32) = match since_epoch(&now) {
        Some(d) => (whole_seconds(&d), subsecond_millis(&d)),
        None => (0, 0),
    };
    let r = format_timestamp(secs, millis);
    assert(r@ == timestamp_text(secs as nat, millis as nat));
    r
}

/// The line a log entry appends: the time stamp, a space, the message.
pub fn log_line(stamp: &str, message: &str) -> (r: String)
    ensures
        r@ == stamp@ + " "@ + message@ + "\n"@,
{
    let mut s = String::from_str(stamp);
    push_char(&mut s, ' ');
    s.append(message);
    push_char(&mut s, '\n');
    proof {
        reveal_strlit(" ");
        reveal_strlit("\n");
    }
    assert(s@ =~= stamp@ + " "@ + message@ + "\n"@);
    s
}

} // verus!

//! Decisions of the commands-directory watcher: which file events call for a
//! reload, and what a reconfiguration changes.

use vstd::prelude::*;
use crate::files::{extension_of, is_command_file, path_extension};
use crate::paths::{same_path, same_path_spec};
use crate::text::str_eq;
use vstd::string::StringExecFns;

verus! {

/// A command sent to the watcher to reconfigure it at runtime.
#[derive(Debug)]
pub enum WatcherCommand {
    /// Switch to a (possibly new) commands directory and/or update the
    /// `allow_duplicates` or `shared_dir` settings; commands are reloaded.
    Reconfigure { commands_dir: String, allow_duplicates: bool, shared_dir: String },
}

/// What the watcher currently watches and loads with.
#[derive(Debug)]
pub struct WatchConfig {
    pub commands_dir: String,
    pub allow_duplicates: bool,
    pub shared_dir: String,
}

/// The kind of a file-system event.
#[derive(Clone, Copy, Debug, PartialEq, Eq, Structural)]
pub enum FsEventKind {
    Create,
    Modify,
    Remove,
    /// Access and any other kind.
    Other,
}

/// Extensions of files whose creation or change calls for a reload:
/// command files and scripts.
pub open spec fn is_watched_extension(e: Seq<char>) -> bool {
    ||| e == "yaml"@
    ||| e == "yml"@
    ||| e == "sh"@
    ||| e == "ps1"@
    ||| e == "py"@
    ||| e == "js"@
    ||| e == "bat"@
}

/// A path with a watched extension.
pub open spec fn has_watched_extension(p: Seq<char>) -> bool {
    match path_extension(p) {
        Some(e) => is_watched_extension(e),
        None => false,
    }
}

/// Whether an event calls for a reload: a creation or change of a file with
/// a watched extension, or any removal (a removal may be reported with the
/// parent directory's path).
pub open spec fn is_relevant(kind: FsEventKind, paths: Seq<Seq<char>>) -> bool {
    if kind is Create || kind is Modify {
        exists|i: int| 0 <= i < paths.len() && has_watched_extension(#[trigger] paths[i])
    } else if kind is Remove {
        paths.len() > 0
    } else {
        false
    }
}

/// Creating or changing any command file calls for a reload: a create or
/// modify event that names a command file (extension `yaml` or `yml`) is
/// relevant, whatever else it names.
pub proof fn law_command_file_change_reloads(kind: FsEventKind, paths: Seq<Seq<char>>, i: int)
    requires
        kind is Create || kind is Modify,
        0 <= i < paths.len(),
        is_command_file(paths[i]),
    ensures
        is_relevant(kind, paths),
{
    reveal_strlit("yaml");
    reveal_strlit("yml");
    assert(has_watched_extension(paths[i]));
}

/// Creating or changing a script calls for a reload too: a create or
/// modify event that names a file with extension `sh`, `ps1`, `py`, `js`
/// or `bat` is relevant. Any removal with a path is relevant; an event of
/// another kind never is.
pub proof fn law_script_change_reloads(kind: FsEventKind, paths: Seq<Seq<char>>, i: int)
    ensures
        (kind is Create || kind is Modify) && 0 <= i < paths.len() && (path_extension(paths[i])
            == Some("sh"@) || path_extension(paths[i]) == Some("ps1"@) || path_extension(paths[i])
            == Some("py"@) || path_extension(paths[i]) == Some("js"@) || path_extension(paths[i])
            == Some("bat"@)) ==> is_relevant(kind, paths),
        kind is Remove ==> (is_relevant(kind, paths) <==> paths.len() > 0),
        kind is Other ==> !is_relevant(kind, paths),
{
    if (kind is Create || kind is Modify) && 0 <= i < paths.len() {
        assert(path_extension(paths[i]) == Some("sh"@) || path_extension(paths[i]) == Some("ps1"@)
            || path_extension(paths[i]) == Some("py"@) || path_extension(paths[i]) == Some("js"@)
            || path_extension(paths[i]) == Some("bat"@) ==> has_watched_extension(paths[i]));
    }
}

/// Whether the path has a watched extension.
fn watched_path(p: &str) -> (b: bool)
    ensures
        b == has_watched_extension(p@),
{
    match extension_of(p) {
        Some(e) => {
            let e = e.as_str();
            str_eq(e, "yaml") || str_eq(e, "yml") || str_eq(e, "sh") || str_eq(e, "ps1")
                || str_eq(e, "py") || str_eq(e, "js") || str_eq(e, "bat")
        },
        None => false,
    }
}

/// Whether an event with these paths calls for a reload.
pub fn is_relevant_event(kind: FsEventKind, paths: &Vec<String>) -> (b: bool)
    ensures
        b == is_relevant(kind, paths@.map_values(|p: String| p@)),
{
    let ghost ps = paths@.map_values(|p: String| p@);
    match kind {
        FsEventKind::Create | FsEventKind::Modify => {
            let mut i: usize = 0;
            while i < paths.len()
                invariant
                    i <= paths@.len(),
                    kind is Create || kind is Modify,
                    ps == paths@.map_values(|p: String| p@),
                    forall|j: int| 0 <= j < i ==> !has_watched_extension(#[trigger] ps[j]),
                decreases paths.len() - i,
            {
                if watched_path(paths[i].as_str()) {
                    assert(ps.len() == paths@.len());
                    assert(has_watched_extension(ps[i as int]));
                    return true;
                }
                i = i + 1;
            }
            false
        },
        FsEventKind::Remove => paths.len() > 0,
        FsEventKind::Other => false,
    }
}

/// Apply a reconfiguration: the new settings, and whether the watched
/// directory changes (the old one is unwatched and the new one watched).
/// Directories are compared as paths, component by component (a trailing
/// `/`, `.` components and repeated separators make no difference).
/// Commands are reloaded in either case.
pub fn apply_command(current: &WatchConfig, cmd: WatcherCommand) -> (r: (WatchConfig, bool))
    ensures
        match cmd {
            WatcherCommand::Reconfigure { commands_dir, allow_duplicates, shared_dir } => {
                &&& r.0.commands_dir@ == commands_dir@
                &&& r.0.allow_duplicates == allow_duplicates
                &&& r.0.shared_dir@ == shared_dir@
                &&& r.1 == !same_path_spec(commands_dir@, current.commands_dir@)
            },
        },
{
    match cmd {
        WatcherCommand::Reconfigure { commands_dir, allow_duplicates, shared_dir } => {
            let switch = !same_path(commands_dir.as_str(), current.commands_dir.as_str());
            (WatchConfig { commands_dir, allow_duplicates, shared_dir }, switch)
        },
    }
}

} // verus!

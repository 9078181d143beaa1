//! Loading commands: which command files become commands, and what the
//! others are reported as.
//!
//! Files are taken in the order given (oldest first, see
//! [`crate::files`]). A file that cannot be read or parsed is skipped; a
//! disabled command is left out silently; a phrase starting with `/` is
//! reserved for built-in commands; unless duplicates are allowed, a phrase
//! already claimed (compared in lowercase) is ignored in favour of the file
//! that claimed it first. Loaded commands carry the directory and path of
//! their file, and get advisory warnings for invalid inline env keys and
//! for a script that is missing or not executable.

use vstd::prelude::*;
use crate::files::{FileStamp, in_load_order, lemma_stamp_lt_total, stamp_lt};
use crate::env::{EnvMap, env_key_check, unit_result_view, validate_env_key};
use crate::paths::{join_path, path_join, script_path_spec, shared_name};
use crate::schema::{Command, action_script};
use crate::text::{chars_of, concat2, concat3, starts_with, starts_with_exec, string_from_range, trim_bounds};
use vstd::string::StringExecFns;

verus! {

// ── Warnings and the result ─────────────────────────────────────────────────

/// Two files define the same phrase (compared in lowercase); the first one
/// loaded, the older, keeps it.
#[derive(Debug)]
pub struct DuplicateWarning {
    /// The conflicting phrase, lowercased.
    pub phrase: String,
    /// Path of the file whose command was kept.
    pub kept: String,
    /// Path of the file whose command was ignored.
    pub ignored: String,
}

/// A phrase starting with the `/` reserved for built-in commands.
#[derive(Debug)]
pub struct ReservedPhraseWarning {
    /// The phrase as written in the file.
    pub phrase: String,
    /// Path of the offending file.
    pub file: String,
}

/// A command file that could not be read or parsed.
#[derive(Debug)]
pub struct SkippedFileWarning {
    /// Path of the skipped file.
    pub file: String,
    /// Why it was skipped (the read error or the parser's message).
    pub reason: String,
}

/// An advisory warning about a loaded command.
#[derive(Debug)]
pub struct CommandWarning {
    /// Path of the command's file.
    pub file: String,
    /// What is wrong.
    pub message: String,
}

/// The commands loaded from the commands directory and the warnings.
#[derive(Debug)]
pub struct LoadResult {
    pub commands: Vec<Command>,
    pub duplicates: Vec<DuplicateWarning>,
    /// Commands rejected because their phrase starts with `/`.
    pub reserved: Vec<ReservedPhraseWarning>,
    /// Files that could not be read or parsed.
    pub skipped: Vec<SkippedFileWarning>,
    /// Advisory warnings about loaded commands.
    pub warnings: Vec<CommandWarning>,
}

// ── Inputs ──────────────────────────────────────────────────────────────────

/// What the file system shows for the script a command runs.
#[derive(Clone, Copy, Debug, PartialEq, Eq, Structural)]
pub enum ScriptState {
    /// No file at the script's path.
    Missing,
    /// The file exists without any execute permission bit.
    NotExecutable,
    /// The file exists (and is executable, as far as could be read).
    Present,
}

/// What reading and parsing one command file gave.
#[derive(Debug)]
pub enum FileContent {
    /// Reading failed with this error text.
    Unreadable(String),
    /// The text is not a valid command; the parser's message.
    Malformed(String),
    /// The command, and the state of the script at its
    /// [`preflight_script_path`] (`Present` when the action runs none).
    Parsed(Command, ScriptState),
}

/// One command file.
#[derive(Debug)]
pub struct CommandFile {
    /// The file's path relative to the commands root, `/`-separated,
    /// without `.` or empty components.
    pub rel_path: String,
    pub content: FileContent,
}

// ── Lowercase ───────────────────────────────────────────────────────────────

/// `str::to_lowercase`: the Unicode lowercase form of the text, each
/// character mapped by its lowercase mapping (a `Σ` by its context).
pub uninterp spec fn lowercase(s: Seq<char>) -> Seq<char>;

/// The text starts with `/`.
pub open spec fn slash_led(s: Seq<char>) -> bool {
    s.len() > 0 && s[0] == '/'
}

/// Every character is ASCII.
pub open spec fn is_ascii_text(s: Seq<char>) -> bool {
    forall|i: int| 0 <= i < s.len() ==> (#[trigger] s[i] as u32) < 128
}

/// ASCII lowercase: `A`–`Z` become `a`–`z`, every other character stays.
pub open spec fn ascii_lowercase(s: Seq<char>) -> Seq<char> {
    s.map_values(
        |c: char|
            if 'A' <= c && c <= 'Z' {
                ((c as u32) + 32) as char
            } else {
                c
            },
    )
}

/// Lowercases with `str::to_lowercase`. Besides naming the result, the
/// contract states facts of its documentation: a character without a
/// lowercase mapping, such as `/`, maps to itself (`char::to_lowercase`), and
/// a lowercase mapping gives the lowercase form of a letter, never `/`; so
/// the result starts with `/` exactly when the text does. ASCII text is
/// lowercased letter by letter, `A`–`Z` to `a`–`z`.
#[verifier::external_body]
pub(crate) fn to_lowercase(s: &str) -> (r: String)
    ensures
        r@ == lowercase(s@),
        slash_led(s@) <==> slash_led(r@),
        is_ascii_text(s@) ==> r@ == ascii_lowercase(s@),
{
    s.to_lowercase()
}

/// A phrase is reserved when its lowercase form starts with `/`.
pub open spec fn is_reserved_key(key: Seq<char>) -> bool {
    slash_led(key)
}

/// An enabled command in `f` whose phrase starts with `/` has a reserved
/// lowercase phrase.
pub open spec fn slash_phrase_reserved(f: CommandFile) -> bool {
    match f.content {
        FileContent::Parsed(cmd, _) => cmd.enabled && slash_led(cmd.phrase@) ==> is_reserved_key(
            lowercase(cmd.phrase@),
        ),
        _ => true,
    }
}

/// Every reserved-phrase warning holds a phrase, as written, that starts
/// with `/`.
pub open spec fn reserved_slash_led(r: LoadResult) -> bool {
    forall|d: int| 0 <= d < r.reserved@.len() ==> slash_led((#[trigger] r.reserved@[d]).phrase@)
}

/// No loaded command's phrase starts with `/`.
pub open spec fn no_slash_led_phrase(r: LoadResult) -> bool {
    forall|j: int| 0 <= j < r.commands@.len() ==> !slash_led((#[trigger] r.commands@[j]).phrase@)
}

// ── Paths ───────────────────────────────────────────────────────────────────

/// The directory part of a relative path: the text before its last `/`, or
/// the empty text for a file at the root.
pub open spec fn parent_dir(rel: Seq<char>) -> Seq<char>
    decreases rel.len(),
{
    if rel.len() == 0 {
        Seq::empty()
    } else if rel.last() == '/' {
        rel.drop_last()
    } else {
        parent_dir(rel.drop_last())
    }
}

/// The directory part of a relative path.
pub fn parent_of(rel: &str) -> (r: String)
    ensures
        r@ == parent_dir(rel@),
{
    let v = chars_of(rel);
    let mut k: usize = v.len();
    assert(v@.take(k as int) == v@);
    while k > 0 && v[k - 1] != '/'
        invariant
            k <= v@.len(),
            parent_dir(v@.take(k as int)) == parent_dir(rel@),
        decreases k,
    {
        assert(v@.take(k as int).drop_last() == v@.take(k - 1));
        k = k - 1;
    }
    if k == 0 {
        return String::new();
    }
    assert(v@.take(k as int).drop_last() == v@.take(k - 1));
    string_from_range(v.as_slice(), 0, k - 1)
}

/// The path checked before loading a command that runs a script: under
/// `<config_dir>/<shared_dir>/` for a `shared:` name (trimmed), else next to
/// the command file.
pub open spec fn preflight_path(
    config_dir: Seq<char>,
    shared_dir: Seq<char>,
    source_dir: Seq<char>,
    script_ref: Seq<char>,
) -> Seq<char> {
    if starts_with(script_ref, "shared:"@) {
        path_join(path_join(config_dir, shared_dir), shared_name(script_ref))
    } else {
        path_join(path_join(config_dir, source_dir), script_ref)
    }
}

/// The path checked before loading a command that runs `script_ref`.
pub fn preflight_script_path(
    config_dir: &str,
    shared_dir: &str,
    source_dir: &str,
    script_ref: &str,
) -> (r: String)
    ensures
        r@ == preflight_path(config_dir@, shared_dir@, source_dir@, script_ref@),
{
    let v = chars_of(script_ref);
    let p = chars_of("shared:");
    if starts_with_exec(v.as_slice(), p.as_slice()) {
        let (a, b) = trim_bounds(v.as_slice(), p.len(), v.len());
        assert(v@.subrange(p@.len() as int, v@.len() as int) == script_ref@.skip(
            "shared:"@.len() as int,
        ));
        let name = string_from_range(v.as_slice(), a, b);
        let dir = join_path(config_dir, shared_dir);
        join_path(dir.as_str(), name.as_str())
    } else {
        let dir = join_path(config_dir, source_dir);
        join_path(dir.as_str(), script_ref)
    }
}

/// The pre-flight check looks where running the script looks: for a
/// command file in `source_dir` under the commands root, a script reference
/// that resolves at all resolves to the pre-flight path.
pub proof fn law_preflight_matches_resolution(
    raw: Seq<char>,
    commands_root: Seq<char>,
    shared_dir: Seq<char>,
    source_dir: Seq<char>,
)
    ensures
        script_path_spec(raw, path_join(commands_root, source_dir), commands_root, shared_dir)
            matches Ok(p) ==> p == preflight_path(commands_root, shared_dir, source_dir, raw),
{
}

// ── Warnings of a loaded command ────────────────────────────────────────────

/// The warning for a script in `state` at `path`, if any.
pub open spec fn script_warning(path: Seq<char>, state: ScriptState) -> Option<Seq<char>> {
    match state {
        ScriptState::Missing => Some("Script not found: "@ + path),
        ScriptState::NotExecutable => Some(
            "Script is not executable (run: chmod +x "@ + path + ")"@,
        ),
        ScriptState::Present => None,
    }
}

/// One warning per invalid inline env key, in entry order.
pub open spec fn env_warnings(rel: Seq<char>, pairs: Seq<(Seq<char>, Seq<char>)>) -> Seq<
    (Seq<char>, Seq<char>),
>
    decreases pairs.len(),
{
    if pairs.len() == 0 {
        Seq::empty()
    } else {
        let prev = env_warnings(rel, pairs.drop_last());
        match env_key_check(pairs.last().0, "inline env"@) {
            Err(m) => prev.push((rel, m)),
            Ok(_) => prev,
        }
    }
}

/// The warnings a loaded command gets: its env keys, then its script.
pub open spec fn command_warnings(
    rel: Seq<char>,
    cmd: Command,
    state: ScriptState,
    config_dir: Seq<char>,
    shared_dir: Seq<char>,
) -> Seq<(Seq<char>, Seq<char>)> {
    let ew = env_warnings(rel, cmd.env.pairs());
    match action_script(cmd.action) {
        Some(sr) => match script_warning(
            preflight_path(config_dir, shared_dir, parent_dir(rel), sr),
            state,
        ) {
            Some(m) => ew.push((rel, m)),
            None => ew,
        },
        None => ew,
    }
}

// ── The model of loading ────────────────────────────────────────────────────

/// What became of one file.
pub enum Fate {
    /// It could not be read or parsed.
    Skipped,
    /// Its command is disabled.
    Disabled,
    /// Its phrase is reserved.
    Reserved,
    /// Its phrase was already claimed.
    Duplicate,
    /// Its command was loaded.
    Loaded,
}

/// What loading a sequence of files yields, as indices and texts.
pub struct LoadModel {
    /// Indices of the files whose commands were loaded, in order.
    pub kept: Seq<int>,
    /// `(lowercase phrase, kept, ignored)` of each duplicate.
    pub duplicates: Seq<(Seq<char>, Seq<char>, Seq<char>)>,
    /// `(phrase, file)` of each reserved phrase.
    pub reserved: Seq<(Seq<char>, Seq<char>)>,
    /// `(file, reason)` of each skipped file.
    pub skipped: Seq<(Seq<char>, Seq<char>)>,
    /// `(file, message)` of each command warning.
    pub warnings: Seq<(Seq<char>, Seq<char>)>,
    /// Lowercase phrase → path of the file that claimed it (only kept up
    /// when duplicates are not allowed).
    pub seen: Map<Seq<char>, Seq<char>>,
    /// What became of each file, by index.
    pub fates: Seq<Fate>,
    /// Index of the ignored file of each duplicate.
    pub duplicate_files: Seq<int>,
    /// Index of the file of each reserved phrase.
    pub reserved_files: Seq<int>,
    /// Index of each skipped file.
    pub skipped_files: Seq<int>,
}

/// Nothing loaded yet.
pub open spec fn empty_model() -> LoadModel {
    LoadModel {
        kept: Seq::empty(),
        duplicates: Seq::empty(),
        reserved: Seq::empty(),
        skipped: Seq::empty(),
        warnings: Seq::empty(),
        seen: Map::empty(),
        fates: Seq::empty(),
        duplicate_files: Seq::empty(),
        reserved_files: Seq::empty(),
        skipped_files: Seq::empty(),
    }
}

/// Loading file `f`, the `i`-th, after `m`.
pub open spec fn load_step(
    m: LoadModel,
    i: int,
    f: CommandFile,
    allow_duplicates: bool,
    config_dir: Seq<char>,
    shared_dir: Seq<char>,
) -> LoadModel {
    let rel = f.rel_path@;
    match f.content {
        FileContent::Unreadable(e) => LoadModel {
            skipped: m.skipped.push((rel, "Could not read file: "@ + e@)),
            fates: m.fates.push(Fate::Skipped),
            skipped_files: m.skipped_files.push(i),
            ..m
        },
        FileContent::Malformed(e) => LoadModel {
            skipped: m.skipped.push((rel, e@)),
            fates: m.fates.push(Fate::Skipped),
            skipped_files: m.skipped_files.push(i),
            ..m
        },
        FileContent::Parsed(cmd, state) => {
            let key = lowercase(cmd.phrase@);
            if !cmd.enabled {
                LoadModel { fates: m.fates.push(Fate::Disabled), ..m }
            } else if is_reserved_key(key) {
                LoadModel {
                    reserved: m.reserved.push((cmd.phrase@, rel)),
                    fates: m.fates.push(Fate::Reserved),
                    reserved_files: m.reserved_files.push(i),
                    ..m
                }
            } else if !allow_duplicates && m.seen.contains_key(key) {
                LoadModel {
                    duplicates: m.duplicates.push((key, m.seen[key], rel)),
                    fates: m.fates.push(Fate::Duplicate),
                    duplicate_files: m.duplicate_files.push(i),
                    ..m
                }
            } else {
                LoadModel {
                    kept: m.kept.push(i),
                    warnings: m.warnings + command_warnings(
                        rel,
                        cmd,
                        state,
                        config_dir,
                        shared_dir,
                    ),
                    seen: if allow_duplicates {
                        m.seen
                    } else {
                        m.seen.insert(key, rel)
                    },
                    fates: m.fates.push(Fate::Loaded),
                    ..m
                }
            }
        },
    }
}

/// Loading the files in order.
pub open spec fn load_model(
    files: Seq<CommandFile>,
    allow_duplicates: bool,
    config_dir: Seq<char>,
    shared_dir: Seq<char>,
) -> LoadModel
    decreases files.len(),
{
    if files.len() == 0 {
        empty_model()
    } else {
        load_step(
            load_model(files.drop_last(), allow_duplicates, config_dir, shared_dir),
            files.len() - 1,
            files.last(),
            allow_duplicates,
            config_dir,
            shared_dir,
        )
    }
}

// ── Views of the result ─────────────────────────────────────────────────────

/// `out` is the command of file `f`, placed: same fields, with the file's
/// directory and path recorded.
pub open spec fn placed(out: Command, f: CommandFile) -> bool {
    match f.content {
        FileContent::Parsed(cmd, _) => {
            &&& out.phrase == cmd.phrase
            &&& out.title == cmd.title
            &&& out.enabled == cmd.enabled
            &&& out.env == cmd.env
            &&& out.action == cmd.action
            &&& out.source_dir@ == parent_dir(f.rel_path@)
            &&& out.source_file@ == f.rel_path@
        },
        _ => false,
    }
}

/// `(phrase, kept, ignored)` of each duplicate warning.
pub open spec fn duplicates_view(v: Seq<DuplicateWarning>) -> Seq<(Seq<char>, Seq<char>, Seq<char>)> {
    v.map_values(|d: DuplicateWarning| (d.phrase@, d.kept@, d.ignored@))
}

/// `(phrase, file)` of each reserved-phrase warning.
pub open spec fn reserved_view(v: Seq<ReservedPhraseWarning>) -> Seq<(Seq<char>, Seq<char>)> {
    v.map_values(|w: ReservedPhraseWarning| (w.phrase@, w.file@))
}

/// `(file, reason)` of each skipped-file warning.
pub open spec fn skipped_view(v: Seq<SkippedFileWarning>) -> Seq<(Seq<char>, Seq<char>)> {
    v.map_values(|w: SkippedFileWarning| (w.file@, w.reason@))
}

/// `(file, message)` of each command warning.
pub open spec fn warnings_view(v: Seq<CommandWarning>) -> Seq<(Seq<char>, Seq<char>)> {
    v.map_values(|w: CommandWarning| (w.file@, w.message@))
}

/// `r` is what the model `m` describes for `files`.
pub open spec fn result_matches(r: LoadResult, files: Seq<CommandFile>, m: LoadModel) -> bool {
    &&& r.commands@.len() == m.kept.len()
    &&& forall|j: int|
        #![trigger r.commands@[j]]
        0 <= j < m.kept.len() ==> 0 <= m.kept[j] < files.len() && placed(
            r.commands@[j],
            files[m.kept[j]],
        )
    &&& duplicates_view(r.duplicates@) == m.duplicates
    &&& reserved_view(r.reserved@) == m.reserved
    &&& skipped_view(r.skipped@) == m.skipped
    &&& warnings_view(r.warnings@) == m.warnings
}

// ── What loading guarantees ─────────────────────────────────────────────────

/// The lowercase phrase of a parsed file (empty for the others).
pub open spec fn file_key(f: CommandFile) -> Seq<char> {
    match f.content {
        FileContent::Parsed(cmd, _) => lowercase(cmd.phrase@),
        _ => Seq::empty(),
    }
}

/// A file whose command can be loaded: parsed, enabled, not reserved.
pub open spec fn is_loadable(f: CommandFile) -> bool {
    match f.content {
        FileContent::Parsed(cmd, _) => cmd.enabled && !is_reserved_key(lowercase(cmd.phrase@)),
        _ => false,
    }
}

/// A file whose command is disabled.
pub open spec fn is_disabled(f: CommandFile) -> bool {
    match f.content {
        FileContent::Parsed(cmd, _) => !cmd.enabled,
        _ => false,
    }
}

/// Number of files with a disabled command.
pub open spec fn disabled_count(files: Seq<CommandFile>) -> nat
    decreases files.len(),
{
    if files.len() == 0 {
        0
    } else {
        disabled_count(files.drop_last()) + if is_disabled(files.last()) {
            1nat
        } else {
            0nat
        }
    }
}

/// Number of files whose command can be loaded.
pub open spec fn loadable_count(files: Seq<CommandFile>) -> nat
    decreases files.len(),
{
    if files.len() == 0 {
        0
    } else {
        loadable_count(files.drop_last()) + if is_loadable(files.last()) {
            1nat
        } else {
            0nat
        }
    }
}

/// Duplicate `d` of `m` names a loaded file, earlier than the ignored one,
/// whose lowercase phrase is the duplicate's phrase.
pub open spec fn dup_backed(files: Seq<CommandFile>, m: LoadModel, d: int) -> bool {
    exists|j: int|
        0 <= j < m.kept.len() && #[trigger] m.kept[j] < m.duplicate_files[d]
            && m.duplicates[d].1 == files[m.kept[j]].rel_path@ && m.duplicates[d].0 == file_key(
            files[m.kept[j]],
        )
}

/// The claimed phrase `k` of `m` belongs to a loaded file, whose path is
/// recorded for it.
pub open spec fn seen_backed(files: Seq<CommandFile>, m: LoadModel, k: Seq<char>) -> bool {
    exists|j: int|
        0 <= j < m.kept.len() && file_key(files[#[trigger] m.kept[j]]) == k && m.seen[k]
            == files[m.kept[j]].rel_path@
}

/// The file a duplicate warning says was kept holds a loaded command whose
/// lowercase phrase is the warning's phrase.
pub open spec fn duplicate_kept_loaded(r: LoadResult, d: int) -> bool {
    exists|j: int|
        0 <= j < r.commands@.len() && (#[trigger] r.commands@[j]).source_file@
            == r.duplicates@[d].kept@ && lowercase(r.commands@[j].phrase@)
            == r.duplicates@[d].phrase@
}

/// The invariant of loading: what the model of loading `files` satisfies.
pub open spec fn model_facts(files: Seq<CommandFile>, allow_duplicates: bool, m: LoadModel) -> bool {
    &&& forall|j: int|
        0 <= j < m.kept.len() ==> 0 <= #[trigger] m.kept[j] && m.kept[j] < files.len()
            && is_loadable(files[m.kept[j]])
    &&& forall|j1: int, j2: int|
        0 <= j1 < j2 < m.kept.len() ==> #[trigger] m.kept[j1] < #[trigger] m.kept[j2]
    &&& !allow_duplicates ==> forall|j1: int, j2: int|
        0 <= j1 < j2 < m.kept.len() ==> file_key(files[#[trigger] m.kept[j1]]) != file_key(
            files[#[trigger] m.kept[j2]],
        )
    &&& !allow_duplicates ==> forall|k: Seq<char>|
        #[trigger] m.seen.contains_key(k) ==> seen_backed(files, m, k)
    &&& !allow_duplicates ==> forall|j: int|
        0 <= j < m.kept.len() ==> m.seen.contains_key(file_key(files[#[trigger] m.kept[j]]))
    &&& forall|d: int| 0 <= d < m.duplicates.len() ==> #[trigger] dup_backed(files, m, d)
    &&& allow_duplicates ==> m.duplicates.len() == 0
    &&& m.skipped.len() + m.reserved.len() + m.duplicates.len() + m.kept.len() + disabled_count(
        files,
    ) == files.len()
    &&& m.kept.len() + m.duplicates.len() == loadable_count(files)
}

/// The fate of file `i` is recorded in the matching index list.
pub open spec fn fate_listed(m: LoadModel, i: int) -> bool {
    match m.fates[i] {
        Fate::Loaded => exists|j: int| 0 <= j < m.kept.len() && #[trigger] m.kept[j] == i,
        Fate::Duplicate => exists|d: int|
            0 <= d < m.duplicate_files.len() && #[trigger] m.duplicate_files[d] == i,
        Fate::Reserved => exists|d: int|
            0 <= d < m.reserved_files.len() && #[trigger] m.reserved_files[d] == i,
        Fate::Skipped => exists|d: int|
            0 <= d < m.skipped_files.len() && #[trigger] m.skipped_files[d] == i,
        Fate::Disabled => true,
    }
}

/// Duplicate `d` is the warning for its ignored file.
pub open spec fn dup_file(files: Seq<CommandFile>, m: LoadModel, d: int) -> bool {
    let i = m.duplicate_files[d];
    &&& 0 <= i < files.len()
    &&& m.fates[i] == Fate::Duplicate
    &&& m.duplicates[d].2 == files[i].rel_path@
    &&& m.duplicates[d].0 == file_key(files[i])
}

/// Reserved-phrase warning `d` is the warning for its file.
pub open spec fn reserved_file(files: Seq<CommandFile>, m: LoadModel, d: int) -> bool {
    let i = m.reserved_files[d];
    &&& 0 <= i < files.len()
    &&& m.fates[i] == Fate::Reserved
    &&& m.reserved[d].1 == files[i].rel_path@
}

/// Skipped-file warning `d` is the warning for its file.
pub open spec fn skipped_file(files: Seq<CommandFile>, m: LoadModel, d: int) -> bool {
    let i = m.skipped_files[d];
    &&& 0 <= i < files.len()
    &&& m.fates[i] == Fate::Skipped
    &&& m.skipped[d].0 == files[i].rel_path@
}

/// `fate` is what the content of `f` leads to: a skipped file for one
/// that could not be read or parsed, disabled for a disabled command,
/// reserved for a reserved phrase, and otherwise a duplicate or a load.
pub open spec fn fate_fits(f: CommandFile, fate: Fate) -> bool {
    match f.content {
        FileContent::Parsed(cmd, _) => if !cmd.enabled {
            fate is Disabled
        } else if is_reserved_key(lowercase(cmd.phrase@)) {
            fate is Reserved
        } else {
            fate is Duplicate || fate is Loaded
        },
        _ => fate is Skipped,
    }
}

/// What the model records of each file: one fate per file, disabled
/// exactly for disabled commands, each fate found in its list, and each
/// entry of a list naming a file of that fate.
pub open spec fn fate_facts(files: Seq<CommandFile>, m: LoadModel) -> bool {
    &&& m.fates.len() == files.len()
    &&& m.duplicate_files.len() == m.duplicates.len()
    &&& m.reserved_files.len() == m.reserved.len()
    &&& m.skipped_files.len() == m.skipped.len()
    &&& forall|i: int|
        0 <= i < files.len() ==> ((#[trigger] m.fates[i] == Fate::Disabled) <==> is_disabled(files[i]))
    &&& forall|i: int| 0 <= i < files.len() ==> #[trigger] fate_listed(m, i)
    &&& forall|i: int| 0 <= i < files.len() ==> fate_fits(files[i], #[trigger] m.fates[i])
    &&& forall|j: int|
        0 <= j < m.kept.len() ==> 0 <= #[trigger] m.kept[j] < files.len() && m.fates[m.kept[j]]
            == Fate::Loaded
    &&& forall|d: int| 0 <= d < m.duplicates.len() ==> #[trigger] dup_file(files, m, d)
    &&& forall|d: int| 0 <= d < m.reserved.len() ==> #[trigger] reserved_file(files, m, d)
    &&& forall|d: int| 0 <= d < m.skipped.len() ==> #[trigger] skipped_file(files, m, d)
}

/// Loading records one fate per file, in its list.
pub proof fn lemma_fate_facts(
    files: Seq<CommandFile>,
    allow_duplicates: bool,
    config_dir: Seq<char>,
    shared_dir: Seq<char>,
)
    ensures
        fate_facts(files, load_model(files, allow_duplicates, config_dir, shared_dir)),
    decreases files.len(),
{
    if files.len() == 0 {
        return ;
    }
    let prev = files.drop_last();
    let n = prev.len() as int;
    lemma_fate_facts(prev, allow_duplicates, config_dir, shared_dir);
    let m = load_model(prev, allow_duplicates, config_dir, shared_dir);
    let f = files.last();
    let m2 = load_model(files, allow_duplicates, config_dir, shared_dir);
    assert(m2 == load_step(m, n, f, allow_duplicates, config_dir, shared_dir));
    assert forall|k: int| 0 <= k < n implies #[trigger] prev[k] == files[k] by {}
    assert(files[n] == f);
    let fate = m2.fates[n];
    assert(m2.fates == m.fates.push(fate));
    assert(m2.kept == if fate is Loaded { m.kept.push(n) } else { m.kept });
    assert(m2.duplicate_files == if fate is Duplicate {
        m.duplicate_files.push(n)
    } else {
        m.duplicate_files
    });
    assert(m2.reserved_files == if fate is Reserved {
        m.reserved_files.push(n)
    } else {
        m.reserved_files
    });
    assert(m2.skipped_files == if fate is Skipped {
        m.skipped_files.push(n)
    } else {
        m.skipped_files
    });
    assert(m2.duplicates.len() == m2.duplicate_files.len());
    assert(m2.reserved.len() == m2.reserved_files.len());
    assert(m2.skipped.len() == m2.skipped_files.len());
    assert(forall|d: int| 0 <= d < m.duplicates.len() ==> m2.duplicates[d] == m.duplicates[d]);
    assert(forall|d: int| 0 <= d < m.reserved.len() ==> m2.reserved[d] == m.reserved[d]);
    assert(forall|d: int| 0 <= d < m.skipped.len() ==> m2.skipped[d] == m.skipped[d]);
    assert(fate is Duplicate ==> m2.duplicates[m.duplicates.len() as int].2 == f.rel_path@
        && m2.duplicates[m.duplicates.len() as int].0 == file_key(f));
    assert(fate is Reserved ==> m2.reserved[m.reserved.len() as int].1 == f.rel_path@);
    assert(fate is Skipped ==> m2.skipped[m.skipped.len() as int].0 == f.rel_path@);
    assert((fate is Disabled) == is_disabled(f));
    assert(fate_fits(f, fate));
    assert forall|i: int| 0 <= i < files.len() implies fate_fits(files[i], #[trigger] m2.fates[i]) by {
        if i < n {
            assert(fate_fits(prev[i], m.fates[i]));
        }
    }
    assert forall|i: int| 0 <= i < files.len() implies ((#[trigger] m2.fates[i] == Fate::Disabled)
        <==> is_disabled(files[i])) by {
        if i < n {
            assert(m.fates[i] == Fate::Disabled <==> is_disabled(prev[i]));
        }
    }
    assert forall|i: int| 0 <= i < files.len() implies #[trigger] fate_listed(m2, i) by {
        if i < n {
            assert(fate_listed(m, i));
            assert(m2.fates[i] == m.fates[i]);
            match m.fates[i] {
                Fate::Loaded => {
                    let j = choose|j: int| 0 <= j < m.kept.len() && #[trigger] m.kept[j] == i;
                    assert(m2.kept[j] == i);
                },
                Fate::Duplicate => {
                    let d = choose|d: int|
                        0 <= d < m.duplicate_files.len() && #[trigger] m.duplicate_files[d] == i;
                    assert(m2.duplicate_files[d] == i);
                },
                Fate::Reserved => {
                    let d = choose|d: int|
                        0 <= d < m.reserved_files.len() && #[trigger] m.reserved_files[d] == i;
                    assert(m2.reserved_files[d] == i);
                },
                Fate::Skipped => {
                    let d = choose|d: int|
                        0 <= d < m.skipped_files.len() && #[trigger] m.skipped_files[d] == i;
                    assert(m2.skipped_files[d] == i);
                },
                Fate::Disabled => {},
            }
        } else {
            match fate {
                Fate::Loaded => {
                    assert(m2.kept[m.kept.len() as int] == i);
                },
                Fate::Duplicate => {
                    assert(m2.duplicate_files[m.duplicate_files.len() as int] == i);
                },
                Fate::Reserved => {
                    assert(m2.reserved_files[m.reserved_files.len() as int] == i);
                },
                Fate::Skipped => {
                    assert(m2.skipped_files[m.skipped_files.len() as int] == i);
                },
                Fate::Disabled => {},
            }
        }
    }
    assert forall|j: int| 0 <= j < m2.kept.len() implies 0 <= #[trigger] m2.kept[j] < files.len()
        && m2.fates[m2.kept[j]] == Fate::Loaded by {
        if j < m.kept.len() {
            assert(m2.kept[j] == m.kept[j]);
        }
    }
    assert forall|d: int| 0 <= d < m2.duplicates.len() implies #[trigger] dup_file(files, m2, d) by {
        if d < m.duplicates.len() {
            assert(dup_file(prev, m, d));
            assert(m2.duplicate_files[d] == m.duplicate_files[d]);
        }
    }
    assert forall|d: int| 0 <= d < m2.reserved.len() implies #[trigger] reserved_file(files, m2, d) by {
        if d < m.reserved.len() {
            assert(reserved_file(prev, m, d));
            assert(m2.reserved_files[d] == m.reserved_files[d]);
        }
    }
    assert forall|d: int| 0 <= d < m2.skipped.len() implies #[trigger] skipped_file(files, m2, d) by {
        if d < m.skipped.len() {
            assert(skipped_file(prev, m, d));
            assert(m2.skipped_files[d] == m.skipped_files[d]);
        }
    }
}

/// Loading keeps its invariant: loaded files are loadable and in order;
/// unless duplicates are allowed their lowercase phrases are distinct and
/// each duplicate names a loaded file with the same phrase; every file is
/// counted exactly once among skipped, reserved, duplicate, loaded and
/// disabled; and every loadable file is either loaded or a duplicate (so
/// with duplicates allowed, every loadable file is loaded).
pub proof fn lemma_load_model_facts(
    files: Seq<CommandFile>,
    allow_duplicates: bool,
    config_dir: Seq<char>,
    shared_dir: Seq<char>,
)
    ensures
        model_facts(files, allow_duplicates, load_model(files, allow_duplicates, config_dir, shared_dir)),
    decreases files.len(),
{
    if files.len() == 0 {
        return ;
    }
    let prev = files.drop_last();
    let n = files.len() - 1;
    lemma_load_model_facts(prev, allow_duplicates, config_dir, shared_dir);
    lemma_fate_facts(prev, allow_duplicates, config_dir, shared_dir);
    let m = load_model(prev, allow_duplicates, config_dir, shared_dir);
    let f = files.last();
    let m2 = load_model(files, allow_duplicates, config_dir, shared_dir);
    assert(m2 == load_step(m, n, f, allow_duplicates, config_dir, shared_dir));
    assert forall|k: int| 0 <= k < n implies #[trigger] prev[k] == files[k] by {}
    assert(forall|j: int| 0 <= j < m.kept.len() ==> prev[m.kept[j]] == files[#[trigger] m.kept[j]]);
    match f.content {
        FileContent::Parsed(cmd, state) => {
            let key = lowercase(cmd.phrase@);
            if !cmd.enabled || is_reserved_key(key) {
                assert(!cmd.enabled ==> is_disabled(f));
                assert(m2.kept == m.kept);
                assert(m2.duplicates == m.duplicates);
                assert forall|d: int| 0 <= d < m2.duplicates.len() implies #[trigger] dup_backed(files, m2, d) by {
                    assert(dup_backed(prev, m, d));
                        let jj = choose|jj: int|
                            0 <= jj < m.kept.len() && #[trigger] m.kept[jj] < m.duplicate_files[d]
                                && m.duplicates[d].1 == prev[m.kept[jj]].rel_path@
                                && m.duplicates[d].0 == file_key(prev[m.kept[jj]]);
                        assert(m2.duplicate_files[d] == m.duplicate_files[d]);
                    assert(files[m2.kept[jj]] == prev[m.kept[jj]]);
                }
            } else if !allow_duplicates && m.seen.contains_key(key) {
                assert(seen_backed(prev, m, key));
                let j = choose|j: int|
                    0 <= j < m.kept.len() && file_key(prev[#[trigger] m.kept[j]]) == key && m.seen[key]
                        == prev[m.kept[j]].rel_path@;
                assert(m2.kept == m.kept);
                assert(m2.duplicates == m.duplicates.push((key, m.seen[key], f.rel_path@)));
                assert(m2.duplicate_files == m.duplicate_files.push(n));
                assert forall|d: int| 0 <= d < m2.duplicates.len() implies #[trigger] dup_backed(files, m2, d) by {
                    if d < m.duplicates.len() {
                        assert(m2.duplicates[d] == m.duplicates[d]);
                        assert(dup_backed(prev, m, d));
                        let jj = choose|jj: int|
                            0 <= jj < m.kept.len() && #[trigger] m.kept[jj] < m.duplicate_files[d]
                                && m.duplicates[d].1 == prev[m.kept[jj]].rel_path@
                                && m.duplicates[d].0 == file_key(prev[m.kept[jj]]);
                        assert(m2.duplicate_files[d] == m.duplicate_files[d]);
                        assert(files[m2.kept[jj]] == prev[m.kept[jj]]);
                    } else {
                        assert(files[m2.kept[j]] == prev[m.kept[j]]);
                        assert(m2.duplicate_files[d] == n);
                        assert(m.kept[j] < n);
                    }
                }
            } else {
                assert(is_loadable(f));
                assert(m2.duplicates == m.duplicates);
                assert(files[n] == f);
                assert(m2.kept == m.kept.push(n));
                assert forall|j: int| 0 <= j < m2.kept.len() implies 0 <= #[trigger] m2.kept[j] && m2.kept[j] < files.len()
                    && is_loadable(files[m2.kept[j]]) by {
                    if j < m.kept.len() {
                        assert(m2.kept[j] == m.kept[j]);
                    }
                }
                if !allow_duplicates {
                    assert(m2.seen == m.seen.insert(key, f.rel_path@));
                    assert forall|j1: int, j2: int| 0 <= j1 < j2 < m2.kept.len() implies file_key(files[#[trigger] m2.kept[j1]]) != file_key(
                        files[#[trigger] m2.kept[j2]],
                    ) by {
                        if j2 == m.kept.len() {
                            assert(m.seen.contains_key(file_key(prev[m.kept[j1]])));
                            assert(files[m2.kept[j2]] == f);
                        } else {
                            assert(file_key(prev[m.kept[j1]]) != file_key(prev[m.kept[j2]]));
                        }
                    }
                    assert forall|k: Seq<char>| #[trigger] m2.seen.contains_key(k) implies seen_backed(files, m2, k) by {
                        if k == key {
                            assert(files[m2.kept[m.kept.len() as int]] == f);
                        } else {
                            assert(seen_backed(prev, m, k));
                            let jj = choose|jj: int|
                                0 <= jj < m.kept.len() && file_key(prev[#[trigger] m.kept[jj]]) == k
                                    && m.seen[k] == prev[m.kept[jj]].rel_path@;
                            assert(m2.kept[jj] == m.kept[jj]);
                        }
                    }
                    assert forall|j: int| 0 <= j < m2.kept.len() implies m2.seen.contains_key(
                        file_key(files[#[trigger] m2.kept[j]]),
                    ) by {
                        if j < m.kept.len() {
                            assert(m2.kept[j] == m.kept[j]);
                            assert(m.seen.contains_key(file_key(prev[m.kept[j]])));
                        }
                    }
                }
                assert forall|d: int| 0 <= d < m2.duplicates.len() implies #[trigger] dup_backed(files, m2, d) by {
                    assert(dup_backed(prev, m, d));
                        let jj = choose|jj: int|
                            0 <= jj < m.kept.len() && #[trigger] m.kept[jj] < m.duplicate_files[d]
                                && m.duplicates[d].1 == prev[m.kept[jj]].rel_path@
                                && m.duplicates[d].0 == file_key(prev[m.kept[jj]]);
                        assert(m2.duplicate_files[d] == m.duplicate_files[d]);
                    assert(m2.kept[jj] == m.kept[jj]);
                    assert(files[m2.kept[jj]] == prev[m.kept[jj]]);
                }
            }
        },
        _ => {
            assert(m2.kept == m.kept);
            assert(m2.duplicates == m.duplicates);
            assert forall|d: int| 0 <= d < m2.duplicates.len() implies #[trigger] dup_backed(files, m2, d) by {
                assert(dup_backed(prev, m, d));
                let jj = choose|jj: int|
                    0 <= jj < m.kept.len() && #[trigger] m.kept[jj] < m.duplicate_files[d]
                        && m.duplicates[d].1 == prev[m.kept[jj]].rel_path@
                        && m.duplicates[d].0 == file_key(prev[m.kept[jj]]);
                assert(m2.duplicate_files[d] == m.duplicate_files[d]);
                assert(files[m2.kept[jj]] == prev[m.kept[jj]]);
            }
        },
    }
}

// ── Laws of loading ─────────────────────────────────────────────────────────

/// No two files share a path.
pub open spec fn paths_distinct(files: Seq<CommandFile>) -> bool {
    forall|i: int, j: int|
        0 <= i < j < files.len() ==> (#[trigger] files[i]).rel_path@ != (#[trigger] files[j]).rel_path@
}

/// A loaded command comes from the file at `p`.
pub open spec fn named_loaded(r: LoadResult, p: Seq<char>) -> bool {
    exists|j: int| 0 <= j < r.commands@.len() && (#[trigger] r.commands@[j]).source_file@ == p
}

/// A duplicate warning names `p` as the ignored file.
pub open spec fn named_duplicate(r: LoadResult, p: Seq<char>) -> bool {
    exists|d: int| 0 <= d < r.duplicates@.len() && (#[trigger] r.duplicates@[d]).ignored@ == p
}

/// A reserved-phrase warning names the file at `p`.
pub open spec fn named_reserved(r: LoadResult, p: Seq<char>) -> bool {
    exists|d: int| 0 <= d < r.reserved@.len() && (#[trigger] r.reserved@[d]).file@ == p
}

/// A skipped-file warning names the file at `p`.
pub open spec fn named_skipped(r: LoadResult, p: Seq<char>) -> bool {
    exists|d: int| 0 <= d < r.skipped@.len() && (#[trigger] r.skipped@[d]).file@ == p
}

/// In how many of the four lists (commands, duplicates as ignored,
/// reserved, skipped) the file at `p` is named.
pub open spec fn report_count(r: LoadResult, p: Seq<char>) -> int {
    (if named_loaded(r, p) { 1int } else { 0int }) + (if named_duplicate(r, p) { 1int } else { 0int })
        + (if named_reserved(r, p) { 1int } else { 0int }) + (if named_skipped(r, p) { 1int } else { 0int })
}

/// Where the file at index `i` is named: in exactly the list of its fate.
proof fn lemma_named_by_fate(
    files: Seq<CommandFile>,
    allow_duplicates: bool,
    config_dir: Seq<char>,
    shared_dir: Seq<char>,
    r: LoadResult,
    i: int,
)
    requires
        result_matches(r, files, load_model(files, allow_duplicates, config_dir, shared_dir)),
        paths_distinct(files),
        0 <= i < files.len(),
    ensures
        ({
            let fate = load_model(files, allow_duplicates, config_dir, shared_dir).fates[i];
            let p = files[i].rel_path@;
            &&& named_loaded(r, p) <==> fate is Loaded
            &&& named_duplicate(r, p) <==> fate is Duplicate
            &&& named_reserved(r, p) <==> fate is Reserved
            &&& named_skipped(r, p) <==> fate is Skipped
        }),
{
    let m = load_model(files, allow_duplicates, config_dir, shared_dir);
    lemma_fate_facts(files, allow_duplicates, config_dir, shared_dir);
    let p = files[i].rel_path@;
    let fate = m.fates[i];
    assert(fate_listed(m, i));
    if named_loaded(r, p) {
        let j = choose|j: int| 0 <= j < r.commands@.len() && (#[trigger] r.commands@[j]).source_file@ == p;
        let k = m.kept[j];
        assert(placed(r.commands@[j], files[k]));
        assert(fate is Loaded) by {
            if k < i {
                assert(files[k].rel_path@ != files[i].rel_path@);
            } else if k > i {
                assert(files[i].rel_path@ != files[k].rel_path@);
            }
        }
    }
    if named_duplicate(r, p) {
        let d = choose|d: int| 0 <= d < r.duplicates@.len() && (#[trigger] r.duplicates@[d]).ignored@ == p;
        assert(duplicates_view(r.duplicates@)[d] == m.duplicates[d]);
        assert(dup_file(files, m, d));
        let k = m.duplicate_files[d];
        assert(fate is Duplicate) by {
            if k < i {
                assert(files[k].rel_path@ != files[i].rel_path@);
            } else if k > i {
                assert(files[i].rel_path@ != files[k].rel_path@);
            }
        }
    }
    if named_reserved(r, p) {
        let d = choose|d: int| 0 <= d < r.reserved@.len() && (#[trigger] r.reserved@[d]).file@ == p;
        assert(reserved_view(r.reserved@)[d] == m.reserved[d]);
        assert(reserved_file(files, m, d));
        let k = m.reserved_files[d];
        assert(fate is Reserved) by {
            if k < i {
                assert(files[k].rel_path@ != files[i].rel_path@);
            } else if k > i {
                assert(files[i].rel_path@ != files[k].rel_path@);
            }
        }
    }
    if named_skipped(r, p) {
        let d = choose|d: int| 0 <= d < r.skipped@.len() && (#[trigger] r.skipped@[d]).file@ == p;
        assert(skipped_view(r.skipped@)[d] == m.skipped[d]);
        assert(skipped_file(files, m, d));
        let k = m.skipped_files[d];
        assert(fate is Skipped) by {
            if k < i {
                assert(files[k].rel_path@ != files[i].rel_path@);
            } else if k > i {
                assert(files[i].rel_path@ != files[k].rel_path@);
            }
        }
    }
    match fate {
        Fate::Loaded => {
            let j = choose|j: int| 0 <= j < m.kept.len() && #[trigger] m.kept[j] == i;
            assert(placed(r.commands@[j], files[i]));
            assert(named_loaded(r, p));
        },
        Fate::Duplicate => {
            let d = choose|d: int|
                0 <= d < m.duplicate_files.len() && #[trigger] m.duplicate_files[d] == i;
            assert(dup_file(files, m, d));
            assert(duplicates_view(r.duplicates@)[d] == m.duplicates[d]);
            assert(r.duplicates@[d].ignored@ == p);
            assert(named_duplicate(r, p));
        },
        Fate::Reserved => {
            let d = choose|d: int|
                0 <= d < m.reserved_files.len() && #[trigger] m.reserved_files[d] == i;
            assert(reserved_file(files, m, d));
            assert(reserved_view(r.reserved@)[d] == m.reserved[d]);
            assert(r.reserved@[d].file@ == p);
            assert(named_reserved(r, p));
        },
        Fate::Skipped => {
            let d = choose|d: int|
                0 <= d < m.skipped_files.len() && #[trigger] m.skipped_files[d] == i;
            assert(skipped_file(files, m, d));
            assert(skipped_view(r.skipped@)[d] == m.skipped[d]);
            assert(r.skipped@[d].file@ == p);
            assert(named_skipped(r, p));
        },
        Fate::Disabled => {},
    }
}

/// Every command file is accounted for exactly once: each file, by its
/// path, is named in exactly one of the loaded commands, the duplicates (as
/// the ignored file), the reserved phrases and the skipped files, except a
/// file whose command is disabled, which is named in none.
pub proof fn law_each_file_reported_once(
    files: Seq<CommandFile>,
    allow_duplicates: bool,
    config_dir: Seq<char>,
    shared_dir: Seq<char>,
    r: LoadResult,
)
    requires
        result_matches(r, files, load_model(files, allow_duplicates, config_dir, shared_dir)),
        paths_distinct(files),
    ensures
        forall|i: int|
            0 <= i < files.len() ==> #[trigger] report_count(r, files[i].rel_path@) == if is_disabled(
                files[i],
            ) {
                0int
            } else {
                1int
            },
{
    let m = load_model(files, allow_duplicates, config_dir, shared_dir);
    lemma_fate_facts(files, allow_duplicates, config_dir, shared_dir);
    assert forall|i: int| 0 <= i < files.len() implies #[trigger] report_count(
        r,
        files[i].rel_path@,
    ) == if is_disabled(files[i]) {
        0int
    } else {
        1int
    } by {
        lemma_named_by_fate(files, allow_duplicates, config_dir, shared_dir, r, i);
        assert(m.fates[i] == Fate::Disabled <==> is_disabled(files[i]));
    }
}

/// An enabled command whose phrase starts with `/`.
pub open spec fn enabled_slash_command(f: CommandFile) -> bool {
    match f.content {
        FileContent::Parsed(cmd, _) => cmd.enabled && slash_led(cmd.phrase@),
        _ => false,
    }
}

/// A phrase starting with `/` is always refused: each file with an enabled
/// command whose phrase starts with `/` is named in the reserved phrases,
/// and never among the loaded commands, the duplicates or the skipped
/// files, whether or not duplicates are allowed.
pub proof fn law_slash_phrases_reserved(
    files: Seq<CommandFile>,
    allow_duplicates: bool,
    config_dir: Seq<char>,
    shared_dir: Seq<char>,
    r: LoadResult,
)
    requires
        result_matches(r, files, load_model(files, allow_duplicates, config_dir, shared_dir)),
        paths_distinct(files),
        forall|i: int| 0 <= i < files.len() ==> #[trigger] slash_phrase_reserved(files[i]),
    ensures
        forall|i: int|
            0 <= i < files.len() && #[trigger] enabled_slash_command(files[i]) ==> named_reserved(
                r,
                files[i].rel_path@,
            ) && !named_loaded(r, files[i].rel_path@) && !named_duplicate(r, files[i].rel_path@)
                && !named_skipped(r, files[i].rel_path@),
{
    let m = load_model(files, allow_duplicates, config_dir, shared_dir);
    lemma_fate_facts(files, allow_duplicates, config_dir, shared_dir);
    assert forall|i: int| 0 <= i < files.len() && #[trigger] enabled_slash_command(files[i]) implies named_reserved(
        r,
        files[i].rel_path@,
    ) && !named_loaded(r, files[i].rel_path@) && !named_duplicate(r, files[i].rel_path@)
        && !named_skipped(r, files[i].rel_path@) by {
        lemma_named_by_fate(files, allow_duplicates, config_dir, shared_dir, r, i);
        assert(slash_phrase_reserved(files[i]));
        assert(fate_fits(files[i], m.fates[i]));
    }
}

/// Duplicate warning `d` names as kept a file that loads strictly before
/// the ignored one, and both files hold the warning's lowercase phrase.
pub open spec fn kept_loads_first(
    stamps: Seq<FileStamp>,
    files: Seq<CommandFile>,
    r: LoadResult,
    d: int,
) -> bool {
    exists|a: int, b: int|
        0 <= a < stamps.len() && 0 <= b < stamps.len() && (#[trigger] stamps[a]).path@
            == r.duplicates@[d].kept@ && (#[trigger] stamps[b]).path@ == r.duplicates@[d].ignored@
            && stamp_lt(stamps[a], stamps[b]) && file_key(files[a]) == r.duplicates@[d].phrase@
            && file_key(files[b]) == r.duplicates@[d].phrase@
}

/// The oldest file wins: for files taken in load order (older first, equal
/// times by path) with distinct paths, each duplicate warning's kept file
/// loads strictly before its ignored file, and both hold the warning's
/// lowercase phrase.
pub proof fn law_oldest_file_wins(
    stamps: Seq<FileStamp>,
    files: Seq<CommandFile>,
    allow_duplicates: bool,
    config_dir: Seq<char>,
    shared_dir: Seq<char>,
    r: LoadResult,
)
    requires
        in_load_order(stamps),
        stamps.len() == files.len(),
        forall|i: int| 0 <= i < files.len() ==> (#[trigger] stamps[i]).path@ == files[i].rel_path@,
        paths_distinct(files),
        result_matches(r, files, load_model(files, allow_duplicates, config_dir, shared_dir)),
    ensures
        forall|d: int|
            0 <= d < r.duplicates@.len() ==> #[trigger] kept_loads_first(stamps, files, r, d),
{
    let m = load_model(files, allow_duplicates, config_dir, shared_dir);
    lemma_fate_facts(files, allow_duplicates, config_dir, shared_dir);
    lemma_load_model_facts(files, allow_duplicates, config_dir, shared_dir);
    assert forall|d: int| 0 <= d < r.duplicates@.len() implies #[trigger] kept_loads_first(
        stamps,
        files,
        r,
        d,
    ) by {
        assert(duplicates_view(r.duplicates@)[d] == m.duplicates[d]);
        assert(dup_backed(files, m, d));
        assert(dup_file(files, m, d));
        let j = choose|j: int|
            0 <= j < m.kept.len() && #[trigger] m.kept[j] < m.duplicate_files[d]
                && m.duplicates[d].1 == files[m.kept[j]].rel_path@ && m.duplicates[d].0 == file_key(
                files[m.kept[j]],
            );
        let a = m.kept[j];
        let b = m.duplicate_files[d];
        assert(0 <= a);
        assert(files[a].rel_path@ != files[b].rel_path@);
        assert(stamps[a].path@ == files[a].rel_path@);
        assert(stamps[b].path@ == files[b].rel_path@);
        assert(!stamp_lt(stamps[b], stamps[a]));
        lemma_stamp_lt_total(stamps[a], stamps[b]);
        assert(stamp_lt(stamps[a], stamps[b]));
    }
}

// ── Loading ─────────────────────────────────────────────────────────────────

/// Append the env-key warnings of `env` for the file `rel`.
fn push_env_warnings(warnings: &mut Vec<CommandWarning>, rel: &String, env: &EnvMap)
    ensures
        warnings_view(final(warnings)@) == warnings_view(old(warnings)@) + env_warnings(
            rel@,
            env.pairs(),
        ),
{
    let n = env.len();
    let ghost start = warnings_view(warnings@);
    let mut i: usize = 0;
    while i < n
        invariant
            n == env.pairs().len(),
            i <= n,
            warnings_view(warnings@) == start + env_warnings(rel@, env.pairs().take(i as int)),
        decreases n - i,
    {
        let (k, _v) = env.entry(i);
        let res = validate_env_key(k.as_str(), "inline env");
        assert(env.pairs().take(i + 1).drop_last() == env.pairs().take(i as int));
        assert(env.pairs().take(i + 1).last() == env.pairs()[i as int]);
        match res {
            Err(msg) => {
                let ghost before = warnings@;
                warnings.push(CommandWarning { file: rel.clone(), message: msg });
                assert(warnings_view(warnings@) =~= warnings_view(before).push((rel@, msg@)));
            },
            Ok(()) => {},
        }
        i = i + 1;
    }
    assert(env.pairs().take(n as int) == env.pairs());
}

/// Load one file into `r` and `seen`.
fn load_one(
    r: &mut LoadResult,
    seen: &mut EnvMap,
    f: CommandFile,
    allow_duplicates: bool,
    config_dir: &str,
    shared_dir: &str,
    Ghost(files): Ghost<Seq<CommandFile>>,
    Ghost(m): Ghost<LoadModel>,
    Ghost(i): Ghost<int>,
)
    requires
        0 <= i < files.len(),
        files[i] == f,
        forall|j: int| 0 <= j < m.kept.len() ==> 0 <= #[trigger] m.kept[j] && m.kept[j] < i,
        result_matches(*old(r), files, m),
        no_slash_led_phrase(*old(r)),
        reserved_slash_led(*old(r)),
        old(seen)@ == m.seen,
    ensures
        no_slash_led_phrase(*final(r)),
        reserved_slash_led(*final(r)),
        slash_phrase_reserved(f),
        ({
            let m2 = load_step(m, i, f, allow_duplicates, config_dir@, shared_dir@);
            &&& result_matches(*final(r), files, m2)
            &&& final(seen)@ == m2.seen
            &&& forall|j: int| 0 <= j < m2.kept.len() ==> 0 <= #[trigger] m2.kept[j] && m2.kept[j] <= i
        }),
{
    let ghost m2 = load_step(m, i, f, allow_duplicates, config_dir@, shared_dir@);
    let ghost old_r = *r;
    let ghost fg = f;
    let CommandFile { rel_path: rel, content } = f;
    match content {
        FileContent::Unreadable(e) => {
            r.skipped.push(
                SkippedFileWarning { file: rel, reason: concat2("Could not read file: ", e.as_str()) },
            );
            assert(skipped_view(r.skipped@) == skipped_view(old_r.skipped@).push(
                (rel@, "Could not read file: "@ + e@),
            ));
        },
        FileContent::Malformed(e) => {
            r.skipped.push(SkippedFileWarning { file: rel, reason: e });
            assert(skipped_view(r.skipped@) == skipped_view(old_r.skipped@).push((rel@, e@)));
        },
        FileContent::Parsed(cmd, state) => {
            if !cmd.enabled {
                return ;
            }
            let key = to_lowercase(cmd.phrase.as_str());
            let ghost kg = key@;
            let kv = chars_of(key.as_str());
            assert(slash_phrase_reserved(fg));
            if kv.len() > 0 && kv[0] == '/' {
                assert(slash_led(kg));
                let ghost ph = cmd.phrase@;
                r.reserved.push(ReservedPhraseWarning { phrase: cmd.phrase, file: rel });
                assert(forall|d: int|
                    0 <= d < old_r.reserved@.len() ==> r.reserved@[d] == old_r.reserved@[d]);
                assert(r.reserved@.last().phrase@ == ph);
                assert(reserved_view(r.reserved@) == reserved_view(old_r.reserved@).push(
                    (cmd.phrase@, rel@),
                ));
                return ;
            }
            if !allow_duplicates {
                match seen.get(key.as_str()) {
                    Some(winner) => {
                        let w = winner.clone();
                        let ghost k = key@;
                        r.duplicates.push(DuplicateWarning { phrase: key, kept: w, ignored: rel });
                        assert(duplicates_view(r.duplicates@) == duplicates_view(
                            old_r.duplicates@,
                        ).push((k, m.seen[k], rel@)));
                        return ;
                    },
                    None => {},
                }
                seen.insert(key, rel.clone());
            }
            let sd = parent_of(rel.as_str());
            let ghost w0 = warnings_view(r.warnings@);
            push_env_warnings(&mut r.warnings, &rel, &cmd.env);
            let ghost ew = env_warnings(rel@, cmd.env.pairs());
            let ghost w1 = r.warnings@;
            match cmd.action.script() {
                Some(sr) => {
                    let p = preflight_script_path(config_dir, shared_dir, sd.as_str(), sr.as_str());
                    match state {
                        ScriptState::Missing => {
                            let msg = concat2("Script not found: ", p.as_str());
                            r.warnings.push(CommandWarning { file: rel.clone(), message: msg });
                            assert(warnings_view(r.warnings@) =~= warnings_view(w1).push(
                                (rel@, msg@),
                            ));
                            assert(w0 + ew.push((rel@, msg@)) =~= (w0 + ew).push((rel@, msg@)));
                        },
                        ScriptState::NotExecutable => {
                            let msg = concat3(
                                "Script is not executable (run: chmod +x ",
                                p.as_str(),
                                ")",
                            );
                            r.warnings.push(CommandWarning { file: rel.clone(), message: msg });
                            assert(warnings_view(r.warnings@) =~= warnings_view(w1).push(
                                (rel@, msg@),
                            ));
                            assert(w0 + ew.push((rel@, msg@)) =~= (w0 + ew).push((rel@, msg@)));
                        },
                        ScriptState::Present => {},
                    }
                },
                None => {},
            }
            let mut cmd = cmd;
            cmd.source_dir = sd;
            cmd.source_file = rel;
            r.commands.push(cmd);
            assert(placed(r.commands@[r.commands@.len() - 1], files[i]));
            assert(!slash_led(kg));
            assert(forall|j: int| 0 <= j < old_r.commands@.len() ==> r.commands@[j] == old_r.commands@[j]);
        },
    }
}

/// Load the command files in order.
///
/// The result holds the loaded commands in file order, each with its
/// file's directory and path, and the duplicate, reserved, skipped and
/// advisory warnings, exactly as [`load_model`] describes.
pub fn load_commands(
    files: Vec<CommandFile>,
    allow_duplicates: bool,
    config_dir: &str,
    shared_dir: &str,
) -> (r: LoadResult)
    ensures
        result_matches(r, files@, load_model(files@, allow_duplicates, config_dir@, shared_dir@)),
        forall|j: int|
            0 <= j < r.commands@.len() ==> (#[trigger] r.commands@[j]).enabled && !is_reserved_key(
                lowercase(r.commands@[j].phrase@),
            ),
        !allow_duplicates ==> forall|j1: int, j2: int|
            0 <= j1 < j2 < r.commands@.len() ==> lowercase((#[trigger] r.commands@[j1]).phrase@)
                != lowercase((#[trigger] r.commands@[j2]).phrase@),
        no_slash_led_phrase(r),
        reserved_slash_led(r),
        forall|i: int| 0 <= i < files@.len() ==> #[trigger] slash_phrase_reserved(files@[i]),
        forall|d: int| 0 <= d < r.duplicates@.len() ==> #[trigger] duplicate_kept_loaded(r, d),
        allow_duplicates ==> r.duplicates@.len() == 0,
        r.commands@.len() + r.duplicates@.len() == loadable_count(files@),
        r.skipped@.len() + r.reserved@.len() + r.duplicates@.len() + r.commands@.len()
            + disabled_count(files@) == files@.len(),
{
    let ghost fs = files@;
    let mut r = LoadResult {
        commands: Vec::new(),
        duplicates: Vec::new(),
        reserved: Vec::new(),
        skipped: Vec::new(),
        warnings: Vec::new(),
    };
    let mut seen = EnvMap::new();
    assert(fs.take(0) == Seq::<CommandFile>::empty());
    assert(duplicates_view(r.duplicates@) =~= Seq::empty());
    assert(reserved_view(r.reserved@) =~= Seq::empty());
    assert(skipped_view(r.skipped@) =~= Seq::empty());
    assert(warnings_view(r.warnings@) =~= Seq::empty());
    for f in it: files.into_iter()
        invariant
            it.seq() == fs,
            no_slash_led_phrase(r),
            reserved_slash_led(r),
            forall|k: int| 0 <= k < it.index() ==> #[trigger] slash_phrase_reserved(fs[k]),
            result_matches(
                r,
                fs,
                load_model(fs.take(it.index() as int), allow_duplicates, config_dir@, shared_dir@),
            ),
            seen@ == load_model(
                fs.take(it.index() as int),
                allow_duplicates,
                config_dir@,
                shared_dir@,
            ).seen,
            forall|j: int|
                0 <= j < load_model(
                    fs.take(it.index() as int),
                    allow_duplicates,
                    config_dir@,
                    shared_dir@,
                ).kept.len() ==> 0 <= #[trigger] load_model(
                    fs.take(it.index() as int),
                    allow_duplicates,
                    config_dir@,
                    shared_dir@,
                ).kept[j] && load_model(
                    fs.take(it.index() as int),
                    allow_duplicates,
                    config_dir@,
                    shared_dir@,
                ).kept[j] < it.index(),
    {
        let ghost i = it.index() as int;
        let ghost m = load_model(fs.take(i), allow_duplicates, config_dir@, shared_dir@);
        assert(fs.take(i + 1).drop_last() == fs.take(i));
        assert(fs.take(i + 1).last() == fs[i]);
        load_one(
            &mut r,
            &mut seen,
            f,
            allow_duplicates,
            config_dir,
            shared_dir,
            Ghost(fs),
            Ghost(m),
            Ghost(i),
        );
    }
    assert(fs.take(fs.len() as int) == fs);
    proof {
        let m = load_model(fs, allow_duplicates, config_dir@, shared_dir@);
        lemma_load_model_facts(fs, allow_duplicates, config_dir@, shared_dir@);
        assert forall|j: int| 0 <= j < r.commands@.len() implies (#[trigger] r.commands@[j]).enabled
            && !is_reserved_key(lowercase(r.commands@[j].phrase@)) by {
            assert(0 <= m.kept[j]);
            assert(placed(r.commands@[j], fs[m.kept[j]]));
            assert(is_loadable(fs[m.kept[j]]));
        }
        if !allow_duplicates {
            assert forall|j1: int, j2: int| 0 <= j1 < j2 < r.commands@.len() implies lowercase(
                (#[trigger] r.commands@[j1]).phrase@,
            ) != lowercase((#[trigger] r.commands@[j2]).phrase@) by {
                assert(placed(r.commands@[j1], fs[m.kept[j1]]));
                assert(placed(r.commands@[j2], fs[m.kept[j2]]));
                assert(file_key(fs[m.kept[j1]]) != file_key(fs[m.kept[j2]]));
            }
        }
        assert forall|d: int| 0 <= d < r.duplicates@.len() implies #[trigger] duplicate_kept_loaded(
            r,
            d,
        ) by {
            assert(duplicates_view(r.duplicates@)[d] == m.duplicates[d]);
            assert(dup_backed(fs, m, d));
            let j = choose|j: int|
                    0 <= j < m.kept.len() && #[trigger] m.kept[j] < m.duplicate_files[d]
                    && m.duplicates[d].1 == fs[m.kept[j]].rel_path@ && m.duplicates[d].0 == file_key(
                    fs[m.kept[j]],
                );
            assert(placed(r.commands@[j], fs[m.kept[j]]));
        }
    }
    r
}

} // verus!

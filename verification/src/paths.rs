//! File-name validation and resolution of `script:` / `list:` references.
//!
//! Paths are `/`-separated strings. `path_join` follows the POSIX rules of
//! `Path::join`: an absolute part replaces the base, and a separator is
//! inserted only when the base is non-empty and does not already end in one.

use vstd::prelude::*;
use crate::env::ScriptEnv;
use crate::text::{
    chars_of, concat2, concat3, contains_sub, contains_sub_exec, debug_quoted, debug_str,
    ends_with, ends_with_exec, has_char_exec, push_char, slice_eq, starts_with, starts_with_exec,
    trim, trim_bounds, string_from_range,
};
use vstd::string::StringExecFns;

verus! {

// ── Joining ─────────────────────────────────────────────────────────────────

/// `Path::join` on `/`-separated paths.
pub open spec fn path_join(base: Seq<char>, part: Seq<char>) -> Seq<char> {
    if part.len() > 0 && part[0] == '/' {
        part
    } else if base.len() == 0 || base.last() == '/' {
        base + part
    } else {
        base + seq!['/'] + part
    }
}

/// Join `part` onto `base`.
pub fn join_path(base: &str, part: &str) -> (r: String)
    ensures
        r@ == path_join(base@, part@),
{
    let b = chars_of(base);
    let p = chars_of(part);
    if p.len() > 0 && p[0] == '/' {
        return String::from_str(part);
    }
    let mut r = String::from_str(base);
    if b.len() > 0 && b[b.len() - 1] != '/' {
        push_char(&mut r, '/');
    }
    r.append(part);
    r
}

// ── Result views ────────────────────────────────────────────────────────────

/// Characters of a string result.
pub open spec fn string_result_view(r: Result<String, String>) -> Result<Seq<char>, Seq<char>> {
    match r {
        Ok(s) => Ok(s@),
        Err(e) => Err(e@),
    }
}

/// Characters of a unit result.
pub open spec fn unit_view(r: Result<(), String>) -> Result<(), Seq<char>> {
    match r {
        Ok(()) => Ok(()),
        Err(e) => Err(e@),
    }
}

// ── File-name validation ────────────────────────────────────────────────────

/// The name is non-empty and holds no `/`, no `\` and no `..`.
pub open spec fn is_plain_filename(name: Seq<char>) -> bool {
    name.len() > 0 && !name.contains('/') && !name.contains('\\') && !contains_sub(name, ".."@)
}

/// Outcome of `validate_filename`.
pub open spec fn filename_check(name: Seq<char>, kind: Seq<char>) -> Result<(), Seq<char>> {
    if name.len() == 0 {
        Err("Empty "@ + kind + " name"@)
    } else if name.contains('/') || name.contains('\\') || contains_sub(name, ".."@) {
        Err("Invalid "@ + kind + " name: "@ + debug_str(name))
    } else {
        Ok(())
    }
}

/// Outcome of `validate_filename_no_vars`.
pub open spec fn filename_no_vars_check(name: Seq<char>, kind: Seq<char>) -> Result<(), Seq<char>> {
    match filename_check(name, kind) {
        Err(e) => Err(e),
        Ok(()) => if contains_sub(name, "${"@) {
            Err("Invalid "@ + kind + " name: "@ + debug_str(name)
                + ". Variable expansion is not supported."@)
        } else {
            Ok(())
        },
    }
}

/// Reject names that contain path separators (`/`, `\`), or parent-directory
/// traversals (`..`).
pub fn validate_filename(name: &str, kind: &str) -> (r: Result<(), String>)
    ensures
        unit_view(r) == filename_check(name@, kind@),
        r is Ok <==> is_plain_filename(name@),
{
    let v = chars_of(name);
    if v.len() == 0 {
        return Err(concat3("Empty ", kind, " name"));
    }
    let dots = chars_of("..");
    if has_char_exec(v.as_slice(), '/') || has_char_exec(v.as_slice(), '\\')
        || contains_sub_exec(v.as_slice(), dots.as_slice()) {
        let mut m = concat3("Invalid ", kind, " name: ");
        let q = debug_quoted(name);
        m.append(q.as_str());
        return Err(m);
    }
    Ok(())
}

/// Extended validation that also rejects `${…}` variable expansions.
pub fn validate_filename_no_vars(name: &str, kind: &str) -> (r: Result<(), String>)
    ensures
        unit_view(r) == filename_no_vars_check(name@, kind@),
        r is Ok <==> is_plain_filename(name@) && !contains_sub(name@, "${"@),
{
    validate_filename(name, kind)?;
    let v = chars_of(name);
    let var = chars_of("${");
    if contains_sub_exec(v.as_slice(), var.as_slice()) {
        let mut m = concat3("Invalid ", kind, " name: ");
        let q = debug_quoted(name);
        m.append(q.as_str());
        m.append(". Variable expansion is not supported.");
        return Err(m);
    }
    Ok(())
}

// ── Path resolution ─────────────────────────────────────────────────────────

/// The name that follows a `shared:` prefix, trimmed.
pub open spec fn shared_name(raw: Seq<char>) -> Seq<char> {
    trim(raw.skip("shared:"@.len() as int))
}

/// Where a `script:` value resolves.
pub open spec fn script_path_spec(
    raw: Seq<char>,
    command_dir: Seq<char>,
    commands_root: Seq<char>,
    shared_dir: Seq<char>,
) -> Result<Seq<char>, Seq<char>> {
    if starts_with(raw, "shared:"@) {
        let name = shared_name(raw);
        if name.len() == 0 {
            Err("Empty script name after 'shared:' prefix"@)
        } else {
            match filename_check(name, "shared script"@) {
                Err(e) => Err(e),
                Ok(()) => Ok(path_join(path_join(commands_root, shared_dir), name)),
            }
        }
    } else {
        match filename_no_vars_check(raw, "script"@) {
            Err(e) => Err(e),
            Ok(()) => Ok(path_join(command_dir, raw)),
        }
    }
}

/// A list file name: `name` itself when it already ends with `.tsv`, else
/// `name` with `.tsv` appended.
pub open spec fn with_tsv(name: Seq<char>) -> Seq<char> {
    if ends_with(name, ".tsv"@) {
        name
    } else {
        name + ".tsv"@
    }
}

/// The list file name for `name`.
fn list_file_name(name: &str) -> (r: String)
    ensures
        r@ == with_tsv(name@),
{
    let nv = chars_of(name);
    let ext = chars_of(".tsv");
    if ends_with_exec(nv.as_slice(), ext.as_slice()) {
        String::from_str(name)
    } else {
        concat2(name, ".tsv")
    }
}

/// Where a `list:` value resolves.
pub open spec fn list_path_spec(
    raw: Seq<char>,
    command_dir: Seq<char>,
    commands_root: Seq<char>,
    shared_dir: Seq<char>,
) -> Result<Seq<char>, Seq<char>> {
    if starts_with(raw, "shared:"@) {
        let name = shared_name(raw);
        if name.len() == 0 {
            Err("Empty list name after 'shared:' prefix"@)
        } else {
            match filename_check(name, "shared list"@) {
                Err(e) => Err(e),
                Ok(()) => {
                    Ok(path_join(path_join(commands_root, shared_dir), with_tsv(name)))
                },
            }
        }
    } else {
        match filename_no_vars_check(raw, "list"@) {
            Err(e) => Err(e),
            Ok(()) => Ok(path_join(command_dir, with_tsv(raw))),
        }
    }
}

/// A list reference never leaves its directory: when it resolves, the path
/// is a plain file name (no `/`, `\` or `..`) with `.tsv` ensured, directly
/// inside the command's directory or the shared directory. So `../secret`
/// and `sub/file` are refused before anything is read.
pub proof fn law_list_reference_confined(
    raw: Seq<char>,
    command_dir: Seq<char>,
    commands_root: Seq<char>,
    shared_dir: Seq<char>,
)
    ensures
        list_path_spec(raw, command_dir, commands_root, shared_dir) matches Ok(p) ==> exists|
            dir: Seq<char>,
            name: Seq<char>,
        |
            (dir == command_dir || dir == path_join(commands_root, shared_dir))
                && is_plain_filename(name) && p == #[trigger] path_join(dir, with_tsv(name)),
{
    if let Ok(p) = list_path_spec(raw, command_dir, commands_root, shared_dir) {
        if starts_with(raw, "shared:"@) {
            let name = shared_name(raw);
            assert(is_plain_filename(name));
            assert(p == path_join(path_join(commands_root, shared_dir), with_tsv(name)));
        } else {
            assert(is_plain_filename(raw));
            assert(p == path_join(command_dir, with_tsv(raw)));
        }
    }
}

/// Split off a `shared:` prefix: `Some(trimmed name)` when present.
fn shared_prefix_name(raw: &str) -> (r: Option<String>)
    ensures
        match r {
            Some(n) => starts_with(raw@, "shared:"@) && n@ == shared_name(raw@),
            None => !starts_with(raw@, "shared:"@),
        },
{
    let v = chars_of(raw);
    let p = chars_of("shared:");
    if !starts_with_exec(v.as_slice(), p.as_slice()) {
        return None;
    }
    let (a, b) = trim_bounds(v.as_slice(), p.len(), v.len());
    assert(v@.subrange(p@.len() as int, v@.len() as int) == raw@.skip("shared:"@.len() as int));
    Some(string_from_range(v.as_slice(), a, b))
}

/// Resolve a `script:` field value to a path.
///
/// 1. A plain filename (e.g. `hello.sh`) resolves relative to `command_dir`.
/// 2. A `shared:` prefix (e.g. `shared:contacts.sh`) resolves relative to
///    `<commands_root>/<shared_dir>/`.
///
/// `${VAR}` substitution is not supported in script paths.
pub fn resolve_script_path(raw: &str, command_dir: &str, env: &ScriptEnv<'_>) -> (r: Result<
    String,
    String,
>)
    ensures
        string_result_view(r) == script_path_spec(
            raw@,
            command_dir@,
            env.commands_root@,
            env.shared_dir@,
        ),
{
    match shared_prefix_name(raw) {
        Some(name) => {
            if name.as_str().is_empty() {
                return Err(String::from_str("Empty script name after 'shared:' prefix"));
            }
            validate_filename(name.as_str(), "shared script")?;
            let dir = join_path(env.commands_root, env.shared_dir);
            Ok(join_path(dir.as_str(), name.as_str()))
        },
        None => {
            validate_filename_no_vars(raw, "script")?;
            Ok(join_path(command_dir, raw))
        },
    }
}

/// Resolve a `list:` field value to a path.
///
/// 1. A plain name (e.g. `team-emails`) resolves to `<command_dir>/<name>.tsv`.
/// 2. A `shared:` prefix (e.g. `shared:vendors`) resolves to
///    `<commands_root>/<shared_dir>/<name>.tsv`.
///
/// In both forms `.tsv` is appended only when the name does not already end
/// with it.
///
/// `${VAR}` substitution is not supported in list paths.
pub fn resolve_list_path(raw: &str, command_dir: &str, env: &ScriptEnv<'_>) -> (r: Result<
    String,
    String,
>)
    ensures
        string_result_view(r) == list_path_spec(
            raw@,
            command_dir@,
            env.commands_root@,
            env.shared_dir@,
        ),
{
    match shared_prefix_name(raw) {
        Some(name) => {
            if name.as_str().is_empty() {
                return Err(String::from_str("Empty list name after 'shared:' prefix"));
            }
            validate_filename(name.as_str(), "shared list")?;
            let file = list_file_name(name.as_str());
            let dir = join_path(env.commands_root, env.shared_dir);
            Ok(join_path(dir.as_str(), file.as_str()))
        },
        None => {
            validate_filename_no_vars(raw, "list")?;
            let file = list_file_name(raw);
            Ok(join_path(command_dir, file.as_str()))
        },
    }
}

// ── Path equality ───────────────────────────────────────────────────────────

/// The `/`-separated parts of a path, empty ones included (`a//b/` gives
/// `a`, an empty part, `b` and another empty part).
pub open spec fn split_parts(p: Seq<char>) -> Seq<Seq<char>>
    decreases p.len(),
{
    if p.len() == 0 {
        seq![Seq::empty()]
    } else {
        let prev = split_parts(p.drop_last());
        if p.last() == '/' {
            prev.push(Seq::empty())
        } else {
            prev.update(prev.len() - 1, prev.last().push(p.last()))
        }
    }
}

/// A path has at least one part.
proof fn lemma_split_parts_len(p: Seq<char>)
    ensures
        split_parts(p).len() >= 1,
    decreases p.len(),
{
    if p.len() > 0 {
        lemma_split_parts_len(p.drop_last());
    }
}

/// Whether a part is a component of the path (as `Path::components` reads
/// it): an empty part never is, and a `.` part only at the start.
pub open spec fn is_component(part: Seq<char>, first: bool) -> bool {
    part.len() > 0 && (first || part != seq!['.'])
}

/// The components among `parts`, in order.
pub open spec fn components_of(parts: Seq<Seq<char>>) -> Seq<Seq<char>>
    decreases parts.len(),
{
    if parts.len() == 0 {
        Seq::empty()
    } else {
        let prev = components_of(parts.drop_last());
        if is_component(parts.last(), parts.len() == 1) {
            prev.push(parts.last())
        } else {
            prev
        }
    }
}

/// Two paths are equal as paths (`==` on `Path`): both absolute or both
/// relative, with the same components, so `a/b/` equals `a/b` and `a//./b`.
pub open spec fn same_path_spec(a: Seq<char>, b: Seq<char>) -> bool {
    &&& (a.len() > 0 && a[0] == '/') == (b.len() > 0 && b[0] == '/')
    &&& components_of(split_parts(a)) == components_of(split_parts(b))
}

/// Whether the path is absolute, and its components.
fn path_components(p: &str) -> (r: (bool, Vec<Vec<char>>))
    ensures
        r.0 == (p@.len() > 0 && p@[0] == '/'),
        r.1@.map_values(|c: Vec<char>| c@) == components_of(split_parts(p@)),
{
    let v = chars_of(p);
    let n = v.len();
    let mut done: Vec<Vec<char>> = Vec::new();
    let mut cur: Vec<char> = Vec::new();
    let mut first = true;
    let mut i: usize = 0;
    assert(p@.take(0) =~= Seq::<char>::empty());
    assert(done@.map_values(|c: Vec<char>| c@) =~= Seq::<Seq<char>>::empty());
    while i < n
        invariant
            n == v@.len(),
            v@ == p@,
            i <= n,
            split_parts(p@.take(i as int)).len() >= 1,
            cur@ == split_parts(p@.take(i as int)).last(),
            first == (split_parts(p@.take(i as int)).len() == 1),
            done@.map_values(|c: Vec<char>| c@) == components_of(
                split_parts(p@.take(i as int)).drop_last(),
            ),
        decreases n - i,
    {
        let ghost parts = split_parts(p@.take(i as int));
        let ghost before = done@.map_values(|c: Vec<char>| c@);
        assert(p@.take(i + 1).drop_last() == p@.take(i as int));
        assert(p@.take(i + 1).last() == v@[i as int]);
        let c = v[i];
        if c == '/' {
            let dot = cur.len() == 1 && cur[0] == '.';
            assert(dot == (cur@ == seq!['.'])) by {
                if cur@ == seq!['.'] {
                    assert(cur@[0] == '.');
                }
                if dot {
                    assert(cur@ =~= seq!['.']);
                }
            }
            let keep = cur.len() > 0 && (first || !dot);
            assert(parts.push(Seq::empty()).drop_last() == parts);
            assert(parts == parts.drop_last().push(parts.last()));
            if keep {
                let ghost last = cur@;
                done.push(cur);
                assert(done@.map_values(|c: Vec<char>| c@) =~= before.push(last));
            }
            cur = Vec::new();
            first = false;
        } else {
            let ghost old_cur = cur@;
            cur.push(c);
            assert(parts.update(parts.len() - 1, old_cur.push(c)).drop_last() == parts.drop_last());
        }
        i = i + 1;
    }
    assert(p@.take(n as int) == p@);
    let ghost parts = split_parts(p@);
    let ghost before = done@.map_values(|c: Vec<char>| c@);
    let dot = cur.len() == 1 && cur[0] == '.';
    assert(dot == (cur@ == seq!['.'])) by {
        if cur@ == seq!['.'] {
            assert(cur@[0] == '.');
        }
        if dot {
            assert(cur@ =~= seq!['.']);
        }
    }
    assert(parts == parts.drop_last().push(parts.last()));
    if cur.len() > 0 && (first || !dot) {
        let ghost last = cur@;
        done.push(cur);
        assert(done@.map_values(|c: Vec<char>| c@) =~= before.push(last));
    }
    proof {
        if n > 0 {
            assert(p@[0] == v@[0]);
        }
    }
    let absolute = n > 0 && v[0] == '/';
    (absolute, done)
}

/// Whether two paths are equal as paths.
pub fn same_path(a: &str, b: &str) -> (r: bool)
    ensures
        r == same_path_spec(a@, b@),
{
    let (ra, ca) = path_components(a);
    let (rb, cb) = path_components(b);
    let ghost va = ca@.map_values(|c: Vec<char>| c@);
    let ghost vb = cb@.map_values(|c: Vec<char>| c@);
    assert(va.len() == ca@.len() && vb.len() == cb@.len());
    if ra != rb || ca.len() != cb.len() {
        return false;
    }
    let mut i: usize = 0;
    while i < ca.len()
        invariant
            ca@.len() == cb@.len(),
            i <= ca@.len(),
            va == ca@.map_values(|c: Vec<char>| c@),
            vb == cb@.map_values(|c: Vec<char>| c@),
            va == components_of(split_parts(a@)),
            vb == components_of(split_parts(b@)),
            forall|k: int| 0 <= k < i ==> va[k] == vb[k],
        decreases ca.len() - i,
    {
        assert(va[i as int] == ca@[i as int]@ && vb[i as int] == cb@[i as int]@);
        if !slice_eq(ca[i].as_slice(), cb[i].as_slice()) {
            assert(va[i as int] != vb[i as int]);
            return false;
        }
        i = i + 1;
    }
    assert(va =~= vb);
    true
}

} // verus!

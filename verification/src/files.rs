//! Which files are command files, and the order in which they load.
//!
//! Paths here are clean `/`-separated paths: no empty components and no `.`
//! components, as a directory walk yields them.

use vstd::prelude::*;
use crate::text::{chars_of, str_eq, string_from_range};
use vstd::seq_lib::{to_multiset_insert};

verus! {

// ── File names and extensions ───────────────────────────────────────────────

/// Index of the last `c` in `s`, or `-1` when there is none.
pub open spec fn last_index(s: Seq<char>, c: char) -> int
    decreases s.len(),
{
    if s.len() == 0 {
        -1
    } else if s.last() == c {
        s.len() - 1
    } else {
        last_index(s.drop_last(), c)
    }
}

/// `last_index` finds the last occurrence, if any.
pub proof fn lemma_last_index(s: Seq<char>, c: char)
    ensures
        -1 <= last_index(s, c) < s.len(),
        last_index(s, c) >= 0 ==> s[last_index(s, c)] == c,
        forall|k: int| last_index(s, c) < k < s.len() ==> s[k] != c,
    decreases s.len(),
{
    if s.len() > 0 && s.last() != c {
        lemma_last_index(s.drop_last(), c);
        assert forall|k: int| last_index(s, c) < k < s.len() implies s[k] != c by {
            if k < s.len() - 1 {
                assert(s.drop_last()[k] == s[k]);
            }
        }
    }
}

/// The last component of a clean path (`Path::file_name`): the text after
/// the last `/`; `None` for an empty name or `..`.
pub open spec fn file_name(p: Seq<char>) -> Option<Seq<char>> {
    let name = p.skip(last_index(p, '/') + 1);
    if name.len() == 0 || name == seq!['.', '.'] {
        None
    } else {
        Some(name)
    }
}

/// The extension of a file name (`Path::extension`): the text after its
/// last `.`, when that dot is not the name's first character.
pub open spec fn name_extension(name: Seq<char>) -> Option<Seq<char>> {
    let k = last_index(name, '.');
    if k <= 0 || name == seq!['.', '.'] {
        None
    } else {
        Some(name.skip(k + 1))
    }
}

/// The extension of a clean path.
pub open spec fn path_extension(p: Seq<char>) -> Option<Seq<char>> {
    match file_name(p) {
        Some(name) => name_extension(name),
        None => None,
    }
}

/// Position just after the last `c` in `v` (0 when there is none).
fn after_last(v: &Vec<char>, c: char) -> (r: usize)
    ensures
        r == last_index(v@, c) + 1,
        r <= v@.len(),
{
    proof {
        lemma_last_index(v@, c);
    }
    let mut k: usize = v.len();
    assert(v@.take(k as int) == v@);
    while k > 0 && v[k - 1] != c
        invariant
            k <= v@.len(),
            last_index(v@.take(k as int), c) == last_index(v@, c),
        decreases k,
    {
        assert(v@.take(k as int).drop_last() == v@.take(k - 1));
        k = k - 1;
    }
    proof {
        if k > 0 {
            assert(v@.take(k as int).last() == c);
        }
    }
    k
}

/// The extension of a clean path, if it has one.
pub fn extension_of(p: &str) -> (r: Option<String>)
    ensures
        match r {
            Some(e) => path_extension(p@) == Some(e@),
            None => path_extension(p@) is None,
        },
{
    let v = chars_of(p);
    let s = after_last(&v, '/');
    let name = string_from_range(v.as_slice(), s, v.len());
    assert(name@ == p@.skip(last_index(p@, '/') + 1));
    let nv = chars_of(name.as_str());
    if nv.len() == 0 || (nv.len() == 2 && nv[0] == '.' && nv[1] == '.') {
        proof {
            if nv.len() == 2 && nv[0] == '.' && nv[1] == '.' {
                assert(nv@ == seq!['.', '.']);
            }
        }
        return None;
    }
    assert(nv@ != seq!['.', '.']) by {
        if nv@ == seq!['.', '.'] {
            assert(nv@[0] == '.' && nv@[1] == '.');
        }
    }
    let d = after_last(&nv, '.');
    if d <= 1 {
        return None;
    }
    Some(string_from_range(nv.as_slice(), d, nv.len()))
}

/// The file name of a clean path, if it has one.
pub fn file_name_of(p: &str) -> (r: Option<String>)
    ensures
        match r {
            Some(n) => file_name(p@) == Some(n@),
            None => file_name(p@) is None,
        },
{
    let v = chars_of(p);
    let s = after_last(&v, '/');
    let name = string_from_range(v.as_slice(), s, v.len());
    assert(name@ == p@.skip(last_index(p@, '/') + 1));
    let nv = chars_of(name.as_str());
    if nv.len() == 0 || (nv.len() == 2 && nv[0] == '.' && nv[1] == '.') {
        proof {
            if nv.len() == 2 && nv[0] == '.' && nv[1] == '.' {
                assert(nv@ == seq!['.', '.']);
            }
        }
        return None;
    }
    assert(nv@ != seq!['.', '.']) by {
        if nv@ == seq!['.', '.'] {
            assert(nv@[0] == '.' && nv@[1] == '.');
        }
    }
    Some(name)
}

/// A command file: extension `yaml` or `yml`, and not the `env.yaml` /
/// `env.yml` environment files.
pub open spec fn is_command_file(p: Seq<char>) -> bool {
    &&& (path_extension(p) == Some("yaml"@) || path_extension(p) == Some("yml"@))
    &&& file_name(p) != Some("env.yaml"@)
    &&& file_name(p) != Some("env.yml"@)
}

/// Whether the file at the clean path `p` defines a command.
pub fn is_command_file_path(p: &str) -> (b: bool)
    ensures
        b == is_command_file(p@),
{
    let ext_ok = match extension_of(p) {
        Some(e) => str_eq(e.as_str(), "yaml") || str_eq(e.as_str(), "yml"),
        None => false,
    };
    let name_ok = match file_name_of(p) {
        Some(n) => !(str_eq(n.as_str(), "env.yaml") || str_eq(n.as_str(), "env.yml")),
        None => true,
    };
    ext_ok && name_ok
}

// ── Load order ──────────────────────────────────────────────────────────────

/// A command file with its modification time, when it could be read.
#[derive(Debug)]
pub struct FileStamp {
    /// The file's path, clean and `/`-separated.
    pub path: String,
    /// Modification time in nanoseconds from the Unix epoch (negative
    /// before it), `None` when unknown.
    pub modified: Option<i128>,
}

/// Rank of a character when comparing paths: `/` ends a component, so it
/// sorts before every other character.
pub open spec fn char_rank(c: char) -> int {
    if c == '/' {
        0
    } else {
        (c as u32) as int + 1
    }
}

/// Path order (`Path::cmp` on clean paths): component by component, each
/// compared character by character.
pub open spec fn path_lt(a: Seq<char>, b: Seq<char>) -> bool
    decreases a.len(),
{
    if a.len() == 0 {
        b.len() > 0
    } else if b.len() == 0 {
        false
    } else if a[0] == b[0] {
        path_lt(a.drop_first(), b.drop_first())
    } else {
        char_rank(a[0]) < char_rank(b[0])
    }
}

/// Time order on optional times: an unknown time comes first.
pub open spec fn time_lt(a: Option<i128>, b: Option<i128>) -> bool {
    match (a, b) {
        (None, Some(_)) => true,
        (Some(x), Some(y)) => x < y,
        _ => false,
    }
}

/// Load order: older first; equal times by path.
pub open spec fn stamp_lt(a: FileStamp, b: FileStamp) -> bool {
    time_lt(a.modified, b.modified) || (a.modified == b.modified && path_lt(a.path@, b.path@))
}

/// `s` is in load order.
pub open spec fn in_load_order(s: Seq<FileStamp>) -> bool {
    forall|i: int, j: int| 0 <= i < j < s.len() ==> !stamp_lt(#[trigger] s[j], #[trigger] s[i])
}

/// Path order is asymmetric.
pub proof fn lemma_path_lt_asym(a: Seq<char>, b: Seq<char>)
    ensures
        !(path_lt(a, b) && path_lt(b, a)),
    decreases a.len(),
{
    if a.len() > 0 && b.len() > 0 && a[0] == b[0] {
        lemma_path_lt_asym(a.drop_first(), b.drop_first());
    }
}

/// Path order is transitive.
pub proof fn lemma_path_lt_trans(a: Seq<char>, b: Seq<char>, c: Seq<char>)
    requires
        path_lt(a, b),
        path_lt(b, c),
    ensures
        path_lt(a, c),
    decreases a.len(),
{
    if a.len() > 0 && b.len() > 0 && c.len() > 0 && a[0] == b[0] && b[0] == c[0] {
        lemma_path_lt_trans(a.drop_first(), b.drop_first(), c.drop_first());
    }
}

/// Path order is total on distinct paths.
pub proof fn lemma_path_lt_total(a: Seq<char>, b: Seq<char>)
    requires
        a != b,
    ensures
        path_lt(a, b) || path_lt(b, a),
    decreases a.len(),
{
    if a.len() > 0 && b.len() > 0 && a[0] == b[0] {
        if a.drop_first() == b.drop_first() {
            assert(a =~= seq![a[0]] + a.drop_first());
            assert(b =~= seq![b[0]] + b.drop_first());
        }
        lemma_path_lt_total(a.drop_first(), b.drop_first());
    } else if a.len() == 0 && b.len() == 0 {
        assert(a =~= b);
    } else if a.len() > 0 && b.len() > 0 {
        vstd::utf8::char_u32_cast(a[0], a[0] as u32);
        vstd::utf8::char_u32_cast(b[0], b[0] as u32);
    }
}

/// Load order is total on files with distinct paths.
pub proof fn lemma_stamp_lt_total(a: FileStamp, b: FileStamp)
    requires
        a.path@ != b.path@,
    ensures
        stamp_lt(a, b) || stamp_lt(b, a),
{
    lemma_path_lt_total(a.path@, b.path@);
}

/// Load order is a strict order.
pub proof fn lemma_stamp_lt_order(a: FileStamp, b: FileStamp, c: FileStamp)
    ensures
        !(stamp_lt(a, b) && stamp_lt(b, a)),
        stamp_lt(a, b) && stamp_lt(b, c) ==> stamp_lt(a, c),
{
    lemma_path_lt_asym(a.path@, b.path@);
    if stamp_lt(a, b) && stamp_lt(b, c) {
        if a.modified == b.modified && b.modified == c.modified {
            lemma_path_lt_trans(a.path@, b.path@, c.path@);
        }
    }
}

/// Path order on character vectors.
fn path_lt_exec(a: &Vec<char>, b: &Vec<char>) -> (r: bool)
    ensures
        r == path_lt(a@, b@),
{
    let mut i: usize = 0;
    assert(a@.skip(0) == a@ && b@.skip(0) == b@);
    while i < a.len() && i < b.len() && a[i] == b[i]
        invariant
            i <= a@.len(),
            i <= b@.len(),
            path_lt(a@.skip(i as int), b@.skip(i as int)) == path_lt(a@, b@),
        decreases a.len() - i,
    {
        assert(a@.skip(i as int).drop_first() == a@.skip(i + 1));
        assert(b@.skip(i as int).drop_first() == b@.skip(i + 1));
        i = i + 1;
    }
    if i == a.len() {
        return i < b.len();
    }
    if i == b.len() {
        return false;
    }
    assert(a@.skip(i as int)[0] == a@[i as int]);
    assert(b@.skip(i as int)[0] == b@[i as int]);
    let x = a[i];
    let y = b[i];
    if x == '/' {
        true
    } else if y == '/' {
        false
    } else {
        (x as u32) < (y as u32)
    }
}

/// Whether `a` loads before `b`.
fn stamp_lt_exec(a: &FileStamp, b: &FileStamp) -> (r: bool)
    ensures
        r == stamp_lt(*a, *b),
{
    let same_time = match (a.modified, b.modified) {
        (None, None) => true,
        (Some(x), Some(y)) => x == y,
        _ => false,
    };
    let earlier = match (a.modified, b.modified) {
        (None, Some(_)) => true,
        (Some(x), Some(y)) => x < y,
        _ => false,
    };
    if earlier {
        return true;
    }
    if !same_time {
        return false;
    }
    let av = chars_of(a.path.as_str());
    let bv = chars_of(b.path.as_str());
    path_lt_exec(&av, &bv)
}

/// Put command files in load order: oldest first (unknown times first),
/// equal times by path.
pub fn sort_for_loading(files: Vec<FileStamp>) -> (r: Vec<FileStamp>)
    ensures
        r@.to_multiset() == files@.to_multiset(),
        in_load_order(r@),
{
    let ghost fs = files@;
    let mut out: Vec<FileStamp> = Vec::new();
    assert(fs.take(0) == Seq::<FileStamp>::empty());
    for x in it: files.into_iter()
        invariant
            it.seq() == fs,
            out@.to_multiset() == fs.take(it.index() as int).to_multiset(),
            in_load_order(out@),
    {
        let ghost k = it.index() as int;
        let mut p: usize = 0;
        while p < out.len() && !stamp_lt_exec(&x, &out[p])
            invariant
                p <= out@.len(),
                forall|q: int| 0 <= q < p ==> !stamp_lt(x, #[trigger] out@[q]),
            decreases out.len() - p,
        {
            p = p + 1;
        }
        let ghost before = out@;
        proof {
            to_multiset_insert(before, p as int, x);
            assert(fs.take(k + 1) == fs.take(k).push(x));
            vstd::seq_lib::to_multiset_build(fs.take(k), x);
        }
        out.insert(p, x);
        proof {
            assert forall|i: int, j: int| 0 <= i < j < out@.len() implies !stamp_lt(
                #[trigger] out@[j],
                #[trigger] out@[i],
            ) by {
                if i < p && j == p {
                    assert(out@[i] == before[i]);
                } else if i == p && j > p {
                    assert(out@[j] == before[j - 1]);
                    if p < before.len() {
                        assert(stamp_lt(x, before[p as int]));
                        lemma_stamp_lt_order(before[j - 1], x, before[p as int]);
                        if j - 1 > p {
                            assert(!stamp_lt(before[j - 1], before[p as int]));
                        }
                    }
                } else if i < p && j > p {
                    assert(out@[i] == before[i]);
                    assert(out@[j] == before[j - 1]);
                } else if j < p {
                    assert(out@[i] == before[i]);
                    assert(out@[j] == before[j]);
                } else {
                    assert(out@[i] == before[i - 1]);
                    assert(out@[j] == before[j - 1]);
                }
            }
        }
    }
    assert(fs.take(fs.len() as int) == fs);
    out
}

} // verus!

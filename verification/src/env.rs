//! User-defined environment variables: key validation, the ordered
//! environment map, and the layering of global, sidecar and inline values.

use vstd::prelude::*;
use crate::paths::{join_path, path_join};
use crate::text::{
    chars_of, concat2, concat3, debug_char, debug_quoted, debug_quoted_char, debug_str, starts_with,
    starts_with_exec, str_eq, trim, trim_string,
};

verus! {

// ── Environment map ─────────────────────────────────────────────────────────

/// Keys of `p` are pairwise distinct.
pub open spec fn keys_distinct(p: Seq<(Seq<char>, Seq<char>)>) -> bool {
    forall|i: int, j: int| 0 <= i < j < p.len() ==> p[i].0 != p[j].0
}

/// The map denoted by a sequence of pairs (a later pair overrides an earlier
/// one with the same key).
pub open spec fn map_of(p: Seq<(Seq<char>, Seq<char>)>) -> Map<Seq<char>, Seq<char>>
    decreases p.len(),
{
    if p.len() == 0 {
        Map::empty()
    } else {
        map_of(p.drop_last()).insert(p.last().0, p.last().1)
    }
}

/// Characters of the string pairs.
pub open spec fn pair_views(e: Seq<(String, String)>) -> Seq<(Seq<char>, Seq<char>)> {
    e.map_values(|p: (String, String)| (p.0@, p.1@))
}

/// A key is in the map of pairs exactly when some pair has it.
pub proof fn lemma_map_of_contains(p: Seq<(Seq<char>, Seq<char>)>, k: Seq<char>)
    ensures
        map_of(p).contains_key(k) <==> exists|i: int| 0 <= i < p.len() && p[i].0 == k,
    decreases p.len(),
{
    if p.len() > 0 {
        lemma_map_of_contains(p.drop_last(), k);
        if exists|i: int| 0 <= i < p.len() && p[i].0 == k {
            let i = choose|i: int| 0 <= i < p.len() && p[i].0 == k;
            if i < p.len() - 1 {
                assert(p.drop_last()[i].0 == k);
            }
        }
        if exists|i: int| 0 <= i < p.drop_last().len() && p.drop_last()[i].0 == k {
            let i = choose|i: int| 0 <= i < p.drop_last().len() && p.drop_last()[i].0 == k;
            assert(p[i].0 == k);
        }
    }
}

/// With distinct keys, each pair's key maps to its value.
pub proof fn lemma_map_of_index(p: Seq<(Seq<char>, Seq<char>)>, i: int)
    requires
        keys_distinct(p),
        0 <= i < p.len(),
    ensures
        map_of(p).contains_key(p[i].0),
        map_of(p)[p[i].0] == p[i].1,
    decreases p.len(),
{
    if i < p.len() - 1 {
        lemma_map_of_index(p.drop_last(), i);
        assert(p.drop_last()[i] == p[i]);
    }
}

/// Each key maps to the value of its last pair.
pub proof fn lemma_map_of_last(p: Seq<(Seq<char>, Seq<char>)>, i: int)
    requires
        0 <= i < p.len(),
        forall|j: int| i < j < p.len() ==> p[j].0 != p[i].0,
    ensures
        map_of(p).contains_key(p[i].0),
        map_of(p)[p[i].0] == p[i].1,
    decreases p.len(),
{
    if i < p.len() - 1 {
        lemma_map_of_last(p.drop_last(), i);
        assert(p.drop_last()[i] == p[i]);
    }
}

/// Replacing a value in place updates the map at that key.
pub proof fn lemma_map_of_update(p: Seq<(Seq<char>, Seq<char>)>, i: int, v: Seq<char>)
    requires
        keys_distinct(p),
        0 <= i < p.len(),
    ensures
        map_of(p.update(i, (p[i].0, v))) == map_of(p).insert(p[i].0, v),
    decreases p.len(),
{
    let q = p.update(i, (p[i].0, v));
    if i == p.len() - 1 {
        assert(q.drop_last() == p.drop_last());
        lemma_map_of_contains(p.drop_last(), p[i].0);
        assert(map_of(q) =~= map_of(p).insert(p[i].0, v));
    } else {
        lemma_map_of_update(p.drop_last(), i, v);
        assert(q.drop_last() == p.drop_last().update(i, (p[i].0, v)));
        assert(p.last().0 != p[i].0);
        assert(map_of(q) =~= map_of(p).insert(p[i].0, v));
    }
}

/// An ordered map from variable names to values with distinct keys.
///
/// Iteration order is insertion order; inserting an existing key replaces
/// its value in place.
#[derive(Debug)]
pub struct EnvMap {
    entries: Vec<(String, String)>,
}

impl EnvMap {
    #[verifier::type_invariant]
    spec fn wf(self) -> bool {
        keys_distinct(pair_views(self.entries@))
    }

    /// The entries in iteration order.
    pub closed spec fn pairs(&self) -> Seq<(Seq<char>, Seq<char>)> {
        pair_views(self.entries@)
    }

    /// An empty map.
    pub fn new() -> (m: EnvMap)
        ensures
            m.pairs() == Seq::<(Seq<char>, Seq<char>)>::empty(),
            m@ == Map::<Seq<char>, Seq<char>>::empty(),
    {
        let m = EnvMap { entries: Vec::new() };
        assert(m.pairs() =~= Seq::<(Seq<char>, Seq<char>)>::empty());
        m
    }

    /// Number of entries.
    pub fn len(&self) -> (n: usize)
        ensures
            n == self.pairs().len(),
    {
        self.entries.len()
    }

    /// Whether the map has no entries.
    pub fn is_empty(&self) -> (b: bool)
        ensures
            b == (self.pairs().len() == 0),
            b == (self@ == Map::<Seq<char>, Seq<char>>::empty()),
    {
        proof {
            use_type_invariant(self);
            if self.pairs().len() > 0 {
                lemma_map_of_index(self.pairs(), 0);
            }
        }
        self.entries.len() == 0
    }

    /// The `i`-th entry in iteration order.
    pub fn entry(&self, i: usize) -> (r: (&String, &String))
        requires
            i < self.pairs().len(),
        ensures
            r.0@ == self.pairs()[i as int].0,
            r.1@ == self.pairs()[i as int].1,
    {
        (&self.entries[i].0, &self.entries[i].1)
    }

    /// Position of `k` among the entries, if present.
    fn position(&self, k: &str) -> (r: Option<usize>)
        ensures
            match r {
                Some(i) => i < self.pairs().len() && self.pairs()[i as int].0 == k@,
                None => forall|i: int| 0 <= i < self.pairs().len() ==> self.pairs()[i].0 != k@,
            },
    {
        let mut i: usize = 0;
        while i < self.entries.len()
            invariant
                i <= self.entries@.len(),
                self.pairs() == pair_views(self.entries@),
                forall|j: int| 0 <= j < i ==> self.pairs()[j].0 != k@,
            decreases self.entries.len() - i,
        {
            if str_eq(self.entries[i].0.as_str(), k) {
                return Some(i);
            }
            i = i + 1;
        }
        None
    }

    /// Value stored under `k`.
    pub fn get(&self, k: &str) -> (r: Option<&String>)
        ensures
            match r {
                Some(v) => self@.contains_key(k@) && self@[k@] == v@,
                None => !self@.contains_key(k@),
            },
    {
        proof {
            use_type_invariant(self);
            lemma_map_of_contains(self.pairs(), k@);
        }
        match self.position(k) {
            Some(i) => {
                proof {
                    lemma_map_of_index(self.pairs(), i as int);
                }
                Some(&self.entries[i].1)
            },
            None => None,
        }
    }

    /// Whether `k` has a value.
    pub fn contains_key(&self, k: &str) -> (b: bool)
        ensures
            b == self@.contains_key(k@),
    {
        self.get(k).is_some()
    }

    /// Set `k` to `v`, replacing an existing value in place or appending a
    /// new entry.
    pub fn insert(&mut self, k: String, v: String)
        ensures
            final(self)@ == old(self)@.insert(k@, v@),
            old(self)@.contains_key(k@) ==> exists|i: int|
                0 <= i < old(self).pairs().len() && old(self).pairs()[i].0 == k@ && final(self).pairs()
                    == old(self).pairs().update(i, (k@, v@)),
            !old(self)@.contains_key(k@) ==> final(self).pairs() == old(self).pairs().push(
                (k@, v@),
            ),
    {
        proof {
            use_type_invariant(&*self);
            lemma_map_of_contains(self.pairs(), k@);
        }
        let ghost before = self.pairs();
        let pos = self.position(k.as_str());
        let mut e: Vec<(String, String)> = Vec::new();
        std::mem::swap(&mut e, &mut self.entries);
        assert(pair_views(e@) == before);
        match pos {
            Some(i) => {
                let kk = e[i].0.clone();
                e.set(i, (kk, v));
                proof {
                    assert(pair_views(e@) =~= before.update(i as int, (before[i as int].0, v@)));
                    assert(before[i as int].0 == k@);
                    lemma_map_of_update(before, i as int, v@);
                }
            },
            None => {
                e.push((k, v));
                proof {
                    assert(pair_views(e@) =~= before.push((k@, v@)));
                    assert(pair_views(e@).drop_last() =~= before);
                }
            },
        }
        self.entries = e;
    }
}

impl View for EnvMap {
    type V = Map<Seq<char>, Seq<char>>;

    open spec fn view(&self) -> Map<Seq<char>, Seq<char>> {
        map_of(self.pairs())
    }
}


// ── Key validation ──────────────────────────────────────────────────────────

/// A character that may start a key: `[A-Za-z_]`.
pub open spec fn is_key_start(c: char) -> bool {
    ('A' <= c && c <= 'Z') || ('a' <= c && c <= 'z') || c == '_'
}

/// A character that may continue a key: `[A-Za-z0-9_]`.
pub open spec fn is_key_char(c: char) -> bool {
    is_key_start(c) || ('0' <= c && c <= '9')
}

/// Index of the first character of `s` that may not continue a key, or
/// `s.len()` when there is none.
pub open spec fn first_bad_key_char(s: Seq<char>) -> nat
    decreases s.len(),
{
    if s.len() == 0 {
        0
    } else if !is_key_char(s[0]) {
        0
    } else {
        1 + first_bad_key_char(s.drop_first())
    }
}

/// `first_bad_key_char` finds the first character that may not continue a key.
pub proof fn lemma_first_bad_key_char(s: Seq<char>)
    ensures
        first_bad_key_char(s) <= s.len(),
        forall|i: int| 0 <= i < first_bad_key_char(s) ==> is_key_char(s[i]),
        first_bad_key_char(s) < s.len() ==> !is_key_char(s[first_bad_key_char(s) as int]),
    decreases s.len(),
{
    if s.len() > 0 && is_key_char(s[0]) {
        lemma_first_bad_key_char(s.drop_first());
        assert forall|i: int| 0 <= i < first_bad_key_char(s) implies is_key_char(s[i]) by {
            if i > 0 {
                assert(s[i] == s.drop_first()[i - 1]);
            }
        }
    }
}

/// The key matches `[A-Za-z_][A-Za-z0-9_]*` and is outside the `NIMBLE_`
/// namespace.
pub open spec fn is_valid_env_key(key: Seq<char>) -> bool {
    &&& key.len() > 0
    &&& !starts_with(key, "NIMBLE_"@)
    &&& is_key_start(key[0])
    &&& forall|i: int| 1 <= i < key.len() ==> is_key_char(key[i])
}

/// The outcome of validating `key` found in `source`, with its message.
pub open spec fn env_key_check(key: Seq<char>, source: Seq<char>) -> Result<(), Seq<char>> {
    if key.len() == 0 {
        Err("Empty environment variable key in "@ + source)
    } else if starts_with(key, "NIMBLE_"@) {
        Err("Key "@ + debug_str(key) + " in "@ + source + " uses the reserved NIMBLE_ prefix"@)
    } else if !is_key_start(key[0]) {
        Err("Key "@ + debug_str(key) + " in "@ + source + " must start with a letter or underscore"@)
    } else if first_bad_key_char(key.drop_first()) < key.len() - 1 {
        Err("Key "@ + debug_str(key) + " in "@ + source + " contains invalid character "@
            + debug_char(key.drop_first()[first_bad_key_char(key.drop_first()) as int]))
    } else {
        Ok(())
    }
}

/// A key passes the check exactly when it is a valid key.
pub proof fn lemma_env_key_check_ok(key: Seq<char>, source: Seq<char>)
    ensures
        env_key_check(key, source) is Ok <==> is_valid_env_key(key),
{
    if key.len() > 0 {
        lemma_first_bad_key_char(key.drop_first());
        if is_valid_env_key(key) {
            let j = first_bad_key_char(key.drop_first());
            if j < key.len() - 1 {
                assert(key.drop_first()[j as int] == key[j + 1int]);
            }
        }
        if env_key_check(key, source) is Ok {
            assert forall|i: int| 1 <= i < key.len() implies is_key_char(key[i]) by {
                assert(key[i] == key.drop_first()[i - 1]);
            }
        }
    }
}

/// Characters of a unit result.
pub open spec fn unit_result_view(r: Result<(), String>) -> Result<(), Seq<char>> {
    match r {
        Ok(()) => Ok(()),
        Err(e) => Err(e@),
    }
}

/// Builds `"Key " + key:? + " in " + source + tail`.
fn key_message(key: &str, source: &str, tail: &str) -> (s: String)
    ensures
        s@ == "Key "@ + debug_str(key@) + " in "@ + source@ + tail@,
{
    let q = debug_quoted(key);
    let mut s = concat2("Key ", q.as_str());
    s.append(" in ");
    s.append(source);
    s.append(tail);
    s
}

/// Validate that an environment variable key uses a portable name and is not
/// in the reserved `NIMBLE_` namespace. Accepts keys matching
/// `[A-Za-z_][A-Za-z0-9_]*`.
pub fn validate_env_key(key: &str, source: &str) -> (r: Result<(), String>)
    ensures
        unit_result_view(r) == env_key_check(key@, source@),
        r is Ok <==> is_valid_env_key(key@),
{
    proof {
        lemma_env_key_check_ok(key@, source@);
    }
    let v = chars_of(key);
    if v.len() == 0 {
        return Err(concat2("Empty environment variable key in ", source));
    }
    let prefix = chars_of("NIMBLE_");
    if starts_with_exec(v.as_slice(), prefix.as_slice()) {
        return Err(key_message(key, source, " uses the reserved NIMBLE_ prefix"));
    }
    let first = v[0];
    if !(('A' <= first && first <= 'Z') || ('a' <= first && first <= 'z') || first == '_') {
        return Err(key_message(key, source, " must start with a letter or underscore"));
    }
    let ghost rest = v@.drop_first();
    let mut i: usize = 1;
    while i < v.len()
        invariant
            1 <= i <= v@.len(),
            v@ == key@,
            rest == v@.drop_first(),
            !starts_with(key@, "NIMBLE_"@),
            is_key_start(key@[0]),
            env_key_check(key@, source@) is Ok <==> is_valid_env_key(key@),
            first_bad_key_char(rest) == (i - 1) + first_bad_key_char(v@.subrange(i as int, v@.len() as int)),
        decreases v.len() - i,
    {
        let c = v[i];
        let ok = ('A' <= c && c <= 'Z') || ('a' <= c && c <= 'z') || c == '_' || ('0' <= c && c <= '9');
        if !ok {
            proof {
                assert(rest[i - 1] == c);
            }
            let mut m = key_message(key, source, " contains invalid character ");
            let d = debug_quoted_char(c);
            m.append(d.as_str());
            return Err(m);
        }
        assert(v@.subrange(i as int, v@.len() as int).drop_first() == v@.subrange(i + 1, v@.len() as int));
        i = i + 1;
    }
    Ok(())
}

// ── Script environment ──────────────────────────────────────────────────────

/// Runtime context injected as `NIMBLE_*` environment variables into every
/// script subprocess. Paths are plain `/`-separated strings.
#[derive(Debug)]
pub struct ScriptEnv<'a> {
    /// Active context string (may be empty).
    pub context: &'a str,
    /// Command phrase that triggered the script.
    pub phrase: &'a str,
    /// Absolute path to the Nimble config root directory.
    pub config_dir: &'a str,
    /// Absolute path to the commands root directory.
    pub commands_root: &'a str,
    /// Absolute path to the directory containing the command YAML.
    pub command_dir: &'a str,
    /// Merged user-defined environment variables (global → sidecar → inline).
    pub user_env: &'a EnvMap,
    /// Name of the shared scripts/lists subdirectory under `commands_root`.
    pub shared_dir: &'a str,
    /// When true, scripts also receive `NIMBLE_DEBUG=1`.
    pub debug: bool,
}


// ── env.yaml files ──────────────────────────────────────────────────────────

/// A scalar value of an `env.yaml` mapping, as read by the YAML parser.
pub enum YamlScalar {
    Str(String),
    /// A number, in the parser's own decimal rendering.
    Number(String),
    Bool(bool),
    Null,
    /// Sequences, mappings and tagged values.
    Other,
}

/// The mathematical value of a [`YamlScalar`].
pub enum YamlScalarModel {
    Str(Seq<char>),
    Number(Seq<char>),
    Bool(bool),
    Null,
    Other,
}

/// One `key: value` entry of a parsed mapping; `key` is `None` when the key
/// is not a string.
pub struct YamlEntry {
    pub key: Option<String>,
    pub value: YamlScalar,
}

/// Model of a scalar.
pub open spec fn scalar_model(v: YamlScalar) -> YamlScalarModel {
    match v {
        YamlScalar::Str(s) => YamlScalarModel::Str(s@),
        YamlScalar::Number(t) => YamlScalarModel::Number(t@),
        YamlScalar::Bool(b) => YamlScalarModel::Bool(b),
        YamlScalar::Null => YamlScalarModel::Null,
        YamlScalar::Other => YamlScalarModel::Other,
    }
}

/// Model of an entry.
pub open spec fn entry_model(e: YamlEntry) -> (Option<Seq<char>>, YamlScalarModel) {
    (
        match e.key {
            Some(k) => Some(k@),
            None => None,
        },
        scalar_model(e.value),
    )
}

/// Model of a parse result.
pub open spec fn entries_result_model(r: Result<Vec<YamlEntry>, String>) -> Result<
    Seq<(Option<Seq<char>>, YamlScalarModel)>,
    Seq<char>,
> {
    match r {
        Ok(v) => Ok(v@.map_values(|e: YamlEntry| entry_model(e))),
        Err(e) => Err(e@),
    }
}

/// The entries, in document order, of `content` parsed as a YAML mapping
/// by `serde_yaml`, or the parser's error message.
pub uninterp spec fn yaml_mapping(content: Seq<char>) -> Result<
    Seq<(Option<Seq<char>>, YamlScalarModel)>,
    Seq<char>,
>;

/// Parses `content` with `serde_yaml::from_str::<serde_yaml::Mapping>` and
/// lists its entries in document order: the key as a string when
/// `Value::as_str` gives one, the value by its variant (a number in its
/// `Display` rendering). The contract claims only that the result is the
/// named function of `content`.
#[verifier::external_body]
fn parse_yaml_mapping(content: &str) -> (r: Result<Vec<YamlEntry>, String>)
    ensures
        entries_result_model(r) == yaml_mapping(content@),
{
    let m: serde_yaml::Mapping = serde_yaml::from_str(content).map_err(|e| e.to_string())?;
    Ok(m.into_iter().map(|(k, v)| YamlEntry {
        key: k.as_str().map(String::from),
        value: match v {
            serde_yaml::Value::String(s) => YamlScalar::Str(s),
            serde_yaml::Value::Number(n) => YamlScalar::Number(n.to_string()),
            serde_yaml::Value::Bool(b) => YamlScalar::Bool(b),
            serde_yaml::Value::Null => YamlScalar::Null,
            _ => YamlScalar::Other,
        },
    }).collect())
}

/// The string a scalar stands for; `None` for values that are not scalars.
pub open spec fn scalar_text(v: YamlScalarModel) -> Option<Seq<char>> {
    match v {
        YamlScalarModel::Str(s) => Some(s),
        YamlScalarModel::Number(t) => Some(t),
        YamlScalarModel::Bool(b) => Some(if b { "true"@ } else { "false"@ }),
        YamlScalarModel::Null => Some(Seq::<char>::empty()),
        YamlScalarModel::Other => None,
    }
}

/// Prepend `acc` to a successful result.
pub open spec fn prepend_pairs(
    acc: Seq<(Seq<char>, Seq<char>)>,
    r: Result<Seq<(Seq<char>, Seq<char>)>, Seq<char>>,
) -> Result<Seq<(Seq<char>, Seq<char>)>, Seq<char>> {
    match r {
        Ok(p) => Ok(acc + p),
        Err(e) => Err(e),
    }
}

/// The `(key, value)` pairs of a mapping read from `source`, or the first
/// error: a non-string key, a non-scalar value or an invalid key.
pub open spec fn env_pairs_from(
    entries: Seq<(Option<Seq<char>>, YamlScalarModel)>,
    source: Seq<char>,
) -> Result<Seq<(Seq<char>, Seq<char>)>, Seq<char>>
    decreases entries.len(),
{
    if entries.len() == 0 {
        Ok(Seq::empty())
    } else {
        match entries[0].0 {
            None => Err("Non-string key in "@ + source),
            Some(key) => match scalar_text(entries[0].1) {
                None => Err("Unsupported value for key "@ + debug_str(key) + " in "@ + source),
                Some(t) => match env_key_check(key, source) {
                    Err(e) => Err(e),
                    Ok(()) => prepend_pairs(seq![(key, t)], env_pairs_from(entries.drop_first(), source)),
                },
            },
        }
    }
}

/// The state of an `env.yaml` file on disk.
#[derive(Debug)]
pub enum EnvFile {
    /// The file does not exist.
    Missing,
    /// The file exists but could not be read; the reader's message.
    Unreadable(String),
    /// The file's text.
    Content(String),
}

/// The variables an `env.yaml` file at `path` defines, or the error.
pub open spec fn env_file_spec(path: Seq<char>, file: EnvFile) -> Result<
    Map<Seq<char>, Seq<char>>,
    Seq<char>,
> {
    match file {
        EnvFile::Missing => Ok(Map::empty()),
        EnvFile::Unreadable(e) => Err("Could not read "@ + path + ": "@ + e@),
        EnvFile::Content(c) => if trim(c@).len() == 0 {
            Ok(Map::empty())
        } else {
            match yaml_mapping(c@) {
                Err(e) => Err("Could not parse "@ + path + ": "@ + e),
                Ok(entries) => match env_pairs_from(entries, path) {
                    Err(e) => Err(e),
                    Ok(p) => Ok(map_of(p)),
                },
            }
        },
    }
}

/// Characters of an environment result.
pub open spec fn env_result_view(r: Result<EnvMap, String>) -> Result<
    Map<Seq<char>, Seq<char>>,
    Seq<char>,
> {
    match r {
        Ok(m) => Ok(m@),
        Err(e) => Err(e@),
    }
}

/// The `String` for a scalar's text.
fn scalar_string(v: &YamlScalar) -> (r: Option<String>)
    ensures
        match (r, scalar_text(scalar_model(*v))) {
            (Some(s), Some(t)) => s@ == t,
            (None, None) => true,
            _ => false,
        },
{
    match v {
        YamlScalar::Str(s) => Some(s.clone()),
        YamlScalar::Number(t) => Some(t.clone()),
        YamlScalar::Bool(b) => Some(if *b { String::from_str("true") } else { String::from_str("false") }),
        YamlScalar::Null => Some(String::new()),
        YamlScalar::Other => None,
    }
}

/// Load an `env.yaml` file as a flat `KEY: value` map. A missing or blank
/// file gives an empty map; numbers, booleans and null become strings;
/// other values and invalid keys are rejected.
pub fn load_env_yaml(path: &str, file: &EnvFile) -> (r: Result<EnvMap, String>)
    ensures
        env_result_view(r) == env_file_spec(path@, *file),
{
    match file {
        EnvFile::Missing => Ok(EnvMap::new()),
        EnvFile::Unreadable(e) => {
            let mut m = concat3("Could not read ", path, ": ");
            m.append(e.as_str());
            Err(m)
        },
        EnvFile::Content(c) => {
            let t = trim_string(c.as_str());
            if t.as_str().is_empty() {
                return Ok(EnvMap::new());
            }
            let entries = match parse_yaml_mapping(c.as_str()) {
                Err(e) => {
                    let mut m = concat3("Could not parse ", path, ": ");
                    m.append(e.as_str());
                    return Err(m);
                },
                Ok(v) => v,
            };
            let ghost em = entries@.map_values(|e: YamlEntry| entry_model(e));
            assert(yaml_mapping(c@) == Ok::<Seq<(Option<Seq<char>>, YamlScalarModel)>, Seq<char>>(em));
            let mut env = EnvMap::new();
            let ghost mut acc: Seq<(Seq<char>, Seq<char>)> = Seq::empty();
            let mut i: usize = 0;
            assert(em.skip(0) == em);
            while i < entries.len()
                invariant
                    i <= entries@.len(),
                    em == entries@.map_values(|e: YamlEntry| entry_model(e)),
                    env_file_spec(path@, *file) == match env_pairs_from(em, path@) {
                        Err(e) => Err(e),
                        Ok(p) => Ok(map_of(p)),
                    },
                    env@ == map_of(acc),
                    env_pairs_from(em, path@) == prepend_pairs(acc, env_pairs_from(em.skip(i as int), path@)),
                decreases entries.len() - i,
            {
                let ghost rest = em.skip(i as int);
                assert(rest[0] == entry_model(entries@[i as int]));
                assert(rest.drop_first() == em.skip(i + 1));
                let entry = &entries[i];
                let key = match &entry.key {
                    None => {
                        return Err(concat2("Non-string key in ", path));
                    },
                    Some(k) => k,
                };
                let value = match scalar_string(&entry.value) {
                    None => {
                        let q = debug_quoted(key.as_str());
                        let mut m = concat2("Unsupported value for key ", q.as_str());
                        m.append(" in ");
                        m.append(path);
                        return Err(m);
                    },
                    Some(v) => v,
                };
                validate_env_key(key.as_str(), path)?;
                let ghost kv = (key@, value@);
                env.insert(key.clone(), value);
                proof {
                    assert(acc.push(kv).drop_last() == acc);
                    assert(prepend_pairs(acc, prepend_pairs(seq![kv], env_pairs_from(em.skip(i + 1), path@)))
                        == prepend_pairs(acc.push(kv), env_pairs_from(em.skip(i + 1), path@))) by {
                        assert(acc + seq![kv] == acc.push(kv));
                        match env_pairs_from(em.skip(i + 1), path@) {
                            Ok(p) => {
                                assert(acc + (seq![kv] + p) == acc.push(kv) + p);
                            },
                            Err(_) => {},
                        }
                    }
                    acc = acc.push(kv);
                }
                i = i + 1;
            }
            assert(em.skip(i as int) == Seq::<(Option<Seq<char>>, YamlScalarModel)>::empty());
            assert(acc + Seq::<(Seq<char>, Seq<char>)>::empty() == acc);
            Ok(env)
        },
    }
}


/// The map of concatenated pairs: the second part wins.
pub proof fn lemma_map_of_concat(a: Seq<(Seq<char>, Seq<char>)>, b: Seq<(Seq<char>, Seq<char>)>)
    ensures
        map_of(a + b) == map_of(a).union_prefer_right(map_of(b)),
    decreases b.len(),
{
    if b.len() == 0 {
        assert(a + b == a);
        assert(map_of(a).union_prefer_right(map_of(b)) =~= map_of(a));
    } else {
        assert((a + b).drop_last() == a + b.drop_last());
        assert((a + b).last() == b.last());
        lemma_map_of_concat(a, b.drop_last());
        assert(map_of(a + b) =~= map_of(a).union_prefer_right(map_of(b)));
    }
}

impl EnvMap {
    /// Insert every entry of `other`, in its order (`HashMap::extend`).
    pub fn extend_from(&mut self, other: &EnvMap)
        ensures
            final(self)@ == old(self)@.union_prefer_right(other@),
    {
        let ghost start = self@;
        let mut i: usize = 0;
        assert(other.pairs().take(0) =~= Seq::<(Seq<char>, Seq<char>)>::empty());
        assert(start.union_prefer_right(map_of(other.pairs().take(0))) =~= start);
        while i < other.len()
            invariant
                i <= other.pairs().len(),
                self@ == start.union_prefer_right(map_of(other.pairs().take(i as int))),
            decreases other.pairs().len() - i,
        {
            let (k, v) = other.entry(i);
            self.insert(k.clone(), v.clone());
            assert(other.pairs().take(i + 1).drop_last() == other.pairs().take(i as int));
            assert(self@ =~= start.union_prefer_right(map_of(other.pairs().take(i + 1))));
            i = i + 1;
        }
        assert(other.pairs().take(i as int) == other.pairs());
    }
}

// ── Layering ────────────────────────────────────────────────────────────────

/// The first invalid key among `pairs`, as an error.
pub open spec fn inline_keys_check(pairs: Seq<(Seq<char>, Seq<char>)>) -> Result<(), Seq<char>>
    decreases pairs.len(),
{
    if pairs.len() == 0 {
        Ok(())
    } else {
        match env_key_check(pairs[0].0, "inline env"@) {
            Err(e) => Err(e),
            Ok(()) => inline_keys_check(pairs.drop_first()),
        }
    }
}

/// The merged user environment: global `env.yaml`, then the command
/// directory's sidecar `env.yaml`, then the inline `env:` block; a later
/// layer overrides an earlier one.
pub open spec fn user_env_spec(
    commands_root: Seq<char>,
    command_dir: Seq<char>,
    global: EnvFile,
    sidecar: EnvFile,
    inline: EnvMap,
) -> Result<Map<Seq<char>, Seq<char>>, Seq<char>> {
    match env_file_spec(path_join(commands_root, "env.yaml"@), global) {
        Err(e) => Err(e),
        Ok(g) => match env_file_spec(path_join(command_dir, "env.yaml"@), sidecar) {
            Err(e) => Err(e),
            Ok(sc) => match inline_keys_check(inline.pairs()) {
                Err(e) => Err(e),
                Ok(()) => Ok(g.union_prefer_right(sc).union_prefer_right(inline@)),
            },
        },
    }
}

/// Path of the `env.yaml` file inside `dir`.
pub fn env_yaml_path(dir: &str) -> (p: String)
    ensures
        p@ == path_join(dir@, "env.yaml"@),
{
    join_path(dir, "env.yaml")
}

/// Build the merged user-defined environment by applying layers in order:
/// the global `env.yaml` in `commands_root`, the sidecar `env.yaml` in
/// `command_dir`, then the inline `env:` entries. All keys are validated;
/// reserved `NIMBLE_*` keys are rejected. `global` and `sidecar` are the
/// states of the files at `env_yaml_path(commands_root)` and
/// `env_yaml_path(command_dir)`.
pub fn build_user_env(
    commands_root: &str,
    command_dir: &str,
    global: &EnvFile,
    sidecar: &EnvFile,
    inline_env: &EnvMap,
) -> (r: Result<EnvMap, String>)
    ensures
        env_result_view(r) == user_env_spec(commands_root@, command_dir@, *global, *sidecar, *inline_env),
{
    let gpath = env_yaml_path(commands_root);
    let mut merged = load_env_yaml(gpath.as_str(), global)?;
    let spath = env_yaml_path(command_dir);
    let side = load_env_yaml(spath.as_str(), sidecar)?;
    merged.extend_from(&side);
    let ghost base = merged@;
    let mut i: usize = 0;
    assert(inline_env.pairs().skip(0) == inline_env.pairs());
    assert(inline_env.pairs().take(0) =~= Seq::<(Seq<char>, Seq<char>)>::empty());
    assert(base.union_prefer_right(map_of(inline_env.pairs().take(0))) =~= base);
    while i < inline_env.len()
        invariant
            i <= inline_env.pairs().len(),
            merged@ == base.union_prefer_right(map_of(inline_env.pairs().take(i as int))),
            inline_keys_check(inline_env.pairs()) == inline_keys_check(inline_env.pairs().skip(i as int)),
            user_env_spec(commands_root@, command_dir@, *global, *sidecar, *inline_env) == match inline_keys_check(inline_env.pairs()) {
                Err(e) => Err(e),
                Ok(()) => Ok(base.union_prefer_right(inline_env@)),
            },
        decreases inline_env.pairs().len() - i,
    {
        let (k, v) = inline_env.entry(i);
        let ghost rest = inline_env.pairs().skip(i as int);
        assert(rest[0] == inline_env.pairs()[i as int]);
        assert(rest.drop_first() == inline_env.pairs().skip(i + 1));
        validate_env_key(k.as_str(), "inline env")?;
        merged.insert(k.clone(), v.clone());
        assert(inline_env.pairs().take(i + 1).drop_last() == inline_env.pairs().take(i as int));
        assert(merged@ =~= base.union_prefer_right(map_of(inline_env.pairs().take(i + 1))));
        i = i + 1;
    }
    assert(inline_env.pairs().take(i as int) == inline_env.pairs());
    assert(inline_env.pairs().skip(i as int).len() == 0);
    Ok(merged)
}

/// Layer precedence: an inline value wins over a sidecar value, which wins
/// over a global value; a key defined in no layer is absent.
pub proof fn law_user_env_precedence(
    commands_root: Seq<char>,
    command_dir: Seq<char>,
    global: EnvFile,
    sidecar: EnvFile,
    inline: EnvMap,
    key: Seq<char>,
)
    requires
        user_env_spec(commands_root, command_dir, global, sidecar, inline) is Ok,
    ensures
        ({
            let g = env_file_spec(path_join(commands_root, "env.yaml"@), global)->Ok_0;
            let sc = env_file_spec(path_join(command_dir, "env.yaml"@), sidecar)->Ok_0;
            let m = user_env_spec(commands_root, command_dir, global, sidecar, inline)->Ok_0;
            &&& inline@.contains_key(key) ==> m.contains_key(key) && m[key] == inline@[key]
            &&& !inline@.contains_key(key) && sc.contains_key(key) ==> m.contains_key(key) && m[key] == sc[key]
            &&& !inline@.contains_key(key) && !sc.contains_key(key) && g.contains_key(key)
                ==> m.contains_key(key) && m[key] == g[key]
            &&& !inline@.contains_key(key) && !sc.contains_key(key) && !g.contains_key(key)
                ==> !m.contains_key(key)
        }),
{
}


proof fn lemma_env_pairs_valid(entries: Seq<(Option<Seq<char>>, YamlScalarModel)>, source: Seq<char>)
    ensures
        env_pairs_from(entries, source) matches Ok(p) ==> forall|i: int|
            0 <= i < p.len() ==> is_valid_env_key(#[trigger] p[i].0),
    decreases entries.len(),
{
    if entries.len() > 0 {
        lemma_env_pairs_valid(entries.drop_first(), source);
        if let Some(key) = entries[0].0 {
            lemma_env_key_check_ok(key, source);
        }
    }
}

/// A mapping entry that reads as a variable: a string key that is a valid
/// name, and a scalar value.
pub open spec fn entry_ok(e: (Option<Seq<char>>, YamlScalarModel)) -> bool {
    &&& e.0 is Some
    &&& is_valid_env_key(e.0->0)
    &&& scalar_text(e.1) is Some
}

/// The variable an entry reads as: its key, and its value as text.
pub open spec fn entry_pair(e: (Option<Seq<char>>, YamlScalarModel)) -> (Seq<char>, Seq<char>) {
    (e.0->0, scalar_text(e.1)->0)
}

proof fn lemma_env_pairs_ok(entries: Seq<(Option<Seq<char>>, YamlScalarModel)>, source: Seq<char>)
    ensures
        env_pairs_from(entries, source) is Ok <==> forall|i: int|
            0 <= i < entries.len() ==> entry_ok(#[trigger] entries[i]),
        (forall|i: int| 0 <= i < entries.len() ==> entry_ok(#[trigger] entries[i]))
            ==> env_pairs_from(entries, source) == Ok::<Seq<(Seq<char>, Seq<char>)>, Seq<char>>(
            entries.map_values(|e: (Option<Seq<char>>, YamlScalarModel)| entry_pair(e)),
        ),
    decreases entries.len(),
{
    if entries.len() > 0 {
        let rest = entries.drop_first();
        lemma_env_pairs_ok(rest, source);
        if let Some(key) = entries[0].0 {
            lemma_env_key_check_ok(key, source);
        }
        assert forall|i: int| 0 <= i < rest.len() implies #[trigger] rest[i] == entries[i + 1] by {}
        if forall|i: int| 0 <= i < entries.len() ==> entry_ok(#[trigger] entries[i]) {
            assert(entry_ok(entries[0]));
            assert forall|i: int| 0 <= i < rest.len() implies entry_ok(#[trigger] rest[i]) by {
                assert(entry_ok(entries[i + 1]));
            }
            let f = |e: (Option<Seq<char>>, YamlScalarModel)| entry_pair(e);
            assert(seq![entry_pair(entries[0])] + rest.map_values(f) =~= entries.map_values(f));
        }
        if env_pairs_from(entries, source) is Ok {
            assert forall|i: int| 0 <= i < entries.len() implies entry_ok(#[trigger] entries[i]) by {
                if i > 0 {
                    assert(entries[i] == rest[i - 1]);
                }
            }
        }
    } else {
        assert(entries.map_values(|e: (Option<Seq<char>>, YamlScalarModel)| entry_pair(e)) =~= Seq::<
            (Seq<char>, Seq<char>),
        >::empty());
    }
}

/// How an `env.yaml` file with content is read: when it parses as a
/// mapping whose keys are all valid names and whose values are all
/// scalars, the variables are the mapping's keys, each with its value as
/// text (a string as written, a number in its rendering, a boolean as
/// `true` or `false`, null as the empty text); when it does not parse as a
/// mapping, or has a non-string key, an invalid or reserved key, or a
/// value that is not a scalar, it is rejected.
pub proof fn law_env_yaml_reading(path: Seq<char>, content: String)
    ensures
        trim(content@).len() > 0 ==> match yaml_mapping(content@) {
            Err(_) => env_file_spec(path, EnvFile::Content(content)) is Err,
            Ok(entries) => if forall|i: int|
                0 <= i < entries.len() ==> entry_ok(#[trigger] entries[i]) {
                env_file_spec(path, EnvFile::Content(content)) == Ok::<
                    Map<Seq<char>, Seq<char>>,
                    Seq<char>,
                >(map_of(entries.map_values(|e: (Option<Seq<char>>, YamlScalarModel)| entry_pair(e))))
            } else {
                env_file_spec(path, EnvFile::Content(content)) is Err
            },
        },
{
    if let Ok(entries) = yaml_mapping(content@) {
        lemma_env_pairs_ok(entries, path);
    }
}

proof fn lemma_inline_keys_valid(pairs: Seq<(Seq<char>, Seq<char>)>)
    ensures
        inline_keys_check(pairs) is Ok ==> forall|i: int|
            0 <= i < pairs.len() ==> is_valid_env_key(#[trigger] pairs[i].0),
    decreases pairs.len(),
{
    if pairs.len() > 0 {
        lemma_env_key_check_ok(pairs[0].0, "inline env"@);
        lemma_inline_keys_valid(pairs.drop_first());
        if inline_keys_check(pairs) is Ok {
            assert forall|i: int| 0 <= i < pairs.len() implies is_valid_env_key(#[trigger] pairs[i].0) by {
                if i > 0 {
                    assert(pairs[i] == pairs.drop_first()[i - 1]);
                }
            }
        }
    }
}

proof fn lemma_file_keys_valid(path: Seq<char>, file: EnvFile)
    ensures
        env_file_spec(path, file) matches Ok(m) ==> forall|k: Seq<char>|
            #[trigger] m.contains_key(k) ==> is_valid_env_key(k),
{
    if let EnvFile::Content(c) = file {
        if let Ok(entries) = yaml_mapping(c@) {
            lemma_env_pairs_valid(entries, path);
            if let Ok(p) = env_pairs_from(entries, path) {
                assert forall|k: Seq<char>| #[trigger] map_of(p).contains_key(k) implies is_valid_env_key(k) by {
                    lemma_map_of_contains(p, k);
                    let i = choose|i: int| 0 <= i < p.len() && p[i].0 == k;
                    assert(is_valid_env_key(p[i].0));
                }
            }
        }
    }
}

/// Every key of a merged user environment is a portable name outside the
/// reserved namespace: `[A-Za-z_][A-Za-z0-9_]*`, not starting with
/// `NIMBLE_`.
pub proof fn law_user_env_keys_valid(
    commands_root: Seq<char>,
    command_dir: Seq<char>,
    global: EnvFile,
    sidecar: EnvFile,
    inline: EnvMap,
)
    ensures
        user_env_spec(commands_root, command_dir, global, sidecar, inline) matches Ok(m)
            ==> forall|k: Seq<char>| #[trigger] m.contains_key(k) ==> is_valid_env_key(k),
{
    lemma_file_keys_valid(path_join(commands_root, "env.yaml"@), global);
    lemma_file_keys_valid(path_join(command_dir, "env.yaml"@), sidecar);
    lemma_inline_keys_valid(inline.pairs());
    if let Ok(m) = user_env_spec(commands_root, command_dir, global, sidecar, inline) {
        assert forall|k: Seq<char>| #[trigger] m.contains_key(k) implies is_valid_env_key(k) by {
            if inline@.contains_key(k) {
                lemma_map_of_contains(inline.pairs(), k);
                let i = choose|i: int| 0 <= i < inline.pairs().len() && inline.pairs()[i].0 == k;
                assert(is_valid_env_key(inline.pairs()[i].0));
            }
        }
    }
}

// ── Variables handed to scripts ─────────────────────────────────────────────

/// The built-in `NIMBLE_*` variables, in the order they are set.
pub open spec fn builtin_pairs(env: ScriptEnv, os: Seq<char>, version: Seq<char>) -> Seq<
    (Seq<char>, Seq<char>),
> {
    seq![
        ("NIMBLE_CONTEXT"@, env.context@),
        ("NIMBLE_PHRASE"@, env.phrase@),
        ("NIMBLE_CONFIG_DIR"@, env.config_dir@),
        ("NIMBLE_COMMANDS_ROOT"@, env.commands_root@),
        ("NIMBLE_COMMAND_DIR"@, env.command_dir@),
        ("NIMBLE_OS"@, os),
        ("NIMBLE_VERSION"@, version),
    ] + if env.debug {
        seq![("NIMBLE_DEBUG"@, "1"@)]
    } else {
        Seq::empty()
    }
}

/// The pairs of `p` whose name is not `k`, in order.
pub open spec fn drop_key(p: Seq<(Seq<char>, Seq<char>)>, k: Seq<char>) -> Seq<
    (Seq<char>, Seq<char>),
>
    decreases p.len(),
{
    if p.len() == 0 {
        Seq::empty()
    } else if p.last().0 == k {
        drop_key(p.drop_last(), k)
    } else {
        drop_key(p.drop_last(), k).push(p.last())
    }
}

/// Dropping a name's pairs removes it from the map.
pub proof fn lemma_map_of_drop_key(p: Seq<(Seq<char>, Seq<char>)>, k: Seq<char>)
    ensures
        map_of(drop_key(p, k)) == map_of(p).remove(k),
    decreases p.len(),
{
    if p.len() > 0 {
        lemma_map_of_drop_key(p.drop_last(), k);
        let d = drop_key(p.drop_last(), k);
        if p.last().0 != k {
            assert(d.push(p.last()).drop_last() == d);
            assert(d.push(p.last()).last() == p.last());
        }
        assert(map_of(drop_key(p, k)) =~= map_of(p).remove(k));
    }
}

/// Every variable set on a script process, in order: the user-defined
/// variables first, without any `NIMBLE_DEBUG` (which only debug mode
/// sets), then the built-ins (a later setting of a name wins).
pub open spec fn script_env_pairs(env: ScriptEnv, os: Seq<char>, version: Seq<char>) -> Seq<
    (Seq<char>, Seq<char>),
> {
    drop_key(env.user_env.pairs(), "NIMBLE_DEBUG"@) + builtin_pairs(env, os, version)
}

/// Names of the built-in variables.
pub open spec fn is_builtin_key(k: Seq<char>) -> bool {
    ||| k == "NIMBLE_CONTEXT"@
    ||| k == "NIMBLE_PHRASE"@
    ||| k == "NIMBLE_CONFIG_DIR"@
    ||| k == "NIMBLE_COMMANDS_ROOT"@
    ||| k == "NIMBLE_COMMAND_DIR"@
    ||| k == "NIMBLE_OS"@
    ||| k == "NIMBLE_VERSION"@
    ||| k == "NIMBLE_DEBUG"@
}

/// Append a `(name, value)` pair.
fn push_pair(v: &mut Vec<(String, String)>, k: &str, val: &str)
    ensures
        pair_views(final(v)@) == pair_views(old(v)@).push((k@, val@)),
{
    v.push((String::from_str(k), String::from_str(val)));
    assert(pair_views(v@) =~= pair_views(old(v)@).push((k@, val@)));
}

/// The variables to set on a script process: user-defined ones first, then
/// the built-in `NIMBLE_*` variables, so that built-ins always take
/// precedence. `NIMBLE_DEBUG` is set to `1` in debug mode and is absent
/// otherwise, whatever the user-defined variables say. `os` is `macos`,
/// `linux` or `windows`; `version` is the application version.
pub fn script_env_vars(env: &ScriptEnv<'_>, os: &str, version: &str) -> (v: Vec<(String, String)>)
    ensures
        pair_views(v@) == script_env_pairs(*env, os@, version@),
{
    let mut v: Vec<(String, String)> = Vec::new();
    let mut i: usize = 0;
    while i < env.user_env.len()
        invariant
            i <= env.user_env.pairs().len(),
            pair_views(v@) == drop_key(env.user_env.pairs().take(i as int), "NIMBLE_DEBUG"@),
        decreases env.user_env.pairs().len() - i,
    {
        let (k, val) = env.user_env.entry(i);
        assert(env.user_env.pairs().take(i + 1).drop_last() == env.user_env.pairs().take(i as int));
        assert(env.user_env.pairs().take(i + 1).last() == env.user_env.pairs()[i as int]);
        if !str_eq(k.as_str(), "NIMBLE_DEBUG") {
            push_pair(&mut v, k.as_str(), val.as_str());
        }
        i = i + 1;
    }
    assert(env.user_env.pairs().take(i as int) == env.user_env.pairs());
    let ghost user = pair_views(v@);
    push_pair(&mut v, "NIMBLE_CONTEXT", env.context);
    push_pair(&mut v, "NIMBLE_PHRASE", env.phrase);
    push_pair(&mut v, "NIMBLE_CONFIG_DIR", env.config_dir);
    push_pair(&mut v, "NIMBLE_COMMANDS_ROOT", env.commands_root);
    push_pair(&mut v, "NIMBLE_COMMAND_DIR", env.command_dir);
    push_pair(&mut v, "NIMBLE_OS", os);
    push_pair(&mut v, "NIMBLE_VERSION", version);
    if env.debug {
        push_pair(&mut v, "NIMBLE_DEBUG", "1");
    }
    assert(pair_views(v@) =~= script_env_pairs(*env, os@, version@));
    v
}

/// Built-in variables always take precedence over user-defined ones: in the
/// environment a script sees, each `NIMBLE_*` built-in has its built-in
/// value, `NIMBLE_DEBUG` is `1` in debug mode and absent otherwise, and
/// every other name has exactly its user-defined value.
pub proof fn law_builtins_take_precedence(env: ScriptEnv, os: Seq<char>, version: Seq<char>)
    ensures
        ({
            let m = map_of(script_env_pairs(env, os, version));
            &&& m["NIMBLE_CONTEXT"@] == env.context@
            &&& m["NIMBLE_PHRASE"@] == env.phrase@
            &&& m["NIMBLE_CONFIG_DIR"@] == env.config_dir@
            &&& m["NIMBLE_COMMANDS_ROOT"@] == env.commands_root@
            &&& m["NIMBLE_COMMAND_DIR"@] == env.command_dir@
            &&& m["NIMBLE_OS"@] == os
            &&& m["NIMBLE_VERSION"@] == version
            &&& env.debug ==> m.contains_key("NIMBLE_DEBUG"@) && m["NIMBLE_DEBUG"@] == "1"@
            &&& !env.debug ==> !m.contains_key("NIMBLE_DEBUG"@)
            &&& forall|k: Seq<char>|
                !is_builtin_key(k) ==> (m.contains_key(k) <==> env.user_env@.contains_key(k))
                    && (env.user_env@.contains_key(k) ==> m[k] == env.user_env@[k])
        }),
{
    reveal_strlit("NIMBLE_CONTEXT");
    reveal_strlit("NIMBLE_PHRASE");
    reveal_strlit("NIMBLE_CONFIG_DIR");
    reveal_strlit("NIMBLE_COMMANDS_ROOT");
    reveal_strlit("NIMBLE_COMMAND_DIR");
    reveal_strlit("NIMBLE_OS");
    reveal_strlit("NIMBLE_VERSION");
    reveal_strlit("NIMBLE_DEBUG");
    let b = builtin_pairs(env, os, version);
    let u = drop_key(env.user_env.pairs(), "NIMBLE_DEBUG"@);
    lemma_map_of_concat(u, b);
    lemma_map_of_drop_key(env.user_env.pairs(), "NIMBLE_DEBUG"@);
    let mb = map_of(b);
    assert("NIMBLE_CONTEXT"@.len() == 14);
    assert("NIMBLE_PHRASE"@.len() == 13);
    assert("NIMBLE_CONFIG_DIR"@.len() == 17);
    assert("NIMBLE_COMMANDS_ROOT"@.len() == 20);
    assert("NIMBLE_COMMAND_DIR"@.len() == 18);
    assert("NIMBLE_OS"@.len() == 9);
    assert("NIMBLE_VERSION"@.len() == 14);
    assert("NIMBLE_DEBUG"@.len() == 12);
    assert("NIMBLE_CONTEXT"@[7] != "NIMBLE_VERSION"@[7]);
    assert forall|i: int, j: int| 0 <= i < j < b.len() implies b[i].0 != b[j].0 by {
        if i == 0 && j == 6 {
            assert(b[i].0[7] != b[j].0[7]);
        }
    }
    assert forall|i: int| 0 <= i < b.len() implies mb.contains_key(b[i].0) && mb[b[i].0] == b[i].1 by {
        lemma_map_of_last(b, i);
    }
    assert(b[0].0 == "NIMBLE_CONTEXT"@);
    assert(b[1].0 == "NIMBLE_PHRASE"@);
    assert(b[2].0 == "NIMBLE_CONFIG_DIR"@);
    assert(b[3].0 == "NIMBLE_COMMANDS_ROOT"@);
    assert(b[4].0 == "NIMBLE_COMMAND_DIR"@);
    assert(b[5].0 == "NIMBLE_OS"@);
    assert(b[6].0 == "NIMBLE_VERSION"@);
    if env.debug {
        assert(b[7].0 == "NIMBLE_DEBUG"@);
    }
    assert forall|k: Seq<char>| !is_builtin_key(k) implies !mb.contains_key(k) by {
        lemma_map_of_contains(b, k);
        if mb.contains_key(k) {
            let i = choose|i: int| 0 <= i < b.len() && b[i].0 == k;
            assert(is_builtin_key(b[i].0));
        }
    }
    if !env.debug {
        lemma_map_of_contains(b, "NIMBLE_DEBUG"@);
        assert forall|i: int| 0 <= i < b.len() implies b[i].0 != "NIMBLE_DEBUG"@ by {
            assert(b[i].0.len() != 12 || b[i].0[7] != "NIMBLE_DEBUG"@[7]);
        }
    }
}

} // verus!

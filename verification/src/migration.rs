//! Moving the config directory from its old name to its new one.

use vstd::prelude::*;
use crate::files::{last_index, lemma_last_index};
use crate::paths::{join_path, path_join};
use crate::text::{chars_of, string_from_range};
use vstd::string::StringExecFns;

verus! {

/// `Path::parent` of a clean path (no trailing `/`): `None` for the empty
/// path and for `/`; `/` for a top-level absolute path; the empty path for
/// a single relative component.
pub open spec fn parent_path(p: Seq<char>) -> Option<Seq<char>> {
    if p.len() == 0 || p == seq!['/'] {
        None
    } else {
        let k = last_index(p, '/');
        if k < 0 {
            Some(Seq::empty())
        } else if k == 0 {
            Some(seq!['/'])
        } else {
            Some(p.take(k))
        }
    }
}

/// Where the config directory used to be: a sibling of `new_dir` named
/// `io.switchpanel.nimble`.
pub open spec fn legacy_dir_spec(new_dir: Seq<char>) -> Option<Seq<char>> {
    match parent_path(new_dir) {
        Some(parent) => Some(path_join(parent, "io.switchpanel.nimble"@)),
        None => None,
    }
}

/// The old config directory next to `new_dir`, if `new_dir` has a parent.
pub fn legacy_config_dir(new_dir: &str) -> (r: Option<String>)
    ensures
        match r {
            Some(d) => legacy_dir_spec(new_dir@) == Some(d@),
            None => legacy_dir_spec(new_dir@) is None,
        },
{
    let v = chars_of(new_dir);
    if v.len() == 0 || (v.len() == 1 && v[0] == '/') {
        proof {
            if v.len() == 1 && v[0] == '/' {
                assert(v@ == seq!['/']);
            }
        }
        return None;
    }
    assert(v@ != seq!['/']) by {
        if v@ == seq!['/'] {
            assert(v@[0] == '/');
        }
    }
    proof {
        lemma_last_index(v@, '/');
    }
    let mut k: usize = v.len();
    assert(v@.take(k as int) == v@);
    while k > 0 && v[k - 1] != '/'
        invariant
            k <= v@.len(),
            v@ == new_dir@,
            last_index(v@.take(k as int), '/') == last_index(v@, '/'),
        decreases k,
    {
        assert(v@.take(k as int).drop_last() == v@.take(k - 1));
        k = k - 1;
    }
    proof {
        if k > 0 {
            assert(v@.take(k as int).last() == '/');
        }
    }
    let parent = if k == 0 {
        String::new()
    } else if k == 1 {
        let p = String::from_str("/");
        proof {
            reveal_strlit("/");
        }
        p
    } else {
        string_from_range(v.as_slice(), 0, k - 1)
    };
    Some(join_path(parent.as_str(), "io.switchpanel.nimble"))
}

/// Whether to move the old directory: only when it exists and the new one
/// does not (a new directory made by hand is left alone).
pub fn should_migrate(old_exists: bool, new_exists: bool) -> (b: bool)
    ensures
        b == (old_exists && !new_exists),
{
    old_exists && !new_exists
}

} // verus!

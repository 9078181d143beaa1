//! Static lists in TSV format: one item per line, a tab separating the title
//! from an optional subtext; blank lines and `#` comments are skipped.

use vstd::prelude::*;
use crate::text::{
    chars_of, concat2, debug_quoted, debug_str, find_char, first_index, is_ws, lead_ws,
    lemma_first_index, string_from_range, strip_cr, text_lines, trail_ws, trim, trim_bounds,
};
use vstd::string::StringExecFns;

verus! {

/// A single item in a list.
#[derive(Debug)]
pub struct ListItem {
    pub title: String,
    pub subtext: Option<String>,
}

/// The characters of an item: `(title, subtext)`.
pub open spec fn item_view(i: ListItem) -> (Seq<char>, Option<Seq<char>>) {
    (
        i.title@,
        match i.subtext {
            Some(s) => Some(s@),
            None => None,
        },
    )
}

/// The characters of a list of items.
pub open spec fn items_view(v: Seq<ListItem>) -> Seq<(Seq<char>, Option<Seq<char>>)> {
    v.map_values(|i: ListItem| item_view(i))
}

// ── Items ───────────────────────────────────────────────────────────────────

/// The item a single line denotes, if any.
pub open spec fn tsv_item(line: Seq<char>) -> Option<(Seq<char>, Option<Seq<char>>)> {
    let tr = trim(line);
    if tr.len() == 0 || tr[0] == '#' {
        None
    } else {
        let p = first_index(line, '\t');
        let (title, subtext) = if p < line.len() {
            let s = trim(line.skip(p + 1int));
            (trim(line.take(p as int)), if s.len() == 0 { None } else { Some(s) })
        } else {
            (tr, None)
        };
        if title.len() == 0 {
            None
        } else {
            Some((title, subtext))
        }
    }
}

/// The items of a sequence of lines, in order.
pub open spec fn items_of_lines(ls: Seq<Seq<char>>) -> Seq<(Seq<char>, Option<Seq<char>>)>
    decreases ls.len(),
{
    if ls.len() == 0 {
        Seq::empty()
    } else {
        match tsv_item(ls[0]) {
            Some(it) => seq![it] + items_of_lines(ls.drop_first()),
            None => items_of_lines(ls.drop_first()),
        }
    }
}

/// The items of a TSV text.
pub open spec fn tsv_items(content: Seq<char>) -> Seq<(Seq<char>, Option<Seq<char>>)> {
    items_of_lines(text_lines(content))
}

/// Every item has a non-empty title, and the subtext, when present, is
/// non-empty: blank lines, comments and blank titles yield no item.
pub proof fn law_items_have_titles(content: Seq<char>)
    ensures
        forall|i: int|
            0 <= i < tsv_items(content).len() ==> (#[trigger] tsv_items(content)[i]).0.len() > 0
                && (tsv_items(content)[i].1 matches Some(s) ==> s.len() > 0),
{
    lemma_items_of_lines_nonempty(text_lines(content));
}

proof fn lemma_items_of_lines_nonempty(ls: Seq<Seq<char>>)
    ensures
        forall|i: int|
            0 <= i < items_of_lines(ls).len() ==> (#[trigger] items_of_lines(ls)[i]).0.len() > 0
                && (items_of_lines(ls)[i].1 matches Some(s) ==> s.len() > 0),
    decreases ls.len(),
{
    if ls.len() > 0 {
        lemma_items_of_lines_nonempty(ls.drop_first());
        let rest = items_of_lines(ls.drop_first());
        match tsv_item(ls[0]) {
            Some(it) => {
                assert forall|i: int| 0 <= i < items_of_lines(ls).len() implies (
                #[trigger] items_of_lines(ls)[i]).0.len() > 0 && (items_of_lines(ls)[i].1 matches Some(
                    s,
                ) ==> s.len() > 0) by {
                    if i > 0 {
                        assert(items_of_lines(ls)[i] == rest[i - 1]);
                    }
                }
            },
            None => {},
        }
    }
}

// ── A trailing line ending ──────────────────────────────────────────────────

/// The first `c` in `a + b`: the one in `a` if any, else the one in `b`
/// after `a`.
proof fn lemma_first_index_concat(a: Seq<char>, b: Seq<char>, c: char)
    ensures
        first_index(a + b, c) == if first_index(a, c) < a.len() {
            first_index(a, c)
        } else {
            a.len() + first_index(b, c)
        },
    decreases a.len(),
{
    lemma_first_index(a, c);
    if a.len() == 0 {
        assert(a + b == b);
    } else {
        assert((a + b)[0] == a[0]);
        if a[0] != c {
            assert((a + b).drop_first() == a.drop_first() + b);
            lemma_first_index_concat(a.drop_first(), b, c);
        }
    }
}

/// Leading whitespace never exceeds the text.
proof fn lemma_lead_ws_le(x: Seq<char>)
    ensures
        lead_ws(x) <= x.len(),
        lead_ws(x) < x.len() ==> !is_ws(x[lead_ws(x) as int]),
    decreases x.len(),
{
    if x.len() > 0 && is_ws(x[0]) {
        lemma_lead_ws_le(x.drop_first());
    }
}

/// Trailing whitespace never exceeds the text.
proof fn lemma_trail_ws_le(x: Seq<char>)
    ensures
        trail_ws(x) <= x.len(),
    decreases x.len(),
{
    if x.len() > 0 && is_ws(x.last()) {
        lemma_trail_ws_le(x.drop_last());
    }
}

/// Appending a character changes the leading whitespace only of a text
/// that is whitespace throughout.
proof fn lemma_lead_ws_push(x: Seq<char>, w: char)
    ensures
        lead_ws(x.push(w)) == if lead_ws(x) < x.len() {
            lead_ws(x) as int
        } else {
            x.len() + if is_ws(w) {
                1int
            } else {
                0int
            }
        },
    decreases x.len(),
{
    lemma_lead_ws_le(x);
    let y = x.push(w);
    if x.len() == 0 {
        assert(y.drop_first() == Seq::<char>::empty());
        assert(lead_ws(Seq::<char>::empty()) == 0);
        assert(y[0] == w);
    } else {
        assert(y[0] == x[0]);
        if is_ws(x[0]) {
            assert(y.drop_first() == x.drop_first().push(w));
            lemma_lead_ws_push(x.drop_first(), w);
            lemma_lead_ws_le(x.drop_first());
        }
    }
}

/// Trimming ignores one more trailing whitespace character.
proof fn lemma_trim_push_ws(x: Seq<char>, w: char)
    requires
        is_ws(w),
    ensures
        trim(x.push(w)) == trim(x),
{
    let y = x.push(w);
    lemma_lead_ws_push(x, w);
    lemma_lead_ws_le(x);
    let l = lead_ws(x) as int;
    if l < x.len() {
        let t = x.skip(l);
        let t2 = y.skip(l);
        assert(t2 == t.push(w));
        assert(t2.drop_last() == t);
        assert(trail_ws(t2) == 1 + trail_ws(t));
        lemma_trail_ws_le(t);
        assert(t2.take(t2.len() - trail_ws(t2)) == t.take(t.len() - trail_ws(t)));
    } else {
        assert(y.skip(y.len() as int) == Seq::<char>::empty());
        assert(x.skip(x.len() as int) == Seq::<char>::empty());
    }
}

/// A `\r` at the end of a line makes no difference to its item.
proof fn lemma_tsv_item_cr(z: Seq<char>)
    ensures
        tsv_item(z.push('\r')) == tsv_item(z),
{
    let s = z.push('\r');
    assert(is_ws('\r'));
    lemma_trim_push_ws(z, '\r');
    lemma_first_index_concat(z, seq!['\r'], '\t');
    assert(s == z + seq!['\r']);
    assert(seq!['\r'].drop_first() == Seq::<char>::empty());
    assert(seq!['\r'][0] == '\r');
    assert(first_index(Seq::<char>::empty(), '\t') == 0);
    assert(first_index(seq!['\r'], '\t') == 1);
    let p = first_index(z, '\t');
    if p < z.len() {
        assert(s.take(p as int) == z.take(p as int));
        assert(s.skip(p + 1int) == z.skip(p + 1int).push('\r'));
        lemma_trim_push_ws(z.skip(p + 1int), '\r');
    }
}

/// The items of one more line, in front.
proof fn lemma_items_cons(a: Seq<char>, ls: Seq<Seq<char>>)
    ensures
        items_of_lines(seq![a] + ls) == match tsv_item(a) {
            Some(it) => seq![it] + items_of_lines(ls),
            None => items_of_lines(ls),
        },
{
    assert((seq![a] + ls)[0] == a);
    assert((seq![a] + ls).drop_first() == ls);
}

/// The items of an optional item.
pub open spec fn item_seq(it: Option<(Seq<char>, Option<Seq<char>>)>) -> Seq<(Seq<char>, Option<Seq<char>>)> {
    match it {
        Some(x) => seq![x],
        None => Seq::empty(),
    }
}

/// Lines are read one by one: a first line `l` (without its `\n`, and
/// without a `\r` ending it) contributes its own item, if any, in front of
/// the items of the rest of the text, which it does not change.
pub proof fn law_first_line_item(l: Seq<char>, s: Seq<char>)
    requires
        !l.contains('\n'),
    ensures
        tsv_items(l + seq!['\n'] + s) == item_seq(tsv_item(strip_cr(l))) + tsv_items(s),
{
    let t = l + seq!['\n'] + s;
    lemma_first_index(l, '\n');
    assert(t == l + (seq!['\n'] + s));
    lemma_first_index_concat(l, seq!['\n'] + s, '\n');
    assert((seq!['\n'] + s)[0] == '\n');
    assert(first_index(seq!['\n'] + s, '\n') == 0);
    assert(t.take(l.len() as int) == l);
    assert(t.skip(l.len() + 1int) == s);
    assert(text_lines(t) == seq![strip_cr(l)] + text_lines(s));
    lemma_items_cons(strip_cr(l), text_lines(s));
    match tsv_item(strip_cr(l)) {
        Some(it) => {},
        None => {
            assert(Seq::<(Seq<char>, Option<Seq<char>>)>::empty() + tsv_items(s) == tsv_items(s));
        },
    }
}

/// A line ending after the last line adds no item and loses none: a text
/// lists the same items with or without a final `\n`. (An unterminated last
/// line counts, as with `str::lines`.)
pub proof fn law_trailing_newline_adds_no_item(s: Seq<char>)
    ensures
        tsv_items(s + seq!['\n']) == tsv_items(s),
    decreases s.len(),
{
    let t = s + seq!['\n'];
    lemma_first_index(s, '\n');
    lemma_first_index_concat(s, seq!['\n'], '\n');
    assert(seq!['\n'][0] == '\n');
    assert(first_index(seq!['\n'], '\n') == 0);
    assert(text_lines(Seq::<char>::empty()) == Seq::<Seq<char>>::empty());
    let k = first_index(s, '\n');
    if s.len() == 0 {
        assert(t == seq!['\n']);
        assert(t[0] == '\n');
        assert(first_index(t, '\n') == 0);
        assert(t.take(0) == Seq::<char>::empty());
        assert(t.skip(1) == Seq::<char>::empty());
        assert(text_lines(t) == seq![strip_cr(Seq::<char>::empty())] + Seq::<Seq<char>>::empty());
        lemma_items_cons(Seq::<char>::empty(), Seq::empty());
        assert(trim(Seq::<char>::empty()).len() == 0);
    } else if k < s.len() {
        let rest = s.skip(k + 1int);
        assert(t.take(k as int) == s.take(k as int));
        assert(t.skip(k + 1int) == rest + seq!['\n']);
        law_trailing_newline_adds_no_item(rest);
        let a = strip_cr(s.take(k as int));
        assert(text_lines(t) == seq![a] + text_lines(rest + seq!['\n']));
        assert(text_lines(s) == seq![a] + text_lines(rest));
        lemma_items_cons(a, text_lines(rest + seq!['\n']));
        lemma_items_cons(a, text_lines(rest));
    } else {
        assert(t.take(s.len() as int) == s);
        assert(t.skip(s.len() + 1int) == Seq::<char>::empty());
        assert(text_lines(t) == seq![strip_cr(s)] + Seq::<Seq<char>>::empty());
        assert(text_lines(s) == seq![s]);
        lemma_items_cons(strip_cr(s), Seq::empty());
        lemma_items_cons(s, Seq::empty());
        assert(seq![s] == seq![s] + Seq::<Seq<char>>::empty());
        if s.last() == '\r' {
            assert(s.drop_last().push('\r') == s);
            lemma_tsv_item_cr(s.drop_last());
        }
    }
}

/// The item of the line `v[a..b]`, if any.
fn line_item(v: &[char], a: usize, b: usize) -> (r: Option<ListItem>)
    requires
        a <= b <= v@.len(),
    ensures
        match (r, tsv_item(v@.subrange(a as int, b as int))) {
            (Some(it), Some(x)) => item_view(it) == x,
            (None, None) => true,
            _ => false,
        },
{
    let ghost line = v@.subrange(a as int, b as int);
    let (ta, tb) = trim_bounds(v, a, b);
    if ta == tb || v[ta] == '#' {
        proof {
            if ta < tb {
                assert(trim(line)[0] == v@[ta as int]);
            }
        }
        return None;
    }
    assert(trim(line)[0] == v@[ta as int]);
    let p = find_char(v, a, b, '\t');
    proof {
        lemma_first_index(line, '\t');
    }
    let (title, subtext) = if p < b {
        let (t1, t2) = trim_bounds(v, a, p);
        let (s1, s2) = trim_bounds(v, p + 1, b);
        assert(line.take(p - a) == v@.subrange(a as int, p as int));
        assert(line.skip(p - a + 1) == v@.subrange(p + 1, b as int));
        let t = string_from_range(v, t1, t2);
        let s = if s1 == s2 {
            None
        } else {
            Some(string_from_range(v, s1, s2))
        };
        (t, s)
    } else {
        (string_from_range(v, ta, tb), None)
    };
    if title.as_str().is_empty() {
        return None;
    }
    Some(ListItem { title, subtext })
}

/// Parse a TSV string into a list of items.
///
/// Format: one item per line. A tab character separates `title` from an
/// optional `subtext`. Lines starting with `#` (after trimming) and blank
/// lines are skipped, as are lines whose title is blank.
pub fn parse_tsv_list(content: &str) -> (r: Result<Vec<ListItem>, String>)
    ensures
        r is Ok,
        r matches Ok(items) ==> items_view(items@) == tsv_items(content@),
{
    let v = chars_of(content);
    let n = v.len();
    let mut items: Vec<ListItem> = Vec::new();
    let mut start: usize = 0;
    assert(v@.skip(0) == v@);
    while start < n
        invariant
            n == v@.len(),
            start <= n,
            v@ == content@,
            items_view(items@) + items_of_lines(text_lines(v@.skip(start as int))) == tsv_items(
                content@,
            ),
        decreases n - start,
    {
        let ghost rest = v@.skip(start as int);
        let k = find_char(v.as_slice(), start, n, '\n');
        assert(v@.subrange(start as int, n as int) == rest);
        proof {
            lemma_first_index(rest, '\n');
        }
        let ghost before = items_view(items@);
        let end = if k < n && k > start && v[k - 1] == '\r' {
            k - 1
        } else {
            k
        };
        let ghost line = v@.subrange(start as int, end as int);
        if k < n {
            assert(rest.take(k - start) == v@.subrange(start as int, k as int));
            assert(strip_cr(rest.take(k - start)) == line);
            assert(rest.skip(k - start + 1) == v@.skip(k + 1));
            assert(text_lines(rest) == seq![line] + text_lines(v@.skip(k + 1)));
        } else {
            assert(line == rest);
            assert(text_lines(rest) == seq![line]);
            assert(v@.skip(n as int) == Seq::<char>::empty());
            assert(text_lines(v@.skip(n as int)) == Seq::<Seq<char>>::empty());
        }
        let next = if k < n {
            k + 1
        } else {
            n
        };
        let ghost tail = text_lines(v@.skip(next as int));
        assert(text_lines(rest) == seq![line] + tail);
        assert((seq![line] + tail).drop_first() == tail);
        assert((seq![line] + tail)[0] == line);
        match line_item(v.as_slice(), start, end) {
            Some(it) => {
                items.push(it);
                assert(items_view(items@) == before.push(item_view(it)));
                assert(items_view(items@) + items_of_lines(tail) == before + items_of_lines(
                    seq![line] + tail,
                ));
            },
            None => {
                assert(items_of_lines(seq![line] + tail) == items_of_lines(tail));
            },
        }
        start = next;
    }
    assert(v@.skip(start as int) == Seq::<char>::empty());
    assert(items_view(items@) + Seq::<(Seq<char>, Option<Seq<char>>)>::empty() == items_view(
        items@,
    ));
    Ok(items)
}

/// The list loaded from the file at `path`, given what reading it gave:
/// a read failure becomes `Could not read list <path:?>: <reason>`.
pub fn list_from_file(path: &str, read: Result<String, String>) -> (r: Result<Vec<ListItem>, String>)
    ensures
        match read {
            Err(e) => r matches Err(m) && m@ == "Could not read list "@ + debug_str(path@) + ": "@ + e@,
            Ok(c) => r matches Ok(items) && items_view(items@) == tsv_items(c@),
        },
{
    match read {
        Err(e) => {
            let q = debug_quoted(path);
            let mut m = concat2("Could not read list ", q.as_str());
            m.append(": ");
            m.append(e.as_str());
            Err(m)
        },
        Ok(c) => parse_tsv_list(c.as_str()),
    }
}

} // verus!

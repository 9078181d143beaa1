//! Character-level string helpers with specifications over `Seq<char>`.
//!
//! Strings are modelled by their character sequences (`s@`). The helpers
//! here give exact specifications for the handful of `str` operations the
//! library relies on: Unicode whitespace trimming, line splitting,
//! substring search, prefix tests and non-overlapping replacement.

use vstd::prelude::*;
use vstd::string::StringExecFns;

verus! {

// ── Copying between strings and character vectors ──────────────────────────

/// Copy the characters of `s` into a vector.
pub fn chars_of(s: &str) -> (v: Vec<char>)
    ensures
        v@ == s@,
{
    let mut v: Vec<char> = Vec::new();
    for c in it: s.chars()
        invariant
            it.seq() == s@,
            v@ == it.seq().take(it.index() as int),
    {
        v.push(c);
    }
    v
}

/// Appends one character to a string (`String::push`).
#[verifier::external_body]
pub(crate) fn push_char(s: &mut String, c: char)
    ensures
        final(s)@ == old(s)@.push(c),
{
    s.push(c);
}

/// Append the characters `v[from..to]` to `s`.
pub fn push_chars(s: &mut String, v: &[char], from: usize, to: usize)
    requires
        from <= to <= v@.len(),
    ensures
        final(s)@ == old(s)@ + v@.subrange(from as int, to as int),
{
    let mut i: usize = from;
    while i < to
        invariant
            from <= i <= to <= v@.len(),
            s@ == old(s)@ + v@.subrange(from as int, i as int),
        decreases to - i,
    {
        push_char(s, v[i]);
        assert(v@.subrange(from as int, i + 1) == v@.subrange(from as int, i as int).push(v@[i as int]));
        i = i + 1;
    }
}

/// Build a string from the characters `v[from..to]`.
pub fn string_from_range(v: &[char], from: usize, to: usize) -> (s: String)
    requires
        from <= to <= v@.len(),
    ensures
        s@ == v@.subrange(from as int, to as int),
{
    let mut s = String::new();
    push_chars(&mut s, v, from, to);
    s
}

/// Concatenate two strings.
pub fn concat2(a: &str, b: &str) -> (s: String)
    ensures
        s@ == a@ + b@,
{
    let mut s = String::from_str(a);
    s.append(b);
    s
}

/// Concatenate three strings.
pub fn concat3(a: &str, b: &str, c: &str) -> (s: String)
    ensures
        s@ == a@ + b@ + c@,
{
    let mut s = String::from_str(a);
    s.append(b);
    s.append(c);
    s
}

/// Character-wise equality of two character slices.
pub fn slice_eq(a: &[char], b: &[char]) -> (r: bool)
    ensures
        r == (a@ == b@),
{
    if a.len() != b.len() {
        return false;
    }
    let mut i: usize = 0;
    while i < a.len()
        invariant
            a@.len() == b@.len(),
            i <= a@.len(),
            forall|j: int| 0 <= j < i ==> a@[j] == b@[j],
        decreases a.len() - i,
    {
        if a[i] != b[i] {
            return false;
        }
        i = i + 1;
    }
    assert(a@ =~= b@);
    true
}

/// Equality of two strings.
pub fn str_eq(a: &str, b: &str) -> (r: bool)
    ensures
        r == (a@ == b@),
{
    let va = chars_of(a);
    let vb = chars_of(b);
    slice_eq(va.as_slice(), vb.as_slice())
}

// ── Whitespace and trimming ──────────────────────────────────────────────────

/// The Unicode `White_Space` property, as used by `char::is_whitespace`.
pub open spec fn is_ws(c: char) -> bool {
    ||| ('\u{9}' <= c && c <= '\u{d}')
    ||| c == ' '
    ||| c == '\u{85}'
    ||| c == '\u{a0}'
    ||| c == '\u{1680}'
    ||| ('\u{2000}' <= c && c <= '\u{200a}')
    ||| c == '\u{2028}'
    ||| c == '\u{2029}'
    ||| c == '\u{202f}'
    ||| c == '\u{205f}'
    ||| c == '\u{3000}'
}

/// Executable whitespace test.
pub fn is_ws_char(c: char) -> (r: bool)
    ensures
        r == is_ws(c),
{
    ('\u{9}' <= c && c <= '\u{d}') || c == ' ' || c == '\u{85}' || c == '\u{a0}' || c == '\u{1680}'
        || ('\u{2000}' <= c && c <= '\u{200a}') || c == '\u{2028}' || c == '\u{2029}' || c
        == '\u{202f}' || c == '\u{205f}' || c == '\u{3000}'
}

/// Number of leading whitespace characters.
pub open spec fn lead_ws(s: Seq<char>) -> nat
    decreases s.len(),
{
    if s.len() > 0 && is_ws(s[0]) {
        1 + lead_ws(s.drop_first())
    } else {
        0
    }
}

/// Number of trailing whitespace characters.
pub open spec fn trail_ws(s: Seq<char>) -> nat
    decreases s.len(),
{
    if s.len() > 0 && is_ws(s.last()) {
        1 + trail_ws(s.drop_last())
    } else {
        0
    }
}

/// `str::trim`: the string without leading and trailing whitespace.
pub open spec fn trim(s: Seq<char>) -> Seq<char> {
    let t = s.skip(lead_ws(s) as int);
    t.take(t.len() - trail_ws(t))
}

/// Bounds `(a, b)` such that `v[a..b]` is the trimmed text of `v[from..to]`.
pub fn trim_bounds(v: &[char], from: usize, to: usize) -> (r: (usize, usize))
    requires
        from <= to <= v@.len(),
    ensures
        from <= r.0 <= r.1 <= to,
        v@.subrange(r.0 as int, r.1 as int) == trim(v@.subrange(from as int, to as int)),
{
    let ghost s = v@.subrange(from as int, to as int);
    let mut a: usize = from;
    while a < to && is_ws_char(v[a])
        invariant
            from <= a <= to <= v@.len(),
            s == v@.subrange(from as int, to as int),
            lead_ws(s) == (a - from) + lead_ws(v@.subrange(a as int, to as int)),
        decreases to - a,
    {
        assert(v@.subrange(a as int, to as int).drop_first() == v@.subrange(a + 1, to as int));
        a = a + 1;
    }
    assert(lead_ws(v@.subrange(a as int, to as int)) == 0);
    let ghost t = s.skip(lead_ws(s) as int);
    assert(t == v@.subrange(a as int, to as int));
    let mut b: usize = to;
    while b > a && is_ws_char(v[b - 1])
        invariant
            from <= a <= b <= to <= v@.len(),
            t == v@.subrange(a as int, to as int),
            trail_ws(t) == (to - b) + trail_ws(v@.subrange(a as int, b as int)),
        decreases b,
    {
        assert(v@.subrange(a as int, b as int).drop_last() == v@.subrange(a as int, b - 1));
        b = b - 1;
    }
    assert(trail_ws(v@.subrange(a as int, b as int)) == 0);
    assert(t.take(t.len() - trail_ws(t)) == v@.subrange(a as int, b as int));
    (a, b)
}

/// `str::trim` on a whole string.
pub fn trim_string(s: &str) -> (r: String)
    ensures
        r@ == trim(s@),
{
    let v = chars_of(s);
    let (a, b) = trim_bounds(v.as_slice(), 0, v.len());
    assert(v@.subrange(0, v@.len() as int) == v@);
    string_from_range(v.as_slice(), a, b)
}

// ── Search ───────────────────────────────────────────────────────────────────

/// `s` starts with `p`.
pub open spec fn starts_with(s: Seq<char>, p: Seq<char>) -> bool {
    p.len() <= s.len() && s.take(p.len() as int) == p
}

/// `s` ends with `p`.
pub open spec fn ends_with(s: Seq<char>, p: Seq<char>) -> bool {
    p.len() <= s.len() && s.skip(s.len() - p.len()) == p
}

/// `p` occurs in `s` at position `i`.
pub open spec fn occurs_at(s: Seq<char>, p: Seq<char>, i: int) -> bool {
    0 <= i && i + p.len() <= s.len() && s.subrange(i, i + p.len()) == p
}

/// `p` occurs somewhere in `s` (`str::contains` with a string pattern).
pub open spec fn contains_sub(s: Seq<char>, p: Seq<char>) -> bool {
    exists|i: int| occurs_at(s, p, i)
}

/// Index of the first occurrence of `c` in `s`, or `s.len()` when absent.
pub open spec fn first_index(s: Seq<char>, c: char) -> nat
    decreases s.len(),
{
    if s.len() == 0 {
        0
    } else if s[0] == c {
        0
    } else {
        1 + first_index(s.drop_first(), c)
    }
}

/// `first_index` finds the first occurrence, or the length.
pub proof fn lemma_first_index(s: Seq<char>, c: char)
    ensures
        first_index(s, c) <= s.len(),
        forall|i: int| 0 <= i < first_index(s, c) ==> s[i] != c,
        first_index(s, c) < s.len() ==> s[first_index(s, c) as int] == c,
        first_index(s, c) == s.len() <==> !s.contains(c),
    decreases s.len(),
{
    if s.len() > 0 && s[0] != c {
        lemma_first_index(s.drop_first(), c);
        assert forall|i: int| 0 <= i < first_index(s, c) implies s[i] != c by {
            if i > 0 {
                assert(s[i] == s.drop_first()[i - 1]);
            }
        }
        if first_index(s, c) == s.len() {
            assert forall|i: int| 0 <= i < s.len() implies s[i] != c by {}
        }
        if s.contains(c) {
            let j = choose|j: int| 0 <= j < s.len() && s[j] == c;
            assert(s.drop_first()[j - 1] == c);
        }
    }
}

/// Position of the first `c` in `v[from..to]`, or `to` when absent.
pub fn find_char(v: &[char], from: usize, to: usize, c: char) -> (r: usize)
    requires
        from <= to <= v@.len(),
    ensures
        from <= r <= to,
        r - from == first_index(v@.subrange(from as int, to as int), c),
        forall|i: int| from <= i < r ==> v@[i] != c,
        r < to ==> v@[r as int] == c,
{
    let mut i: usize = from;
    while i < to
        invariant
            from <= i <= to <= v@.len(),
            forall|j: int| from <= j < i ==> v@[j] != c,
            first_index(v@.subrange(from as int, to as int), c) == (i - from) + first_index(
                v@.subrange(i as int, to as int),
                c,
            ),
        decreases to - i,
    {
        if v[i] == c {
            return i;
        }
        assert(v@.subrange(i as int, to as int).drop_first() == v@.subrange(i + 1, to as int));
        i = i + 1;
    }
    i
}

/// Whether `p` occurs at position `i` of `v` (exec).
pub fn occurs_at_exec(v: &[char], p: &[char], i: usize) -> (r: bool)
    ensures
        r == occurs_at(v@, p@, i as int),
{
    if i > v.len() || p.len() > v.len() - i {
        return false;
    }
    let mut k: usize = 0;
    while k < p.len()
        invariant
            i + p@.len() <= v@.len(),
            v@.len() == v.len(),
            k <= p@.len(),
            forall|j: int| 0 <= j < k ==> v@[i + j] == p@[j],
        decreases p.len() - k,
    {
        if v[i + k] != p[k] {
            assert(v@.subrange(i as int, i + p@.len())[k as int] != p@[k as int]);
            return false;
        }
        k = k + 1;
    }
    assert(v@.subrange(i as int, i + p@.len()) == p@);
    true
}

/// Whether `v` starts with `p` (exec).
pub fn starts_with_exec(v: &[char], p: &[char]) -> (r: bool)
    ensures
        r == starts_with(v@, p@),
{
    let r = occurs_at_exec(v, p, 0);
    assert(r ==> v@.take(p@.len() as int) == v@.subrange(0, p@.len() as int));
    assert(starts_with(v@, p@) ==> v@.subrange(0, p@.len() as int) == v@.take(p@.len() as int));
    r
}

/// Whether `v` ends with `p` (exec).
pub fn ends_with_exec(v: &[char], p: &[char]) -> (r: bool)
    ensures
        r == ends_with(v@, p@),
{
    if p.len() > v.len() {
        return false;
    }
    let r = occurs_at_exec(v, p, v.len() - p.len());
    assert(v@.skip(v@.len() - p@.len()) == v@.subrange(v@.len() - p@.len(), v@.len() as int));
    r
}

/// Whether `p` occurs anywhere in `v` (exec).
pub fn contains_sub_exec(v: &[char], p: &[char]) -> (r: bool)
    ensures
        r == contains_sub(v@, p@),
{
    if p.len() > v.len() {
        assert(!contains_sub(v@, p@));
        return false;
    }
    let last = v.len() - p.len();
    let mut i: usize = 0;
    loop
        invariant
            p@.len() <= v@.len(),
            last == v@.len() - p@.len(),
            i <= last,
            forall|j: int| 0 <= j < i ==> !occurs_at(v@, p@, j),
        ensures
            forall|j: int| 0 <= j <= last ==> !occurs_at(v@, p@, j),
        decreases last - i,
    {
        if occurs_at_exec(v, p, i) {
            return true;
        }
        if i == last {
            break;
        }
        i = i + 1;
    }
    assert forall|j: int| !occurs_at(v@, p@, j) by {
        if 0 <= j && j + p@.len() <= v@.len() {
            assert(j <= last);
        }
    }
    false
}

/// Whether `c` occurs in `v` (exec).
pub fn has_char_exec(v: &[char], c: char) -> (r: bool)
    ensures
        r == v@.contains(c),
{
    let i = find_char(v, 0, v.len(), c);
    assert(v@.subrange(0, v@.len() as int) == v@);
    proof {
        lemma_first_index(v@, c);
    }
    i < v.len()
}

// ── Lines ───────────────────────────────────────────────────────────────────

/// A line without its `\r` terminator (the `\r` of a `\r\n` ending).
pub open spec fn strip_cr(line: Seq<char>) -> Seq<char> {
    if line.len() > 0 && line.last() == '\r' {
        line.drop_last()
    } else {
        line
    }
}

/// `str::lines`: lines end at `\n` or `\r\n`; the final line ending is
/// optional, so an empty text has no lines.
pub open spec fn text_lines(s: Seq<char>) -> Seq<Seq<char>>
    decreases s.len(),
{
    if s.len() == 0 {
        Seq::empty()
    } else {
        let k = first_index(s, '\n');
        if k >= s.len() {
            seq![s]
        } else {
            seq![strip_cr(s.take(k as int))] + text_lines(s.skip(k + 1int))
        }
    }
}

/// Split a text into its lines (`str::lines`).
pub fn split_lines(s: &str) -> (r: Vec<String>)
    ensures
        r@.map_values(|l: String| l@) == text_lines(s@),
{
    let v = chars_of(s);
    let n = v.len();
    let mut out: Vec<String> = Vec::new();
    let mut start: usize = 0;
    assert(v@.skip(0) == v@);
    assert(out@.map_values(|l: String| l@) =~= Seq::<Seq<char>>::empty());
    while start < n
        invariant
            n == v@.len(),
            start <= n,
            v@ == s@,
            out@.map_values(|l: String| l@) + text_lines(v@.skip(start as int)) == text_lines(s@),
        decreases n - start,
    {
        let ghost rest = v@.skip(start as int);
        let k = find_char(v.as_slice(), start, n, '\n');
        assert(v@.subrange(start as int, n as int) == rest);
        proof {
            lemma_first_index(rest, '\n');
        }
        let ghost before = out@.map_values(|l: String| l@);
        let end = if k < n && k > start && v[k - 1] == '\r' {
            k - 1
        } else {
            k
        };
        let ghost line = v@.subrange(start as int, end as int);
        if k < n {
            assert(rest.take(k - start) == v@.subrange(start as int, k as int));
            assert(strip_cr(rest.take(k - start)) == line);
            assert(rest.skip(k - start + 1) == v@.skip(k + 1));
        } else {
            assert(line == rest);
            assert(v@.skip(n as int) == Seq::<char>::empty());
            assert(text_lines(v@.skip(n as int)) == Seq::<Seq<char>>::empty());
        }
        let next = if k < n {
            k + 1
        } else {
            n
        };
        assert(text_lines(rest) == seq![line] + text_lines(v@.skip(next as int)));
        out.push(string_from_range(v.as_slice(), start, end));
        assert(out@.map_values(|l: String| l@) == before.push(line));
        assert(before.push(line) + text_lines(v@.skip(next as int)) == before + (seq![line]
            + text_lines(v@.skip(next as int))));
        start = next;
    }
    assert(v@.skip(start as int) == Seq::<char>::empty());
    assert(out@.map_values(|l: String| l@) + Seq::<Seq<char>>::empty() == out@.map_values(
        |l: String| l@,
    ));
    out
}

// ── Decimal numbers ─────────────────────────────────────────────────────────

/// The decimal digit for `d < 10`.
pub open spec fn digit_char(d: nat) -> char {
    (48 + d) as char
}

/// Decimal rendering of a natural number, without leading zeros.
pub open spec fn decimal(n: nat) -> Seq<char>
    decreases n,
{
    if n < 10 {
        seq![digit_char(n)]
    } else {
        decimal(n / 10) + seq![digit_char(n % 10)]
    }
}

/// Decimal rendering of an integer, with a leading `-` when negative.
pub open spec fn decimal_int(n: int) -> Seq<char> {
    if n < 0 {
        seq!['-'] + decimal((-n) as nat)
    } else {
        decimal(n as nat)
    }
}

/// `s` left-padded with `0` to at least `w` characters (`{:0w}`).
pub open spec fn zero_pad(s: Seq<char>, w: nat) -> Seq<char> {
    if s.len() >= w {
        s
    } else {
        Seq::new((w - s.len()) as nat, |i: int| '0') + s
    }
}

/// Append the decimal rendering of `n` to `s`.
pub fn push_decimal(s: &mut String, n: u64)
    ensures
        final(s)@ == old(s)@ + decimal(n as nat),
{
    let mut m: u64 = n;
    let mut rev: Vec<char> = Vec::new();
    loop
        invariant_except_break
            decimal(n as nat) == decimal(m as nat) + rev@.reverse(),
        ensures
            decimal(n as nat) == rev@.reverse(),
        decreases m,
    {
        let d = m % 10;
        let c = ((48 + d) as u8) as char;
        assert(c == digit_char(d as nat));
        let ghost old_rev = rev@;
        rev.push(c);
        assert(rev@.reverse() == seq![c] + old_rev.reverse());
        if m < 10 {
            assert(decimal(m as nat) == seq![c]);
            break;
        }
        assert(decimal(m as nat) == decimal((m / 10) as nat) + seq![c]);
        m = m / 10;
    }
    let mut i: usize = rev.len();
    let ghost start = s@;
    while i > 0
        invariant
            i <= rev@.len(),
            s@ == start + rev@.reverse().take(rev@.len() - i),
        decreases i,
    {
        i = i - 1;
        push_char(s, rev[i]);
        assert(rev@.reverse().take(rev@.len() - i) == rev@.reverse().take(rev@.len() - i - 1).push(
            rev@[i as int],
        ));
    }
    assert(rev@.reverse().take(rev@.len() as int) == rev@.reverse());
}

/// Decimal rendering of a signed 32-bit integer (`i32::to_string`).
pub fn i32_to_decimal(n: i32) -> (s: String)
    ensures
        s@ == decimal_int(n as int),
{
    let mut s = String::new();
    if n < 0 {
        push_char(&mut s, '-');
        let m: u64 = (-(n as i64)) as u64;
        push_decimal(&mut s, m);
    } else {
        push_decimal(&mut s, n as u64);
    }
    s
}

/// Append `n` left-padded with zeros to at least `w` digits.
pub fn push_padded(s: &mut String, n: u64, w: usize)
    ensures
        final(s)@ == old(s)@ + zero_pad(decimal(n as nat), w as nat),
{
    let mut d = String::new();
    push_decimal(&mut d, n);
    let dv = chars_of(d.as_str());
    assert(dv@ == decimal(n as nat));
    let ghost start = s@;
    if dv.len() < w {
        let k = w - dv.len();
        let mut i: usize = 0;
        while i < k
            invariant
                i <= k,
                s@ == start + Seq::new(i as nat, |j: int| '0'),
            decreases k - i,
        {
            push_char(s, '0');
            assert(Seq::new((i + 1) as nat, |j: int| '0') =~= Seq::new(i as nat, |j: int| '0').push('0'));
            i = i + 1;
        }
    }
    s.append(d.as_str());
    assert(s@ =~= start + zero_pad(decimal(n as nat), w as nat));
}

// ── Replacement ──────────────────────────────────────────────────────────────

/// `str::replace`: replace every non-overlapping occurrence of a non-empty
/// `pat`, scanning left to right.
pub open spec fn replace_all(s: Seq<char>, pat: Seq<char>, rep: Seq<char>) -> Seq<char>
    recommends
        pat.len() > 0,
    decreases s.len(),
{
    if s.len() == 0 || pat.len() == 0 {
        s
    } else if starts_with(s, pat) {
        rep + replace_all(s.skip(pat.len() as int), pat, rep)
    } else {
        seq![s[0]] + replace_all(s.drop_first(), pat, rep)
    }
}

/// Replace every occurrence of `pat` (non-empty) in `v` by `rep`.
pub fn replace_all_exec(v: &[char], pat: &[char], rep: &str) -> (r: String)
    requires
        pat@.len() > 0,
    ensures
        r@ == replace_all(v@, pat@, rep@),
{
    let mut out = String::new();
    let mut i: usize = 0;
    assert(v@.skip(0) == v@);
    while i < v.len()
        invariant
            i <= v@.len(),
            pat@.len() > 0,
            out@ + replace_all(v@.skip(i as int), pat@, rep@) == replace_all(v@, pat@, rep@),
        decreases v.len() - i,
    {
        let ghost rest = v@.skip(i as int);
        if occurs_at_exec(v, pat, i) {
            assert(rest.take(pat@.len() as int) == v@.subrange(i as int, i + pat@.len()));
            assert(rest.skip(pat@.len() as int) == v@.skip(i + pat@.len()));
            out.append(rep);
            assert(out@ + replace_all(v@.skip(i + pat@.len()), pat@, rep@) == replace_all(v@, pat@, rep@));
            i = i + pat.len();
        } else {
            assert(!starts_with(rest, pat@)) by {
                if starts_with(rest, pat@) {
                    assert(rest.take(pat@.len() as int) == v@.subrange(i as int, i + pat@.len()));
                }
            }
            assert(rest.drop_first() == v@.skip(i + 1));
            assert(rest[0] == v@[i as int]);
            push_char(&mut out, v[i]);
            assert(out@ + replace_all(v@.skip(i + 1), pat@, rep@) == replace_all(v@, pat@, rep@));
            i = i + 1;
        }
    }
    assert(v@.skip(i as int).len() == 0);
    assert(out@ + replace_all(v@.skip(i as int), pat@, rep@) == out@);
    out
}

// ── Debug renderings ────────────────────────────────────────────────────────

/// The `Debug` rendering of a string: the text in double quotes, with the
/// escape sequences that `<str as Debug>::fmt` produces.
pub uninterp spec fn debug_str(s: Seq<char>) -> Seq<char>;

/// The `Debug` rendering of a character: the character in single quotes,
/// with the escape sequences that `<char as Debug>::fmt` produces.
pub uninterp spec fn debug_char(c: char) -> Seq<char>;

/// Renders a string with `Debug` (`format!("{:?}", s)`).
#[verifier::external_body]
pub(crate) fn debug_quoted(s: &str) -> (r: String)
    ensures
        r@ == debug_str(s@),
{
    format!("{:?}", s)
}

/// Renders a character with `Debug` (`format!("{:?}", c)`).
#[verifier::external_body]
pub(crate) fn debug_quoted_char(c: char) -> (r: String)
    ensures
        r@ == debug_char(c),
{
    format!("{:?}", c)
}

} // verus!

//! Launcher helpers: URL resolution with `{param}` encoding, text
//! validation, `nimble://` deep links, and the `state.json` context file.

use vstd::prelude::*;
use vstd::string::{StrSliceExecFns, StringExecFns};
use vstd::utf8::{
    decode_utf8, encode_scalar, encode_utf8, has_width_1_encoding, valid_utf8,
};
use crate::scripts::{decode_lossy, lossy_text};
use crate::text::{
    chars_of, concat2, first_index, find_char, has_char_exec, is_ws, lead_ws, lemma_first_index,
    occurs_at, occurs_at_exec, push_char, replace_all, replace_all_exec, starts_with,
    starts_with_exec, trail_ws, trim, trim_string,
};

verus! {

// ── URL resolution ──────────────────────────────────────────────────────────

/// Bytes left as they are by `{param}` encoding: `[A-Za-z0-9-_.~]`.
pub open spec fn is_unreserved(b: u8) -> bool {
    (65 <= b && b <= 90) || (97 <= b && b <= 122) || (48 <= b && b <= 57) || b == 45 || b == 95
        || b == 46 || b == 126
}

/// Upper-case hexadecimal digit of `n < 16`.
pub open spec fn hex_upper(n: u8) -> char {
    if n < 10 {
        (48 + n) as char
    } else {
        (55 + n) as char
    }
}

/// Encoding of one byte: itself, `+` for a space, or `%XX`.
pub open spec fn encode_byte(b: u8) -> Seq<char> {
    if is_unreserved(b) {
        seq![b as char]
    } else if b == 32 {
        seq!['+']
    } else {
        seq!['%', hex_upper(b / 16), hex_upper(b % 16)]
    }
}

/// Encoding of a byte string, byte by byte.
pub open spec fn encode_param(bytes: Seq<u8>) -> Seq<char>
    decreases bytes.len(),
{
    if bytes.len() == 0 {
        Seq::empty()
    } else {
        encode_byte(bytes[0]) + encode_param(bytes.drop_first())
    }
}

/// A character allowed in a URL scheme after the first: `[A-Za-z0-9+.-]`.
pub open spec fn is_scheme_char(c: char) -> bool {
    ('A' <= c && c <= 'Z') || ('a' <= c && c <= 'z') || ('0' <= c && c <= '9') || c == '+' || c
        == '-' || c == '.'
}

/// The text before the first `:` is a non-empty RFC 3986 scheme.
pub open spec fn has_valid_scheme(s: Seq<char>) -> bool {
    let k = first_index(s, ':');
    &&& k < s.len()
    &&& k > 0
    &&& (('A' <= s[0] && s[0] <= 'Z') || ('a' <= s[0] && s[0] <= 'z'))
    &&& forall|i: int| 0 <= i < k ==> is_scheme_char(s[i])
}

/// The URL after substituting the encoded parameter for each `{param}`.
pub open spec fn substituted_url(url: Seq<char>, param: Option<Seq<char>>) -> Seq<char> {
    match param {
        Some(p) => replace_all(url, "{param}"@, encode_param(encode_utf8(p))),
        None => url,
    }
}

/// Outcome of `resolve_url`.
pub open spec fn resolve_url_spec(url: Seq<char>, param: Option<Seq<char>>) -> Result<
    Seq<char>,
    Seq<char>,
> {
    let r = substituted_url(url, param);
    if has_valid_scheme(r) {
        Ok(r)
    } else {
        Err("Rejected URL with missing or invalid scheme: "@ + r)
    }
}

/// Characters the encoding of `{param}` can produce.
pub open spec fn is_encoded_char(c: char) -> bool {
    ('A' <= c && c <= 'Z') || ('a' <= c && c <= 'z') || ('0' <= c && c <= '9') || c == '-' || c
        == '_' || c == '.' || c == '~' || c == '+' || c == '%'
}

/// The typed parameter is URL-encoded: whatever it holds, its encoding is
/// made only of unreserved characters, `+` (for spaces) and `%XX` escapes
/// with upper-case hex digits.
pub proof fn law_param_encoding_is_url_safe(bytes: Seq<u8>)
    ensures
        forall|i: int|
            0 <= i < encode_param(bytes).len() ==> is_encoded_char(#[trigger] encode_param(bytes)[i]),
    decreases bytes.len(),
{
    if bytes.len() > 0 {
        law_param_encoding_is_url_safe(bytes.drop_first());
        let b = bytes[0];
        let head = encode_byte(b);
        assert forall|i: int| 0 <= i < head.len() implies is_encoded_char(#[trigger] head[i]) by {
            if !is_unreserved(b) && b != 32 && i > 0 {
                let n: u8 = if i == 1 { b / 16 } else { b % 16 };
                assert(n < 16);
                assert(head[i] == hex_upper(n));
                assert(((48 + n) as char) as u32 == 48 + n);
                assert(((55 + n) as char) as u32 == 55 + n);
            }
            if is_unreserved(b) {
                assert((b as char) as u32 == b);
            }
        }
        let rest = encode_param(bytes.drop_first());
        assert(encode_param(bytes) == head + rest);
        assert forall|i: int| 0 <= i < encode_param(bytes).len() implies is_encoded_char(#[trigger] encode_param(bytes)[i]) by {
            if i < head.len() {
                assert(encode_param(bytes)[i] == head[i]);
            } else {
                assert(encode_param(bytes)[i] == rest[i - head.len()]);
            }
        }
    }
}

/// The bytes of a text of ASCII characters, one per character.
pub open spec fn ascii_bytes(s: Seq<char>) -> Seq<u8> {
    s.map_values(|c: char| c as u8)
}

/// Reading back an upper-case hex digit gives its value.
proof fn lemma_hex_upper_roundtrip(n: u8)
    requires
        n < 16,
    ensures
        hex_digit(hex_upper(n) as u8) == Some(n),
{
    if n < 10 {
        assert(((48 + n) as char) as u8 == 48 + n);
    } else {
        assert(((55 + n) as char) as u8 == 55 + n);
    }
}

/// Form-decoding one encoded byte followed by more text gives the byte,
/// then the decoding of the rest.
proof fn lemma_decode_encoded_byte(b: u8, rest: Seq<u8>)
    ensures
        pct_bytes(ascii_bytes(encode_byte(b)) + rest) == seq![b] + pct_bytes(rest),
{
    let e = ascii_bytes(encode_byte(b));
    let t = e + rest;
    if is_unreserved(b) {
        assert((b as char) as u8 == b);
        assert(e == seq![b]);
        assert(t[0] == b);
        assert(t.drop_first() == rest);
        assert(!starts_with_escape(t));
    } else if b == 32 {
        assert(('+' as u8) == 43u8);
        assert(e == seq![43u8]);
        assert(t[0] == 43u8);
        assert(t.drop_first() == rest);
        assert(!starts_with_escape(t));
    } else {
        lemma_hex_upper_roundtrip(b / 16);
        lemma_hex_upper_roundtrip(b % 16);
        assert(('%' as u8) == 37u8);
        assert(e == seq![37u8, hex_upper(b / 16) as u8, hex_upper(b % 16) as u8]);
        assert(t[0] == 37u8 && t[1] == hex_upper(b / 16) as u8 && t[2] == hex_upper(b % 16) as u8);
        assert(starts_with_escape(t));
        assert(escape_value(t) == b) by {
            assert((b / 16) * 16 + b % 16 == b);
        }
        assert(t.skip(3) == rest);
    }
}

/// Encoding round-trips: form-decoding (`%XX` to the byte, `+` to a space)
/// the encoding of any parameter's bytes gives those bytes back. In
/// particular a `+` in the parameter is sent as `%2B`, never as a `+` that
/// would read back as a space.
pub proof fn law_param_encoding_roundtrips(bytes: Seq<u8>)
    ensures
        pct_bytes(ascii_bytes(encode_param(bytes))) == bytes,
        encode_byte(43) == seq!['%', '2', 'B'],
        encode_byte(32) == seq!['+'],
    decreases bytes.len(),
{
    if bytes.len() > 0 {
        law_param_encoding_roundtrips(bytes.drop_first());
        let rest = encode_param(bytes.drop_first());
        assert(ascii_bytes(encode_param(bytes)) == ascii_bytes(encode_byte(bytes[0]))
            + ascii_bytes(rest));
        lemma_decode_encoded_byte(bytes[0], ascii_bytes(rest));
        assert(bytes == seq![bytes[0]] + bytes.drop_first());
    } else {
        assert(ascii_bytes(encode_param(bytes)) == Seq::<u8>::empty());
    }
    assert(encode_byte(43) == seq!['%', hex_upper(2), hex_upper(11)]);
    assert(hex_upper(2) == '2');
    assert(hex_upper(11) == 'B');
}

/// Append the upper-case hex digit of `n`.
fn push_hex(s: &mut String, n: u8)
    requires
        n < 16,
    ensures
        final(s)@ == old(s)@.push(hex_upper(n)),
{
    if n < 10 {
        push_char(s, (48 + n) as char);
    } else {
        push_char(s, (55 + n) as char);
    }
}

/// Encode `p` for use in a URL: unreserved bytes unchanged, spaces as `+`,
/// everything else as `%XX` with upper-case hex digits.
pub fn encode_url_param(p: &str) -> (r: String)
    ensures
        r@ == encode_param(encode_utf8(p@)),
{
    let bytes = p.as_bytes();
    let mut out = String::new();
    let mut i: usize = 0;
    assert(bytes@.skip(0) == bytes@);
    while i < bytes.len()
        invariant
            i <= bytes@.len(),
            bytes@ == encode_utf8(p@),
            out@ + encode_param(bytes@.skip(i as int)) == encode_param(bytes@),
        decreases bytes.len() - i,
    {
        let b = bytes[i];
        let ghost rest = bytes@.skip(i as int);
        assert(rest[0] == b);
        assert(rest.drop_first() == bytes@.skip(i + 1));
        let ghost before = out@;
        if (65 <= b && b <= 90) || (97 <= b && b <= 122) || (48 <= b && b <= 57) || b == 45 || b
            == 95 || b == 46 || b == 126 {
            push_char(&mut out, b as char);
        } else if b == 32 {
            push_char(&mut out, '+');
        } else {
            push_char(&mut out, '%');
            push_hex(&mut out, b / 16);
            push_hex(&mut out, b % 16);
        }
        assert(out@ == before + encode_byte(b));
        assert(out@ + encode_param(bytes@.skip(i + 1)) == before + encode_param(rest));
        i = i + 1;
    }
    assert(bytes@.skip(i as int).len() == 0);
    assert(out@ + encode_param(bytes@.skip(i as int)) == out@);
    out
}

/// Whether the text before the first `:` is a valid scheme.
fn valid_scheme_exec(v: &[char]) -> (b: bool)
    ensures
        b == has_valid_scheme(v@),
{
    let k = find_char(v, 0, v.len(), ':');
    assert(v@.subrange(0, v@.len() as int) == v@);
    proof {
        lemma_first_index(v@, ':');
    }
    if k >= v.len() || k == 0 {
        return false;
    }
    let c0 = v[0];
    if !(('A' <= c0 && c0 <= 'Z') || ('a' <= c0 && c0 <= 'z')) {
        return false;
    }
    let mut i: usize = 0;
    while i < k
        invariant
            k < v@.len(),
            k == first_index(v@, ':'),
            i <= k,
            forall|j: int| 0 <= j < i ==> is_scheme_char(v@[j]),
        decreases k - i,
    {
        let c = v[i];
        if !(('A' <= c && c <= 'Z') || ('a' <= c && c <= 'z') || ('0' <= c && c <= '9') || c == '+'
            || c == '-' || c == '.') {
            return false;
        }
        i = i + 1;
    }
    true
}

/// URL-encode `param` and substitute it for every `{param}` token in `url`,
/// then check that the resulting URL has a well-formed scheme (RFC 3986).
/// Returns the resolved URL on success.
pub fn resolve_url(url: String, param: Option<String>) -> (r: Result<String, String>)
    ensures
        match r {
            Ok(s) => resolve_url_spec(url@, option_view(param)) == Ok::<Seq<char>, Seq<char>>(s@),
            Err(e) => resolve_url_spec(url@, option_view(param)) == Err::<Seq<char>, Seq<char>>(e@),
        },
{
    let resolved = match param {
        Some(p) => {
            let enc = encode_url_param(p.as_str());
            let v = chars_of(url.as_str());
            let pat = chars_of("{param}");
            proof {
                reveal_strlit("{param}");
            }
            replace_all_exec(v.as_slice(), pat.as_slice(), enc.as_str())
        },
        None => url,
    };
    let rv = chars_of(resolved.as_str());
    if !valid_scheme_exec(rv.as_slice()) {
        return Err(concat2("Rejected URL with missing or invalid scheme: ", resolved.as_str()));
    }
    Ok(resolved)
}

/// Characters of an optional string.
pub open spec fn option_view(o: Option<String>) -> Option<Seq<char>> {
    match o {
        Some(s) => Some(s@),
        None => None,
    }
}

// ── Text validation ─────────────────────────────────────────────────────────

/// Check that `text` is safe to place on the clipboard or paste: it must
/// not contain NUL characters.
pub fn validate_text(text: &str) -> (r: Result<(), String>)
    ensures
        r is Ok <==> !text@.contains('\0'),
        r matches Err(e) ==> e@ == "Text must not contain NUL bytes"@,
{
    let v = chars_of(text);
    if has_char_exec(v.as_slice(), '\0') {
        return Err(String::from_str("Text must not contain NUL bytes"));
    }
    Ok(())
}


// ── Tray ────────────────────────────────────────────────────────────────────

/// The text of the tray's show/hide item: what clicking it would do.
pub fn tray_label(visible: bool) -> (r: String)
    ensures
        r@ == (if visible {
            "Hide"@
        } else {
            "Show"@
        }),
{
    if visible {
        String::from_str("Hide")
    } else {
        String::from_str("Show")
    }
}

/// What the global shortcut or the tray's show/hide item does.
#[derive(Clone, Copy, Debug, PartialEq, Eq, Structural)]
pub enum Toggle {
    /// Hide the launcher and give focus back to the previous application.
    HideAndRestoreFocus,
    /// Remember the focused application, then show and focus the launcher.
    CaptureFocusAndShow,
}

/// The toggle for the launcher's current visibility.
pub fn toggle_for(visible: bool) -> (t: Toggle)
    ensures
        t == (if visible {
            Toggle::HideAndRestoreFocus
        } else {
            Toggle::CaptureFocusAndShow
        }),
{
    if visible {
        Toggle::HideAndRestoreFocus
    } else {
        Toggle::CaptureFocusAndShow
    }
}

// ── Percent decoding ────────────────────────────────────────────────────────

/// Value of an ASCII hexadecimal digit.
pub open spec fn hex_digit(b: u8) -> Option<u8> {
    if 48 <= b && b <= 57 {
        Some((b - 48) as u8)
    } else if 97 <= b && b <= 102 {
        Some((b - 87) as u8)
    } else if 65 <= b && b <= 70 {
        Some((b - 55) as u8)
    } else {
        None
    }
}

/// `b` starts with a `%` escape: `%` and two hexadecimal digits.
pub open spec fn starts_with_escape(b: Seq<u8>) -> bool {
    b.len() >= 3 && b[0] == 37 && hex_digit(b[1]) is Some && hex_digit(b[2]) is Some
}

/// The byte of the escape `b` starts with.
pub open spec fn escape_value(b: Seq<u8>) -> u8 {
    (hex_digit(b[1])->0 * 16 + hex_digit(b[2])->0) as u8
}

/// Percent-decoding of a byte string, as for form-encoded values: `%`
/// followed by two hexadecimal digits becomes the byte they spell, `+`
/// becomes a space, and every other byte stays as it is (a `%` without two
/// hexadecimal digits after it included).
pub open spec fn pct_bytes(b: Seq<u8>) -> Seq<u8>
    decreases b.len(),
{
    if b.len() == 0 {
        Seq::empty()
    } else if starts_with_escape(b) {
        seq![escape_value(b)] + pct_bytes(b.skip(3))
    } else if b[0] == 43 {
        seq![32u8] + pct_bytes(b.drop_first())
    } else {
        seq![b[0]] + pct_bytes(b.drop_first())
    }
}

/// Percent-decoding of a text: its UTF-8 bytes decoded as [`pct_bytes`]
/// says, read back as UTF-8 with each invalid sequence replaced by U+FFFD.
pub open spec fn percent_decoded(s: Seq<char>) -> Seq<char> {
    let b = pct_bytes(encode_utf8(s));
    if valid_utf8(b) {
        decode_utf8(b)
    } else {
        lossy_text(b)
    }
}

/// The value of a hex digit byte.
fn hex_digit_exec(b: u8) -> (r: Option<u8>)
    ensures
        r == hex_digit(b),
{
    if 48 <= b && b <= 57 {
        Some(b - 48)
    } else if 97 <= b && b <= 102 {
        Some(b - 87)
    } else if 65 <= b && b <= 70 {
        Some(b - 55)
    } else {
        None
    }
}

/// Percent-decode a byte string.
fn pct_decode_bytes(b: &[u8]) -> (out: Vec<u8>)
    ensures
        out@ == pct_bytes(b@),
{
    let n = b.len();
    let mut out: Vec<u8> = Vec::new();
    let mut i: usize = 0;
    assert(b@.skip(0) == b@);
    while i < n
        invariant
            n == b@.len(),
            i <= n,
            out@ + pct_bytes(b@.skip(i as int)) == pct_bytes(b@),
        decreases n - i,
    {
        let ghost rest = b@.skip(i as int);
        let ghost before = out@;
        let c = b[i];
        assert(rest[0] == c);
        let mut done = false;
        if c == 37 && n - i >= 3 {
            assert(rest[1] == b@[i + 1] && rest[2] == b@[i + 2]);
            match (hex_digit_exec(b[i + 1]), hex_digit_exec(b[i + 2])) {
                (Some(h), Some(l)) => {
                    assert(starts_with_escape(rest));
                    assert(rest.skip(3) == b@.skip(i + 3));
                    out.push(h * 16 + l);
                    assert(out@ + pct_bytes(b@.skip(i + 3)) == before + pct_bytes(rest));
                    i = i + 3;
                    done = true;
                },
                _ => {},
            }
        }
        if !done {
            assert(!starts_with_escape(rest));
            assert(rest.drop_first() == b@.skip(i + 1));
            if c == 43 {
                out.push(32);
            } else {
                out.push(c);
            }
            assert(out@ + pct_bytes(b@.skip(i + 1)) == before + pct_bytes(rest));
            i = i + 1;
        }
    }
    assert(b@.skip(i as int).len() == 0);
    assert(out@ + pct_bytes(b@.skip(i as int)) == out@);
    out
}

/// Percent-decoding for deep-link values: `%XX` escapes and `+` as a
/// space; the decoded bytes are read as UTF-8 (`String::from_utf8_lossy`),
/// so `caf%C3%A9` gives `café`.
pub fn percent_decode(input: &str) -> (r: String)
    ensures
        r@ == percent_decoded(input@),
        valid_utf8(pct_bytes(encode_utf8(input@))) ==> r@ == decode_utf8(
            pct_bytes(encode_utf8(input@)),
        ),
{
    let bytes = pct_decode_bytes(input.as_bytes());
    decode_lossy(bytes.as_slice())
}

/// `s` with each `+` replaced by a space.
pub open spec fn plus_to_space(s: Seq<char>) -> Seq<char> {
    s.map_values(|c: char| if c == '+' { ' ' } else { c })
}

/// Bytes of a UTF-8 encoding at or above `0x80` never start an escape or
/// stand for a `+`.
proof fn lemma_high_bytes(x: u8)
    by (bit_vector)
    ensures
        (0x80u8 | x) >= 0x80,
        (0xC0u8 | x) >= 0x80,
        (0xE0u8 | x) >= 0x80,
        (0xF0u8 | x) >= 0x80,
{
}

/// The UTF-8 encoding of a character other than `%` and `+` has no `%` or
/// `+` byte.
proof fn lemma_scalar_plain(c: char)
    requires
        c != '%',
        c != '+',
    ensures
        forall|k: int|
            0 <= k < encode_scalar(c as u32).len() ==> #[trigger] encode_scalar(c as u32)[k] != 37
                && encode_scalar(c as u32)[k] != 43,
{
    let v = c as u32;
    vstd::utf8::char_is_scalar(c);
    if has_width_1_encoding(v) {
        assert((v & 0x7F) == v) by (bit_vector)
            requires
                v <= 0x7F,
        ;
        assert(v != 37 && v != 43);
    } else {
        lemma_high_bytes(((v >> 6) & 0x1F) as u8);
        lemma_high_bytes(((v >> 12) & 0x0F) as u8);
        lemma_high_bytes(((v >> 18) & 0x7) as u8);
        lemma_high_bytes((v & 0x3F) as u8);
        lemma_high_bytes(((v >> 6) & 0x3F) as u8);
        lemma_high_bytes(((v >> 12) & 0x3F) as u8);
    }
}

/// Bytes that hold no `%` and no `+` pass through percent-decoding.
proof fn lemma_pct_bytes_plain(a: Seq<u8>, b: Seq<u8>)
    requires
        forall|k: int| 0 <= k < a.len() ==> #[trigger] a[k] != 37 && a[k] != 43,
    ensures
        pct_bytes(a + b) == a + pct_bytes(b),
    decreases a.len(),
{
    if a.len() > 0 {
        let ab = a + b;
        assert(ab[0] == a[0]);
        assert(ab.drop_first() == a.drop_first() + b);
        lemma_pct_bytes_plain(a.drop_first(), b);
        assert(a == seq![a[0]] + a.drop_first());
        assert(pct_bytes(ab) == seq![a[0]] + pct_bytes(ab.drop_first()));
    } else {
        assert(a + b == b);
    }
}

/// Without `%`, percent-decoding the UTF-8 bytes of a text only turns each
/// `+` into a space.
proof fn lemma_pct_bytes_no_escape(s: Seq<char>)
    requires
        !s.contains('%'),
    ensures
        pct_bytes(encode_utf8(s)) == encode_utf8(plus_to_space(s)),
    decreases s.len(),
{
    if s.len() > 0 {
        let c = s[0];
        let rest = s.drop_first();
        assert(!rest.contains('%')) by {
            if rest.contains('%') {
                let k = choose|k: int| 0 <= k < rest.len() && rest[k] == '%';
                assert(s[k + 1] == '%');
            }
        }
        assert(c != '%') by {
            if c == '%' {
                assert(s[0] == '%');
            }
        }
        lemma_pct_bytes_no_escape(rest);
        let p = plus_to_space(s);
        assert(p.drop_first() == plus_to_space(rest));
        assert(p[0] == if c == '+' { ' ' } else { c });
        let tail = encode_utf8(rest);
        assert(encode_utf8(s) == encode_scalar(c as u32) + tail);
        assert(encode_utf8(p) == encode_scalar(p[0] as u32) + encode_utf8(p.drop_first()));
        if c == '+' {
            assert(encode_scalar(c as u32) == seq![43u8]) by {
                assert(('+' as u32) == 43u32);
                assert((43u32 & 0x7F) == 43) by (bit_vector);
            }
            assert(encode_scalar(' ' as u32) == seq![32u8]) by {
                assert((' ' as u32) == 32u32);
                assert((32u32 & 0x7F) == 32) by (bit_vector);
            }
            let e = seq![43u8] + tail;
            assert(e[0] == 43);
            assert(!starts_with_escape(e));
            assert(e.drop_first() == tail);
        } else {
            lemma_scalar_plain(c);
            lemma_pct_bytes_plain(encode_scalar(c as u32), tail);
        }
    } else {
        assert(plus_to_space(s) == s);
    }
}

/// Percent-decoding a text without `%` only turns each `+` into a space
/// (so `a+b` gives `a b` and `plain` stays `plain`): the decoded bytes are
/// valid UTF-8 and read back as that text.
pub proof fn law_percent_decode_without_escapes(s: Seq<char>)
    requires
        !s.contains('%'),
    ensures
        valid_utf8(pct_bytes(encode_utf8(s))),
        decode_utf8(pct_bytes(encode_utf8(s))) == plus_to_space(s),
{
    lemma_pct_bytes_no_escape(s);
    vstd::utf8::encode_utf8_valid_utf8(plus_to_space(s));
    vstd::utf8::encode_utf8_decode_utf8(plus_to_space(s));
}

// ── Deep links ──────────────────────────────────────────────────────────────

/// Action requested by a `nimble://` URL.
#[derive(Debug, PartialEq)]
pub enum DeepLinkAction {
    /// Set the context to the given value.
    CtxSet(String),
    /// Reset (clear) the active context.
    CtxReset,
}

/// Model of a deep-link action: `Some(value)` to set, `None` to reset.
pub open spec fn action_model(a: DeepLinkAction) -> Option<Seq<char>> {
    match a {
        DeepLinkAction::CtxSet(v) => Some(v@),
        DeepLinkAction::CtxReset => None,
    }
}

/// The path of a `nimble://` or `nimble:///` URL.
pub open spec fn deep_link_path(url: Seq<char>) -> Option<Seq<char>> {
    if starts_with(url, "nimble:///"@) {
        Some(url.skip("nimble:///"@.len() as int))
    } else if starts_with(url, "nimble://"@) {
        Some(url.skip("nimble://"@.len() as int))
    } else {
        None
    }
}

/// What a deep link asks for: `Some(Some(v))` sets the context to `v`,
/// `Some(None)` resets it, `None` is an unrecognised URL.
pub open spec fn deep_link_spec(url: Seq<char>) -> Option<Option<Seq<char>>> {
    match deep_link_path(url) {
        None => None,
        Some(path) => if starts_with(path, "ctx/set/"@) {
            let v = trim(percent_decoded(path.skip("ctx/set/"@.len() as int)));
            if v.len() == 0 {
                None
            } else {
                Some(Some(v))
            }
        } else if path == "ctx/reset"@ || path == "ctx/reset/"@ {
            Some(None)
        } else {
            None
        },
    }
}

/// A link that sets a plain value sets exactly that value: for
/// `nimble://ctx/set/<v>` where `v` is non-empty, has no `%` or `+` to
/// decode and no surrounding whitespace to trim, the action is to set the
/// context to `v`, its characters unchanged.
pub proof fn law_deep_link_sets_plain_value(v: Seq<char>)
    requires
        v.len() > 0,
        !v.contains('%'),
        !v.contains('+'),
        !is_ws(v[0]),
        !is_ws(v.last()),
    ensures
        deep_link_spec("nimble://ctx/set/"@ + v) == Some(Some(v)),
{
    reveal_strlit("nimble://ctx/set/");
    reveal_strlit("nimble:///");
    reveal_strlit("nimble://");
    reveal_strlit("ctx/set/");
    let url = "nimble://ctx/set/"@ + v;
    assert(url[9] == 'c');
    assert(!starts_with(url, "nimble:///"@)) by {
        if starts_with(url, "nimble:///"@) {
            assert(url.take(10)[9] == url[9]);
        }
    }
    assert(url.take(9) == "nimble://"@);
    let path = url.skip(9);
    assert(path == "ctx/set/"@ + v);
    assert(path.take(8) == "ctx/set/"@);
    assert(path.skip(8) == v);
    law_percent_decode_without_escapes(v);
    assert(plus_to_space(v) == v) by {
        assert forall|i: int| 0 <= i < v.len() implies plus_to_space(v)[i] == v[i] by {
            if v[i] == '+' {
                assert(v.contains('+'));
            }
        }
    }
    assert(lead_ws(v) == 0);
    assert(trail_ws(v) == 0);
    assert(trim(v) == v);
}

/// A reset link resets: `nimble://ctx/reset`, with or without a trailing
/// `/` and with two or three slashes after the scheme, clears the context.
pub proof fn law_deep_link_reset()
    ensures
        deep_link_spec("nimble://ctx/reset"@) == Some(None::<Seq<char>>),
        deep_link_spec("nimble://ctx/reset/"@) == Some(None::<Seq<char>>),
        deep_link_spec("nimble:///ctx/reset"@) == Some(None::<Seq<char>>),
{
    reveal_strlit("nimble://ctx/reset");
    reveal_strlit("nimble://ctx/reset/");
    reveal_strlit("nimble:///ctx/reset");
    reveal_strlit("nimble:///");
    reveal_strlit("nimble://");
    reveal_strlit("ctx/set/");
    reveal_strlit("ctx/reset");
    reveal_strlit("ctx/reset/");
    let a = "nimble://ctx/reset"@;
    let b = "nimble://ctx/reset/"@;
    let c = "nimble:///ctx/reset"@;
    assert(!starts_with(a, "nimble:///"@)) by {
        if starts_with(a, "nimble:///"@) {
            assert(a.take(10)[9] == a[9]);
        }
    }
    assert(!starts_with(b, "nimble:///"@)) by {
        if starts_with(b, "nimble:///"@) {
            assert(b.take(10)[9] == b[9]);
        }
    }
    assert(a.take(9) == "nimble://"@);
    assert(b.take(9) == "nimble://"@);
    assert(c.take(10) == "nimble:///"@);
    assert(a.skip(9) == "ctx/reset"@);
    assert(b.skip(9) == "ctx/reset/"@);
    assert(c.skip(10) == "ctx/reset"@);
    assert(!starts_with("ctx/reset"@, "ctx/set/"@)) by {
        if starts_with("ctx/reset"@, "ctx/set/"@) {
            assert("ctx/reset"@.take(8)[4] == "ctx/set/"@[4]);
        }
    }
    assert(!starts_with("ctx/reset/"@, "ctx/set/"@)) by {
        if starts_with("ctx/reset/"@, "ctx/set/"@) {
            assert("ctx/reset/"@.take(8)[4] == "ctx/set/"@[4]);
        }
    }
}

/// Parse a `nimble://` URL. Supported routes: `nimble://ctx/set/<value>`
/// (percent-decoded, trimmed, non-empty) and `nimble://ctx/reset` (with an
/// optional trailing `/`); `nimble:///` is accepted as well.
pub fn parse_deep_link(url: &str) -> (r: Option<DeepLinkAction>)
    ensures
        match r {
            Some(a) => deep_link_spec(url@) == Some(action_model(a)),
            None => deep_link_spec(url@) is None,
        },
{
    let v = chars_of(url);
    let n = v.len();
    let triple = chars_of("nimble:///");
    let double = chars_of("nimble://");
    let off = if starts_with_exec(v.as_slice(), triple.as_slice()) {
        triple.len()
    } else if starts_with_exec(v.as_slice(), double.as_slice()) {
        double.len()
    } else {
        return None;
    };
    let ghost path = v@.skip(off as int);
    assert(deep_link_path(url@) == Some(path));
    let set = chars_of("ctx/set/");
    if occurs_at_exec(v.as_slice(), set.as_slice(), off) {
        assert(path.take(set@.len() as int) == v@.subrange(off as int, off + set@.len()));
        let value = url.substring_char(off + set.len(), n);
        assert(value@ == path.skip("ctx/set/"@.len() as int));
        let decoded = percent_decode(value);
        let trimmed = trim_string(decoded.as_str());
        if trimmed.as_str().is_empty() {
            return None;
        }
        return Some(DeepLinkAction::CtxSet(trimmed));
    }
    assert(!starts_with(path, "ctx/set/"@)) by {
        if starts_with(path, "ctx/set/"@) {
            assert(path.take(set@.len() as int) == v@.subrange(off as int, off + set@.len()));
        }
    }
    let reset = chars_of("ctx/reset");
    let reset_slash = chars_of("ctx/reset/");
    let is_reset = (n - off == reset.len() && occurs_at_exec(v.as_slice(), reset.as_slice(), off))
        || (n - off == reset_slash.len() && occurs_at_exec(v.as_slice(), reset_slash.as_slice(), off));
    proof {
        assert(path.len() == n - off);
        if path == "ctx/reset"@ {
            assert(v@.subrange(off as int, off + reset@.len()) == path);
        }
        if path == "ctx/reset/"@ {
            assert(v@.subrange(off as int, off + reset_slash@.len()) == path);
        }
        if n - off == reset@.len() && occurs_at(v@, reset@, off as int) {
            assert(v@.subrange(off as int, off + reset@.len()) == path);
        }
        if n - off == reset_slash@.len() && occurs_at(v@, reset_slash@, off as int) {
            assert(v@.subrange(off as int, off + reset_slash@.len()) == path);
        }
    }
    if is_reset {
        Some(DeepLinkAction::CtxReset)
    } else {
        None
    }
}


// ── JSON ────────────────────────────────────────────────────────────────────

/// The string member `key` of `text` parsed as a JSON value by
/// `serde_json`; `None` when `text` is not JSON, not an object, lacks `key`,
/// or `key` holds a non-string.
pub uninterp spec fn json_str_member(text: Seq<char>, key: Seq<char>) -> Option<Seq<char>>;

/// Lower-case hexadecimal digit of `n < 16`.
pub open spec fn hex_lower(n: u32) -> char {
    if n < 10 {
        (48 + n) as char
    } else {
        (87 + n) as char
    }
}

/// How `serde_json` writes one character inside a string: `"` and `\`
/// escaped, short escapes for backspace, tab, line feed, form feed and
/// carriage return, `\u00xx` for the other control characters below
/// U+0020, every other character as itself.
pub open spec fn json_escape_char(c: char) -> Seq<char> {
    if c == '"' {
        seq!['\\', '"']
    } else if c == '\\' {
        seq!['\\', '\\']
    } else if c == '\u{8}' {
        seq!['\\', 'b']
    } else if c == '\t' {
        seq!['\\', 't']
    } else if c == '\n' {
        seq!['\\', 'n']
    } else if c == '\u{c}' {
        seq!['\\', 'f']
    } else if c == '\r' {
        seq!['\\', 'r']
    } else if (c as u32) < 32 {
        seq!['\\', 'u', '0', '0', hex_lower((c as u32) / 16), hex_lower((c as u32) % 16)]
    } else {
        seq![c]
    }
}

/// The escaped contents of a JSON string.
pub open spec fn json_escape(s: Seq<char>) -> Seq<char>
    decreases s.len(),
{
    if s.len() == 0 {
        Seq::empty()
    } else {
        json_escape(s.drop_last()) + json_escape_char(s.last())
    }
}

/// The text `serde_json::to_string_pretty` gives for the object with the
/// single string member `key: value`: two-space indentation, the member on
/// its own line.
pub open spec fn json_pretty_object(key: Seq<char>, value: Seq<char>) -> Seq<char> {
    seq!['{', '\n', ' ', ' ', '"'] + json_escape(key) + seq!['"', ':', ' ', '"'] + json_escape(value)
        + seq!['"', '\n', '}']
}

/// The strings of `text` parsed as a JSON array of strings by `serde_json`;
/// `None` when `text` is not such an array.
pub uninterp spec fn json_string_array(text: Seq<char>) -> Option<Seq<Seq<char>>>;

/// Reads a string member: `serde_json::from_str::<Value>`, then
/// `Value::get` and `Value::as_str`. Claims only that the result is the
/// named function of its arguments.
#[verifier::external_body]
pub(crate) fn json_member(text: &str, key: &str) -> (r: Option<String>)
    ensures
        option_view(r) == json_str_member(text@, key@),
{
    let v: serde_json::Value = serde_json::from_str(text).ok()?;
    v.get(key).and_then(|m| m.as_str()).map(String::from)
}

/// Writes `{ key: value }` with `serde_json::to_string_pretty`. The
/// contract states the text the serializer writes (its pretty formatter
/// and string escaping) and that parsing that text back gives `value`
/// under `key`.
#[verifier::external_body]
pub(crate) fn json_object_text(key: &str, value: &str) -> (r: String)
    ensures
        r@ == json_pretty_object(key@, value@),
        json_str_member(r@, key@) == Some(value@),
{
    let mut m = serde_json::Map::new();
    m.insert(key.to_string(), serde_json::Value::String(value.to_string()));
    serde_json::to_string_pretty(&serde_json::Value::Object(m)).unwrap_or_default()
}

/// Parses a JSON array of strings with `serde_json::from_str::<Vec<String>>`.
/// Claims only that the result is the named function of `text`.
#[verifier::external_body]
pub(crate) fn json_strings(text: &str) -> (r: Option<Vec<String>>)
    ensures
        match r {
            Some(v) => json_string_array(text@) == Some(v@.map_values(|s: String| s@)),
            None => json_string_array(text@) is None,
        },
{
    serde_json::from_str::<Vec<String>>(text).ok()
}

// ── The state file ──────────────────────────────────────────────────────────

/// The context a `state.json` text records: its string member `context`,
/// or the empty string.
pub open spec fn context_in_state(content: Seq<char>) -> Seq<char> {
    match json_str_member(content, "context"@) {
        Some(v) => v,
        None => Seq::empty(),
    }
}

/// The active context recorded in `state.json`, given what reading the file
/// gave (`None` when it is absent or unreadable): the string member
/// `context`, or the empty string when the text is not JSON or lacks it.
pub fn read_context_from_state(content: Option<String>) -> (r: String)
    ensures
        r@ == match content {
            Some(c) => context_in_state(c@),
            None => Seq::empty(),
        },
{
    match content {
        None => String::new(),
        Some(c) => match json_member(c.as_str(), "context") {
            Some(v) => v,
            None => String::new(),
        },
    }
}

/// The text written to `state.json` to record `context`. Reading it back
/// (`read_context_from_state`) gives `context` again.
pub fn state_file_content(context: &str) -> (r: String)
    ensures
        r@ == json_pretty_object("context"@, context@),
        context_in_state(r@) == context@,
{
    json_object_text("context", context)
}


// ── Deep-link events ────────────────────────────────────────────────────────

/// The context values a sequence of URLs sets, in order: the value of each
/// `ctx/set` link, the empty string for each `ctx/reset` link; other URLs
/// are ignored.
pub open spec fn contexts_from_urls(urls: Seq<Seq<char>>) -> Seq<Seq<char>>
    decreases urls.len(),
{
    if urls.len() == 0 {
        Seq::empty()
    } else {
        match deep_link_spec(urls[0]) {
            Some(Some(v)) => seq![v] + contexts_from_urls(urls.drop_first()),
            Some(None) => seq![Seq::<char>::empty()] + contexts_from_urls(urls.drop_first()),
            None => contexts_from_urls(urls.drop_first()),
        }
    }
}

/// The context values a deep-link event payload (a JSON array of URL
/// strings) sets, in order; nothing when the payload is not such an array.
pub open spec fn deep_link_contexts_spec(payload: Seq<char>) -> Seq<Seq<char>> {
    match json_string_array(payload) {
        Some(urls) => contexts_from_urls(urls),
        None => Seq::empty(),
    }
}

/// The context values to record, in order, for a deep-link event payload:
/// each recognised `nimble://ctx/set/<value>` gives `value`, each
/// `nimble://ctx/reset` gives the empty string.
pub fn deep_link_contexts(payload: &str) -> (r: Vec<String>)
    ensures
        r@.map_values(|s: String| s@) == deep_link_contexts_spec(payload@),
{
    let mut out: Vec<String> = Vec::new();
    let urls = match json_strings(payload) {
        Some(u) => u,
        None => {
            assert(out@.map_values(|s: String| s@) =~= Seq::<Seq<char>>::empty());
            return out;
        },
    };
    let ghost uv = urls@.map_values(|s: String| s@);
    let mut i: usize = 0;
    assert(uv.skip(0) == uv);
    assert(out@.map_values(|s: String| s@) =~= Seq::<Seq<char>>::empty());
    while i < urls.len()
        invariant
            i <= urls@.len(),
            uv == urls@.map_values(|s: String| s@),
            json_string_array(payload@) == Some(uv),
            out@.map_values(|s: String| s@) + contexts_from_urls(uv.skip(i as int))
                == contexts_from_urls(uv),
        decreases urls.len() - i,
    {
        let ghost before = out@.map_values(|s: String| s@);
        let ghost rest = uv.skip(i as int);
        assert(rest[0] == urls@[i as int]@);
        assert(rest.drop_first() == uv.skip(i + 1));
        match parse_deep_link(urls[i].as_str()) {
            Some(DeepLinkAction::CtxSet(v)) => {
                out.push(v);
            },
            Some(DeepLinkAction::CtxReset) => {
                out.push(String::new());
            },
            None => {},
        }
        assert(out@.map_values(|s: String| s@) + contexts_from_urls(uv.skip(i + 1)) == before
            + contexts_from_urls(rest));
        i = i + 1;
    }
    assert(uv.skip(i as int).len() == 0);
    assert(out@.map_values(|s: String| s@) + contexts_from_urls(uv.skip(i as int))
        == out@.map_values(|s: String| s@));
    out
}

} // verus!

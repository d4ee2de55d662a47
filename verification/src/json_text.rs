//! A single-pass scanner for one JSON object: it walks the top-level
//! key/value pairs, keeps each value as its raw text span, and offers
//! helpers to read a string value (with escape handling) or a base-10
//! integer out of a raw span.  Every executable function is proved equal
//! to the specification function that defines the grammar.

use vstd::prelude::*;
use vstd::string::*;

verus! {

/// Relies on String::push: appends the given character to the end of the string.
#[verifier::external_body]
pub fn push_char(s: &mut String, c: char)
    ensures
        final(s)@ == old(s)@.push(c),
{
    s.push(c);
}

/// The four whitespace characters that JSON allows between tokens.
pub open spec fn is_ws(c: char) -> bool {
    c == ' ' || c == '\t' || c == '\n' || c == '\r'
}

/// First index at or after `i` that does not hold whitespace.
pub open spec fn spec_skip_ws(s: Seq<char>, i: int) -> int
    decreases s.len() - i,
{
    if 0 <= i < s.len() && is_ws(s[i]) {
        spec_skip_ws(s, i + 1)
    } else {
        i
    }
}

pub proof fn lemma_skip_ws_bounds(s: Seq<char>, i: int)
    requires
        0 <= i <= s.len(),
    ensures
        i <= spec_skip_ws(s, i) <= s.len(),
    decreases s.len() - i,
{
    if i < s.len() && is_ws(s[i]) {
        lemma_skip_ws_bounds(s, i + 1);
    }
}

pub fn skip_ws(s: &str, n: usize, i: usize) -> (r: usize)
    requires
        n == s@.len(),
        i <= n,
    ensures
        r == spec_skip_ws(s@, i as int),
        i <= r <= n,
    decreases n - i,
{
    proof {
        lemma_skip_ws_bounds(s@, i as int);
    }
    if i < n {
        let c = s.get_char(i);
        if c == ' ' || c == '\t' || c == '\n' || c == '\r' {
            return skip_ws(s, n, i + 1);
        }
    }
    i
}

/// Position just past the closing quote of a string whose content starts
/// at `i` (the opening quote stands at `i - 1`); `None` when the string
/// never closes.  A backslash makes the following character ordinary.
pub open spec fn spec_scan_str_end(s: Seq<char>, i: int) -> Option<int>
    decreases s.len() - i,
{
    if i < 0 || i >= s.len() {
        None
    } else if s[i] == '"' {
        Some(i + 1)
    } else if s[i] == '\\' {
        if i + 1 < s.len() {
            spec_scan_str_end(s, i + 2)
        } else {
            None
        }
    } else {
        spec_scan_str_end(s, i + 1)
    }
}

pub proof fn lemma_scan_str_bounds(s: Seq<char>, i: int)
    requires
        spec_scan_str_end(s, i) is Some,
    ensures
        i + 1 <= spec_scan_str_end(s, i)->Some_0 <= s.len(),
    decreases s.len() - i,
{
    if 0 <= i < s.len() && s[i] != '"' {
        if s[i] == '\\' {
            lemma_scan_str_bounds(s, i + 2);
        } else {
            lemma_scan_str_bounds(s, i + 1);
        }
    }
}

pub fn scan_str_end(s: &str, n: usize, i: usize) -> (r: Option<usize>)
    requires
        n == s@.len(),
        i <= n,
    ensures
        (match r {
            Some(j) => spec_scan_str_end(s@, i as int) == Some(j as int) && i < j <= n,
            None => spec_scan_str_end(s@, i as int) is None,
        }),
    decreases n - i,
{
    if i >= n {
        return None;
    }
    let c = s.get_char(i);
    if c == '"' {
        Some(i + 1)
    } else if c == '\\' {
        if i + 1 < n {
            scan_str_end(s, n, i + 2)
        } else {
            None
        }
    } else {
        scan_str_end(s, n, i + 1)
    }
}

/// End of one raw JSON value that starts at `i`: the first position at
/// nesting depth zero, outside any string, holding `,` or `}`.  Strings
/// are tracked so that brackets and commas inside them do not count;
/// `in_str` and `esc` carry that state, `depth` the open `{`/`[` count.
pub open spec fn spec_scan_value_end(
    s: Seq<char>,
    i: int,
    depth: nat,
    in_str: bool,
    esc: bool,
) -> Option<int>
    decreases s.len() - i,
{
    if i < 0 || i >= s.len() {
        None
    } else {
        let c = s[i];
        if in_str {
            if esc {
                spec_scan_value_end(s, i + 1, depth, true, false)
            } else if c == '\\' {
                spec_scan_value_end(s, i + 1, depth, true, true)
            } else if c == '"' {
                spec_scan_value_end(s, i + 1, depth, false, false)
            } else {
                spec_scan_value_end(s, i + 1, depth, true, false)
            }
        } else if depth == 0 && (c == ',' || c == '}') {
            Some(i)
        } else if c == '"' {
            spec_scan_value_end(s, i + 1, depth, true, false)
        } else if c == '{' || c == '[' {
            spec_scan_value_end(s, i + 1, depth + 1, false, false)
        } else if c == '}' || c == ']' {
            if depth > 0 {
                spec_scan_value_end(s, i + 1, (depth - 1) as nat, false, false)
            } else {
                None
            }
        } else {
            spec_scan_value_end(s, i + 1, depth, false, false)
        }
    }
}

pub proof fn lemma_scan_value_bounds(s: Seq<char>, i: int, depth: nat, in_str: bool, esc: bool)
    requires
        spec_scan_value_end(s, i, depth, in_str, esc) is Some,
    ensures
        i <= spec_scan_value_end(s, i, depth, in_str, esc)->Some_0 < s.len(),
        s[spec_scan_value_end(s, i, depth, in_str, esc)->Some_0] == ','
            || s[spec_scan_value_end(s, i, depth, in_str, esc)->Some_0] == '}',
    decreases s.len() - i,
{
    let c = s[i];
    if in_str {
        if esc {
            lemma_scan_value_bounds(s, i + 1, depth, true, false);
        } else if c == '\\' {
            lemma_scan_value_bounds(s, i + 1, depth, true, true);
        } else if c == '"' {
            lemma_scan_value_bounds(s, i + 1, depth, false, false);
        } else {
            lemma_scan_value_bounds(s, i + 1, depth, true, false);
        }
    } else if depth == 0 && (c == ',' || c == '}') {
    } else if c == '"' {
        lemma_scan_value_bounds(s, i + 1, depth, true, false);
    } else if c == '{' || c == '[' {
        lemma_scan_value_bounds(s, i + 1, depth + 1, false, false);
    } else if c == '}' || c == ']' {
        lemma_scan_value_bounds(s, i + 1, (depth - 1) as nat, false, false);
    } else {
        lemma_scan_value_bounds(s, i + 1, depth, false, false);
    }
}

pub fn scan_value_end(s: &str, n: usize, i: usize, depth: usize, in_str: bool, esc: bool) -> (r:
    Option<usize>)
    requires
        n == s@.len(),
        i <= n,
        depth <= i,
    ensures
        (match r {
            Some(j) => spec_scan_value_end(s@, i as int, depth as nat, in_str, esc) == Some(
                j as int,
            ) && i <= j < n,
            None => spec_scan_value_end(s@, i as int, depth as nat, in_str, esc) is None,
        }),
    decreases n - i,
{
    if i >= n {
        return None;
    }
    proof {
        if spec_scan_value_end(s@, i as int, depth as nat, in_str, esc) is Some {
            lemma_scan_value_bounds(s@, i as int, depth as nat, in_str, esc);
        }
    }
    let c = s.get_char(i);
    if in_str {
        if esc {
            scan_value_end(s, n, i + 1, depth, true, false)
        } else if c == '\\' {
            scan_value_end(s, n, i + 1, depth, true, true)
        } else if c == '"' {
            scan_value_end(s, n, i + 1, depth, false, false)
        } else {
            scan_value_end(s, n, i + 1, depth, true, false)
        }
    } else if depth == 0 && (c == ',' || c == '}') {
        Some(i)
    } else if c == '"' {
        scan_value_end(s, n, i + 1, depth, true, false)
    } else if c == '{' || c == '[' {
        scan_value_end(s, n, i + 1, depth + 1, false, false)
    } else if c == '}' || c == ']' {
        if depth > 0 {
            scan_value_end(s, n, i + 1, depth - 1, false, false)
        } else {
            None
        }
    } else {
        scan_value_end(s, n, i + 1, depth, false, false)
    }
}

/// Largest end position in `[i, j]` with no trailing whitespace.
pub open spec fn spec_trim_end(s: Seq<char>, i: int, j: int) -> int
    decreases j - i,
{
    if i < j <= s.len() && is_ws(s[j - 1]) {
        spec_trim_end(s, i, j - 1)
    } else {
        j
    }
}

pub proof fn lemma_trim_end_bounds(s: Seq<char>, i: int, j: int)
    requires
        0 <= i <= j <= s.len(),
    ensures
        i <= spec_trim_end(s, i, j) <= j,
    decreases j - i,
{
    if i < j && is_ws(s[j - 1]) {
        lemma_trim_end_bounds(s, i, j - 1);
    }
}

pub fn trim_end(s: &str, n: usize, i: usize, j: usize) -> (r: usize)
    requires
        n == s@.len(),
        i <= j <= n,
    ensures
        r == spec_trim_end(s@, i as int, j as int),
        i <= r <= j,
    decreases j - i,
{
    proof {
        lemma_trim_end_bounds(s@, i as int, j as int);
    }
    if i < j {
        let c = s.get_char(j - 1);
        if c == ' ' || c == '\t' || c == '\n' || c == '\r' {
            return trim_end(s, n, i, j - 1);
        }
    }
    j
}

/// The key/value pairs of one JSON object, walked from position `i`
/// (just past the opening `{` or past a separating `,`).  A key is kept
/// as the raw text between its quotes; a value as its raw span with
/// trailing whitespace removed.  On duplicate keys every occurrence is
/// kept, in document order.  `None` on any malformed input.
pub open spec fn spec_pairs_from(s: Seq<char>, i: int) -> Option<Seq<(Seq<char>, Seq<char>)>>
    decreases s.len() - i,
        when 0 <= i <= s.len()
        via spec_pairs_from_dec
{
    let j = spec_skip_ws(s, i);
    if j >= s.len() {
        None
    } else if s[j] == '}' {
        Some(Seq::empty())
    } else if s[j] != '"' {
        None
    } else {
        match spec_scan_str_end(s, j + 1) {
            None => None,
            Some(k) => {
                let key = s.subrange(j + 1, k - 1);
                let c = spec_skip_ws(s, k);
                if c >= s.len() || s[c] != ':' {
                    None
                } else {
                    let v0 = spec_skip_ws(s, c + 1);
                    match spec_scan_value_end(s, v0, 0, false, false) {
                        None => None,
                        Some(m) => {
                            if m == v0 {
                                None
                            } else {
                                let value = s.subrange(v0, spec_trim_end(s, v0, m));
                                if s[m] == '}' {
                                    Some(seq![(key, value)])
                                } else {
                                    match spec_pairs_from(s, m + 1) {
                                        None => None,
                                        Some(rest) => Some(seq![(key, value)] + rest),
                                    }
                                }
                            }
                        },
                    }
                }
            },
        }
    }
}

#[via_fn]
proof fn spec_pairs_from_dec(s: Seq<char>, i: int) {
    lemma_skip_ws_bounds(s, i);
    let j = spec_skip_ws(s, i);
    if j < s.len() && s[j] == '"' && spec_scan_str_end(s, j + 1) is Some {
        lemma_scan_str_bounds(s, j + 1);
        let k = spec_scan_str_end(s, j + 1)->Some_0;
        lemma_skip_ws_bounds(s, k);
        let c = spec_skip_ws(s, k);
        if c < s.len() && s[c] == ':' {
            lemma_skip_ws_bounds(s, c + 1);
            let v0 = spec_skip_ws(s, c + 1);
            if spec_scan_value_end(s, v0, 0, false, false) is Some {
                lemma_scan_value_bounds(s, v0, 0, false, false);
            }
        }
    }
}

/// The pairs of the object that the whole text holds: leading whitespace,
/// one `{ ... }` object, anything after the closing brace ignored.
pub open spec fn spec_object_pairs(s: Seq<char>) -> Option<Seq<(Seq<char>, Seq<char>)>> {
    let t = spec_skip_ws(s, 0);
    if t < s.len() && s[t] == '{' {
        spec_pairs_from(s, t + 1)
    } else {
        None
    }
}

fn parse_pairs_from(s: &str, n: usize, i: usize, out: &mut Vec<(String, String)>) -> (r: bool)
    requires
        n == s@.len(),
        i <= n,
    ensures
        (match spec_pairs_from(s@, i as int) {
            Some(ps) => r && final(out).deep_view() == old(out).deep_view() + ps,
            None => !r,
        }),
    decreases n - i,
{
    let j = skip_ws(s, n, i);
    if j >= n {
        return false;
    }
    let cj = s.get_char(j);
    if cj == '}' {
        assert(final(out).deep_view() =~= old(out).deep_view() + Seq::<(Seq<char>, Seq<char>)>::empty());
        return true;
    }
    if cj != '"' {
        return false;
    }
    let k = match scan_str_end(s, n, j + 1) {
        None => {
            return false;
        },
        Some(k) => k,
    };
    let key = String::from_str(s.substring_char(j + 1, k - 1));
    let c = skip_ws(s, n, k);
    if c >= n || s.get_char(c) != ':' {
        return false;
    }
    let v0 = skip_ws(s, n, c + 1);
    let m = match scan_value_end(s, n, v0, 0, false, false) {
        None => {
            return false;
        },
        Some(m) => m,
    };
    if m == v0 {
        return false;
    }
    let ve = trim_end(s, n, v0, m);
    let value = String::from_str(s.substring_char(v0, ve));
    let ghost pair = (key@, value@);
    out.push((key, value));
    if s.get_char(m) == '}' {
        assert(final(out).deep_view() =~= old(out).deep_view() + seq![pair]);
        return true;
    }
    let ghost mid = out.deep_view();
    assert(mid =~= old(out).deep_view() + seq![pair]);
    let r = parse_pairs_from(s, n, m + 1, out);
    proof {
        if spec_pairs_from(s@, m + 1) is Some {
            let rest = spec_pairs_from(s@, m + 1)->Some_0;
            assert(final(out).deep_view() =~= old(out).deep_view() + (seq![pair] + rest));
        }
    }
    r
}

/// Walks the top-level key/value pairs of the JSON object in `s`, as
/// [`spec_object_pairs`] defines them.
pub fn object_pairs(s: &str) -> (r: Option<Vec<(String, String)>>)
    ensures
        (match spec_object_pairs(s@) {
            Some(ps) => r matches Some(v) && v.deep_view() == ps,
            None => r is None,
        }),
{
    let n = s.unicode_len();
    let t = skip_ws(s, n, 0);
    if t < n && s.get_char(t) == '{' {
        let mut out: Vec<(String, String)> = Vec::new();
        if parse_pairs_from(s, n, t + 1, &mut out) {
            assert(out.deep_view() =~= Seq::<(Seq<char>, Seq<char>)>::empty() + spec_pairs_from(
                s@,
                t + 1,
            )->Some_0);
            Some(out)
        } else {
            None
        }
    } else {
        None
    }
}

/// Character-for-character string equality.
pub fn str_eq(a: &str, b: &str) -> (r: bool)
    ensures
        r == (a@ == b@),
{
    let na = a.unicode_len();
    let nb = b.unicode_len();
    if na != nb {
        return false;
    }
    let mut i: usize = 0;
    while i < na
        invariant
            na == a@.len(),
            na == b@.len(),
            i <= na,
            forall|k: int| 0 <= k < i ==> a@[k] == b@[k],
        decreases na - i,
    {
        if a.get_char(i) != b.get_char(i) {
            return false;
        }
        i = i + 1;
    }
    assert(a@ =~= b@);
    true
}

pub open spec fn is_hex_digit(c: char) -> bool {
    48 <= c as u32 <= 57 || 97 <= c as u32 <= 102 || 65 <= c as u32 <= 70
}

pub open spec fn hex_val(c: char) -> int {
    if 48 <= c as u32 <= 57 {
        c as u32 - 48
    } else if 97 <= c as u32 <= 102 {
        c as u32 - 87
    } else {
        c as u32 - 55
    }
}

/// Reads one hex digit, as [`hex_val`] defines.
fn hex_digit_val(c: char) -> (r: Option<u32>)
    ensures
        (match r {
            Some(v) => is_hex_digit(c) && v == hex_val(c) && v <= 15,
            None => !is_hex_digit(c),
        }),
{
    let u = c as u32;
    if 48 <= u && u <= 57 {
        Some(u - 48)
    } else if 97 <= u && u <= 102 {
        Some(u - 87)
    } else if 65 <= u && u <= 70 {
        Some(u - 55)
    } else {
        None
    }
}

/// Relies on char::from_u32: a valid Unicode scalar value becomes the
/// character with that code.
#[verifier::external_body]
fn char_from_u32(u: u32) -> (r: char)
    requires
        vstd::utf8::is_scalar(u),
    ensures
        r as u32 == u,
{
    char::from_u32(u).unwrap()
}

/// What an escape character stands for.  The eight single-character
/// escapes of JSON are taken here; the `\uXXXX` form is handled by
/// [`spec_unescape`] itself.
pub open spec fn spec_escape_char(c: char) -> Option<char> {
    if c == '"' {
        Some('"')
    } else if c == '\\' {
        Some('\\')
    } else if c == '/' {
        Some('/')
    } else if c == 'n' {
        Some('\n')
    } else if c == 't' {
        Some('\t')
    } else if c == 'r' {
        Some('\r')
    } else if c == 'b' {
        Some('\u{8}')
    } else if c == 'f' {
        Some('\u{c}')
    } else {
        None
    }
}

/// The characters a string body stands for once escapes are resolved:
/// the eight single-character escapes and the `\uXXXX` form for any
/// Unicode scalar outside the surrogate range (surrogate pairs are not
/// combined; either half makes the string invalid).
pub open spec fn spec_unescape(raw: Seq<char>) -> Option<Seq<char>>
    decreases raw.len(),
{
    if raw.len() == 0 {
        Some(Seq::empty())
    } else if raw[0] == '\\' {
        if raw.len() < 2 {
            None
        } else if raw[1] == 'u' {
            if raw.len() >= 6 && is_hex_digit(raw[2]) && is_hex_digit(raw[3]) && is_hex_digit(
                raw[4],
            ) && is_hex_digit(raw[5]) {
                let code = hex_val(raw[2]) * 4096 + hex_val(raw[3]) * 256 + hex_val(raw[4]) * 16
                    + hex_val(raw[5]);
                if 0xD800 <= code <= 0xDFFF {
                    None
                } else {
                    match spec_unescape(raw.skip(6)) {
                        Some(rest) => Some(seq![((code as u32) as char)] + rest),
                        None => None,
                    }
                }
            } else {
                None
            }
        } else {
            match (spec_escape_char(raw[1]), spec_unescape(raw.skip(2))) {
                (Some(c), Some(rest)) => Some(seq![c] + rest),
                _ => None,
            }
        }
    } else {
        match spec_unescape(raw.skip(1)) {
            Some(rest) => Some(seq![raw[0]] + rest),
            None => None,
        }
    }
}

/// Resolves the escapes of a string body, as [`spec_unescape`] defines.
pub fn unescape(raw: &str) -> (r: Option<String>)
    ensures
        (match spec_unescape(raw@) {
            Some(t) => r matches Some(u) && u@ == t,
            None => r is None,
        }),
{
    let n = raw.unicode_len();
    let mut out = String::new();
    let mut i: usize = 0;
    assert(raw@.skip(0) =~= raw@);
    while i < n
        invariant
            n == raw@.len(),
            i <= n,
            (spec_unescape(raw@) is Some) <==> (spec_unescape(raw@.skip(i as int)) is Some),
            spec_unescape(raw@) is Some ==> spec_unescape(raw@) == Some(
                out@ + spec_unescape(raw@.skip(i as int))->Some_0,
            ),
        decreases n - i,
    {
        let ghost suf = raw@.skip(i as int);
        let c = raw.get_char(i);
        assert(suf[0] == raw@[i as int]);
        if c == '\\' {
            if i + 1 >= n {
                assert(spec_unescape(suf) is None);
                return None;
            }
            let e = raw.get_char(i + 1);
            assert(suf[1] == raw@[i + 1]);
            assert(suf.skip(2) =~= raw@.skip(i + 2));
            if e == 'u' {
                if n - i < 6 {
                    assert(suf.len() < 6);
                    assert(spec_unescape(suf) is None);
                    return None;
                }
                assert(suf[2] == raw@[i + 2]);
                assert(suf[3] == raw@[i + 3]);
                assert(suf[4] == raw@[i + 4]);
                assert(suf[5] == raw@[i + 5]);
                let v2 = match hex_digit_val(raw.get_char(i + 2)) {
                    Some(v) => v,
                    None => {
                        return None;
                    },
                };
                let v3 = match hex_digit_val(raw.get_char(i + 3)) {
                    Some(v) => v,
                    None => {
                        return None;
                    },
                };
                let v4 = match hex_digit_val(raw.get_char(i + 4)) {
                    Some(v) => v,
                    None => {
                        return None;
                    },
                };
                let v5 = match hex_digit_val(raw.get_char(i + 5)) {
                    Some(v) => v,
                    None => {
                        return None;
                    },
                };
                let code: u32 = v2 * 4096 + v3 * 256 + v4 * 16 + v5;
                if 0xD800 <= code && code <= 0xDFFF {
                    return None;
                }
                assert(vstd::utf8::is_scalar(code));
                let u = char_from_u32(code);
                proof {
                    vstd::utf8::char_u32_cast(u, code);
                }
                assert(suf.skip(6) =~= raw@.skip(i + 6));
                push_char(&mut out, u);
                proof {
                    if spec_unescape(raw@.skip(i + 6)) is Some {
                        assert(out@ + spec_unescape(raw@.skip(i + 6))->Some_0
                            =~= (out@.drop_last()) + (seq![u] + spec_unescape(
                            raw@.skip(i + 6),
                        )->Some_0));
                    }
                }
                i = i + 6;
                continue;
            }
            let u = if e == '"' {
                '"'
            } else if e == '\\' {
                '\\'
            } else if e == '/' {
                '/'
            } else if e == 'n' {
                '\n'
            } else if e == 't' {
                '\t'
            } else if e == 'r' {
                '\r'
            } else if e == 'b' {
                '\u{8}'
            } else if e == 'f' {
                '\u{c}'
            } else {
                assert(spec_unescape(suf) is None);
                return None;
            };
            push_char(&mut out, u);
            proof {
                if spec_unescape(raw@.skip(i + 2)) is Some {
                    assert(out@ + spec_unescape(raw@.skip(i + 2))->Some_0 =~= (out@.drop_last())
                        + (seq![u] + spec_unescape(raw@.skip(i + 2))->Some_0));
                }
            }
            i = i + 2;
        } else {
            assert(suf.skip(1) =~= raw@.skip(i + 1));
            push_char(&mut out, c);
            proof {
                if spec_unescape(raw@.skip(i + 1)) is Some {
                    assert(out@ + spec_unescape(raw@.skip(i + 1))->Some_0 =~= (out@.drop_last())
                        + (seq![c] + spec_unescape(raw@.skip(i + 1))->Some_0));
                }
            }
            i = i + 1;
        }
    }
    assert(raw@.skip(n as int) =~= Seq::<char>::empty());
    assert(spec_unescape(raw@) is Some ==> spec_unescape(raw@) == Some(out@ + Seq::<char>::empty()));
    assert(out@ + Seq::<char>::empty() =~= out@);
    Some(out)
}

/// The text a raw span stands for when it is a JSON string token:
/// quote, body, quote, nothing after, escapes resolved.
pub open spec fn spec_string_content(v: Seq<char>) -> Option<Seq<char>> {
    if v.len() >= 2 && v[0] == '"' && spec_scan_str_end(v, 1) == Some(v.len() as int) {
        spec_unescape(v.subrange(1, v.len() - 1))
    } else {
        None
    }
}

/// Reads a raw span as a JSON string, as [`spec_string_content`] defines.
pub fn string_content(v: &str) -> (r: Option<String>)
    ensures
        (match spec_string_content(v@) {
            Some(t) => r matches Some(u) && u@ == t,
            None => r is None,
        }),
{
    let n = v.unicode_len();
    if n >= 2 && v.get_char(0) == '"' {
        match scan_str_end(v, n, 1) {
            Some(j) => {
                if j == n {
                    unescape(v.substring_char(1, n - 1))
                } else {
                    None
                }
            },
            None => None,
        }
    } else {
        None
    }
}

/// A character that may continue a number token: digits, signs, the
/// decimal point and the exponent markers, taken as one run.
pub open spec fn is_number_char(c: char) -> bool {
    is_digit(c) || c == '-' || c == '+' || c == '.' || c == 'e' || c == 'E'
}

/// End of a run of number characters starting at `i`.
pub open spec fn spec_number_end(s: Seq<char>, i: int) -> int
    decreases s.len() - i,
{
    if 0 <= i < s.len() && is_number_char(s[i]) {
        spec_number_end(s, i + 1)
    } else {
        i
    }
}

pub proof fn lemma_number_end_bounds(s: Seq<char>, i: int)
    requires
        0 <= i <= s.len(),
    ensures
        i <= spec_number_end(s, i) <= s.len(),
    decreases s.len() - i,
{
    if i < s.len() && is_number_char(s[i]) {
        lemma_number_end_bounds(s, i + 1);
    }
}

fn number_end(s: &str, n: usize, i: usize) -> (r: usize)
    requires
        n == s@.len(),
        i <= n,
    ensures
        r == spec_number_end(s@, i as int),
        i <= r <= n,
    decreases n - i,
{
    proof {
        lemma_number_end_bounds(s@, i as int);
    }
    if i < n {
        let c = s.get_char(i);
        let u = c as u32;
        if (48 <= u && u <= 57) || c == '-' || c == '+' || c == '.' || c == 'e' || c == 'E' {
            return number_end(s, n, i + 1);
        }
    }
    i
}

/// End of one complete JSON value starting at `i` (no leading
/// whitespace): a string whose escapes resolve, an object, an array, a
/// number run, or `true`/`false`/`null`; `None` when nothing valid
/// starts there.
pub open spec fn spec_json_value_end(s: Seq<char>, i: int) -> Option<int>
    decreases s.len() - i, 0int,
        when 0 <= i <= s.len()
        via spec_json_value_end_dec
{
    if i >= s.len() {
        None
    } else {
        let c = s[i];
        if c == '"' {
            match spec_scan_str_end(s, i + 1) {
                Some(j) => if spec_unescape(s.subrange(i + 1, j - 1)) is Some {
                    Some(j)
                } else {
                    None
                },
                None => None,
            }
        } else if c == '{' {
            spec_json_object_rest(s, spec_skip_ws(s, i + 1), true)
        } else if c == '[' {
            spec_json_array_rest(s, spec_skip_ws(s, i + 1), true)
        } else if c == '-' || is_digit(c) {
            Some(spec_number_end(s, i + 1))
        } else if c == 't' {
            if i + 4 <= s.len() && s.subrange(i, i + 4) == "true"@ {
                Some(i + 4)
            } else {
                None
            }
        } else if c == 'f' {
            if i + 5 <= s.len() && s.subrange(i, i + 5) == "false"@ {
                Some(i + 5)
            } else {
                None
            }
        } else if c == 'n' {
            if i + 4 <= s.len() && s.subrange(i, i + 4) == "null"@ {
                Some(i + 4)
            } else {
                None
            }
        } else {
            None
        }
    }
}

/// Validates an object from position `i` (past the `{`, or past a
/// separating comma, whitespace already skipped): `}` closes an empty
/// object only at the start, members are string keys with valid values.
pub open spec fn spec_json_object_rest(s: Seq<char>, i: int, first: bool) -> Option<int>
    decreases s.len() - i, 1int,
        when 0 <= i <= s.len()
        via spec_json_object_rest_dec
{
    if i >= s.len() {
        None
    } else if first && s[i] == '}' {
        Some(i + 1)
    } else if s[i] != '"' {
        None
    } else {
        match spec_scan_str_end(s, i + 1) {
            None => None,
            Some(k) => {
                if spec_unescape(s.subrange(i + 1, k - 1)) is None {
                    None
                } else {
                    let c = spec_skip_ws(s, k);
                    if c >= s.len() || s[c] != ':' {
                        None
                    } else {
                        match spec_json_value_end(s, spec_skip_ws(s, c + 1)) {
                            None => None,
                            Some(m) => {
                                if !(c + 1 < m <= s.len()) {
                                    None
                                } else {
                                    let t = spec_skip_ws(s, m);
                                    if t < s.len() && s[t] == '}' {
                                        Some(t + 1)
                                    } else if t < s.len() && s[t] == ',' {
                                        spec_json_object_rest(s, spec_skip_ws(s, t + 1), false)
                                    } else {
                                        None
                                    }
                                }
                            },
                        }
                    }
                }
            },
        }
    }
}

/// Validates an array from position `i` (past the `[`, or past a
/// separating comma, whitespace already skipped).
pub open spec fn spec_json_array_rest(s: Seq<char>, i: int, first: bool) -> Option<int>
    decreases s.len() - i, 2int,
        when 0 <= i <= s.len()
        via spec_json_array_rest_dec
{
    if i >= s.len() {
        None
    } else if first && s[i] == ']' {
        Some(i + 1)
    } else {
        match spec_json_value_end(s, i) {
            None => None,
            Some(m) => {
                if !(i < m <= s.len()) {
                    None
                } else {
                    let t = spec_skip_ws(s, m);
                    if t < s.len() && s[t] == ']' {
                        Some(t + 1)
                    } else if t < s.len() && s[t] == ',' {
                        spec_json_array_rest(s, spec_skip_ws(s, t + 1), false)
                    } else {
                        None
                    }
                }
            },
        }
    }
}

#[via_fn]
proof fn spec_json_value_end_dec(s: Seq<char>, i: int) {
    assert forall|j: int| 0 <= j <= s.len() implies j <= #[trigger] spec_skip_ws(s, j)
        <= s.len() by {
        lemma_skip_ws_bounds(s, j);
    }
}

#[via_fn]
proof fn spec_json_object_rest_dec(s: Seq<char>, i: int, first: bool) {
    assert forall|j: int| 0 <= j <= s.len() implies j <= #[trigger] spec_skip_ws(s, j)
        <= s.len() by {
        lemma_skip_ws_bounds(s, j);
    }
    if 0 <= i < s.len() && s[i] == '"' && spec_scan_str_end(s, i + 1) is Some {
        lemma_scan_str_bounds(s, i + 1);
    }
}

#[via_fn]
proof fn spec_json_array_rest_dec(s: Seq<char>, i: int, first: bool) {
    assert forall|j: int| 0 <= j <= s.len() implies j <= #[trigger] spec_skip_ws(s, j)
        <= s.len() by {
        lemma_skip_ws_bounds(s, j);
    }
}

/// One whole text as one JSON value: whitespace, the value, whitespace.
pub open spec fn spec_is_json_text(s: Seq<char>) -> bool {
    let t = spec_skip_ws(s, 0);
    match spec_json_value_end(s, t) {
        Some(m) => 0 <= m <= s.len() && spec_skip_ws(s, m) == s.len(),
        None => false,
    }
}

fn json_value_end(s: &str, n: usize, i: usize) -> (r: Option<usize>)
    requires
        n == s@.len(),
        i <= n,
    ensures
        (match r {
            Some(j) => spec_json_value_end(s@, i as int) == Some(j as int) && i < j <= n,
            None => spec_json_value_end(s@, i as int) is None,
        }),
    decreases n - i, 0int,
{
    if i >= n {
        return None;
    }
    let c = s.get_char(i);
    let u = c as u32;
    if c == '"' {
        match scan_str_end(s, n, i + 1) {
            Some(j) => {
                match unescape(s.substring_char(i + 1, j - 1)) {
                    Some(_) => Some(j),
                    None => None,
                }
            },
            None => None,
        }
    } else if c == '{' {
        let j = skip_ws(s, n, i + 1);
        json_object_rest(s, n, j, true)
    } else if c == '[' {
        let j = skip_ws(s, n, i + 1);
        json_array_rest(s, n, j, true)
    } else if c == '-' || (48 <= u && u <= 57) {
        Some(number_end(s, n, i + 1))
    } else if c == 't' {
        if n - i >= 4 && str_eq(s.substring_char(i, i + 4), "true") {
            Some(i + 4)
        } else {
            proof {
                if i + 4 <= n {
                    assert(s@.subrange(i as int, i + 4) != "true"@);
                }
            }
            None
        }
    } else if c == 'f' {
        if n - i >= 5 && str_eq(s.substring_char(i, i + 5), "false") {
            Some(i + 5)
        } else {
            proof {
                if i + 5 <= n {
                    assert(s@.subrange(i as int, i + 5) != "false"@);
                }
            }
            None
        }
    } else if c == 'n' {
        if n - i >= 4 && str_eq(s.substring_char(i, i + 4), "null") {
            Some(i + 4)
        } else {
            proof {
                if i + 4 <= n {
                    assert(s@.subrange(i as int, i + 4) != "null"@);
                }
            }
            None
        }
    } else {
        None
    }
}

fn json_object_rest(s: &str, n: usize, i: usize, first: bool) -> (r: Option<usize>)
    requires
        n == s@.len(),
        i <= n,
    ensures
        (match r {
            Some(j) => spec_json_object_rest(s@, i as int, first) == Some(j as int) && i < j <= n,
            None => spec_json_object_rest(s@, i as int, first) is None,
        }),
    decreases n - i, 1int,
{
    if i >= n {
        return None;
    }
    let ci = s.get_char(i);
    if first && ci == '}' {
        return Some(i + 1);
    }
    if ci != '"' {
        return None;
    }
    let k = match scan_str_end(s, n, i + 1) {
        Some(k) => k,
        None => {
            return None;
        },
    };
    if unescape(s.substring_char(i + 1, k - 1)).is_none() {
        return None;
    }
    let c = skip_ws(s, n, k);
    if c >= n || s.get_char(c) != ':' {
        return None;
    }
    let v0 = skip_ws(s, n, c + 1);
    let m = match json_value_end(s, n, v0) {
        Some(m) => m,
        None => {
            return None;
        },
    };
    let t = skip_ws(s, n, m);
    if t < n && s.get_char(t) == '}' {
        Some(t + 1)
    } else if t < n && s.get_char(t) == ',' {
        let j = skip_ws(s, n, t + 1);
        json_object_rest(s, n, j, false)
    } else {
        None
    }
}

fn json_array_rest(s: &str, n: usize, i: usize, first: bool) -> (r: Option<usize>)
    requires
        n == s@.len(),
        i <= n,
    ensures
        (match r {
            Some(j) => spec_json_array_rest(s@, i as int, first) == Some(j as int) && i < j <= n,
            None => spec_json_array_rest(s@, i as int, first) is None,
        }),
    decreases n - i, 2int,
{
    if i >= n {
        return None;
    }
    if first && s.get_char(i) == ']' {
        return Some(i + 1);
    }
    let m = match json_value_end(s, n, i) {
        Some(m) => m,
        None => {
            return None;
        },
    };
    let t = skip_ws(s, n, m);
    if t < n && s.get_char(t) == ']' {
        Some(t + 1)
    } else if t < n && s.get_char(t) == ',' {
        let j = skip_ws(s, n, t + 1);
        json_array_rest(s, n, j, false)
    } else {
        None
    }
}

/// Whether the whole text is one valid JSON value, as
/// [`spec_is_json_text`] defines.
pub fn is_json_text(s: &str) -> (r: bool)
    ensures
        r == spec_is_json_text(s@),
{
    let n = s.unicode_len();
    let t = skip_ws(s, n, 0);
    match json_value_end(s, n, t) {
        Some(m) => skip_ws(s, n, m) == n,
        None => false,
    }
}

pub open spec fn is_digit(c: char) -> bool {
    48 <= c as u32 <= 57
}

pub open spec fn digit_val(c: char) -> int {
    c as u32 - 48
}

pub open spec fn all_digits(t: Seq<char>) -> bool {
    forall|k: int| 0 <= k < t.len() ==> is_digit(#[trigger] t[k])
}

/// The number a digit string stands for, most significant digit first.
pub open spec fn digits_val(t: Seq<char>) -> int
    decreases t.len(),
{
    if t.len() == 0 {
        0
    } else {
        digits_val(t.drop_last()) * 10 + digit_val(t.last())
    }
}

pub proof fn lemma_digits_val_nonneg(t: Seq<char>)
    requires
        all_digits(t),
    ensures
        digits_val(t) >= 0,
    decreases t.len(),
{
    if t.len() > 0 {
        lemma_digits_val_nonneg(t.drop_last());
    }
}

/// Appending digits never shrinks the number.
pub proof fn lemma_digits_val_mono(t: Seq<char>, i: int)
    requires
        all_digits(t),
        0 <= i <= t.len(),
    ensures
        digits_val(t) >= digits_val(t.take(i)),
    decreases t.len() - i,
{
    if i < t.len() {
        assert(t.take(i + 1).drop_last() =~= t.take(i));
        assert(all_digits(t.take(i)));
        lemma_digits_val_nonneg(t.take(i));
        assert(digits_val(t.take(i + 1)) == digits_val(t.take(i)) * 10 + digit_val(t[i]));
        lemma_digits_val_mono(t, i + 1);
    } else {
        assert(t.take(i) =~= t);
    }
}

/// Whether some pair carries this key.
pub open spec fn spec_has_key(ps: Seq<(Seq<char>, Seq<char>)>, key: Seq<char>) -> bool
    decreases ps.len(),
{
    if ps.len() == 0 {
        false
    } else {
        ps[0].0 == key || spec_has_key(ps.skip(1), key)
    }
}

/// The pairs with each key kept once: when a key occurs several times,
/// only its last occurrence stays, at that occurrence's position.
pub open spec fn spec_last_wins(ps: Seq<(Seq<char>, Seq<char>)>) -> Seq<(Seq<char>, Seq<char>)>
    decreases ps.len(),
{
    if ps.len() == 0 {
        Seq::empty()
    } else if spec_has_key(ps.skip(1), ps[0].0) {
        spec_last_wins(ps.skip(1))
    } else {
        seq![ps[0]] + spec_last_wins(ps.skip(1))
    }
}

fn has_key_from(v: &Vec<(String, String)>, start: usize, key: &str) -> (r: bool)
    requires
        start <= v.len(),
    ensures
        r == spec_has_key(v.deep_view().skip(start as int), key@),
{
    let ghost ps = v.deep_view();
    let mut j = start;
    assert(ps.len() == v@.len());
    while j < v.len()
        invariant
            start <= j <= v.len(),
            ps == v.deep_view(),
            ps.len() == v@.len(),
            spec_has_key(ps.skip(start as int), key@) == spec_has_key(ps.skip(j as int), key@),
        decreases v.len() - j,
    {
        assert(ps.skip(j as int)[0] == ps[j as int]);
        assert(ps[j as int] == (v[j as int].0@, v[j as int].1@));
        assert(ps.skip(j as int).skip(1) =~= ps.skip(j + 1));
        if str_eq(v[j].0.as_str(), key) {
            return true;
        }
        j = j + 1;
    }
    assert(ps.skip(v.len() as int).len() == 0);
    false
}

/// Keeps the last occurrence of each key, as [`spec_last_wins`]
/// defines.
pub fn dedup_last_wins(v: &Vec<(String, String)>) -> (r: Vec<(String, String)>)
    ensures
        r.deep_view() == spec_last_wins(v.deep_view()),
{
    let ghost ps = v.deep_view();
    let mut out: Vec<(String, String)> = Vec::new();
    let mut i: usize = 0;
    assert(ps.skip(0) =~= ps);
    while i < v.len()
        invariant
            i <= v.len(),
            ps == v.deep_view(),
            spec_last_wins(ps) == out.deep_view() + spec_last_wins(ps.skip(i as int)),
        decreases v.len() - i,
    {
        let ghost suf = ps.skip(i as int);
        assert(suf[0] == ps[i as int]);
        assert(ps[i as int] == (v[i as int].0@, v[i as int].1@));
        assert(suf.skip(1) =~= ps.skip(i + 1));
        if !has_key_from(v, i + 1, v[i].0.as_str()) {
            let pair = (v[i].0.clone(), v[i].1.clone());
            let ghost pv = (pair.0@, pair.1@);
            out.push(pair);
            proof {
                assert(out.deep_view() + spec_last_wins(ps.skip(i + 1)) =~= (
                out.deep_view().drop_last()) + (seq![pv] + spec_last_wins(ps.skip(i + 1))));
            }
        }
        i = i + 1;
    }
    assert(ps.skip(v.len() as int) =~= Seq::<(Seq<char>, Seq<char>)>::empty());
    assert(out.deep_view() + Seq::<(Seq<char>, Seq<char>)>::empty() =~= out.deep_view());
    out
}

/// The base-10 integer a raw span stands for: an optional minus sign,
/// then digits only, the value within `i64`.
pub open spec fn spec_parse_i64(t: Seq<char>) -> Option<i64> {
    let neg = t.len() > 0 && t[0] == '-';
    let d = if neg {
        t.skip(1)
    } else {
        t
    };
    if d.len() >= 1 && all_digits(d) {
        let v = if neg {
            -digits_val(d)
        } else {
            digits_val(d)
        };
        if -0x8000_0000_0000_0000 <= v <= 0x7fff_ffff_ffff_ffff {
            Some(v as i64)
        } else {
            None
        }
    } else {
        None
    }
}

/// Reads a raw span as a base-10 `i64`, as [`spec_parse_i64`] defines.
pub fn parse_i64(t: &str) -> (r: Option<i64>)
    ensures
        r == spec_parse_i64(t@),
{
    let n = t.unicode_len();
    if n == 0 {
        return None;
    }
    let neg = t.get_char(0) == '-';
    let start: usize = if neg {
        1
    } else {
        0
    };
    let ghost d = if neg {
        t@.skip(1)
    } else {
        t@
    };
    assert(d.len() == n - start);
    if n == start {
        return None;
    }
    // 9223372036854775807 == 922337203685477580 * 10 + 7
    let q: u64 = 922337203685477580;
    let last: u64 = if neg {
        8
    } else {
        7
    };
    let ghost bound: int = 10 * q + last;
    let mut acc: u64 = 0;
    let mut i: usize = start;
    while i < n
        invariant
            n == t@.len(),
            start <= i <= n,
            start == (if neg {
                1int
            } else {
                0int
            }),
            n > start,
            q == 922337203685477580,
            last == (if neg {
                8int
            } else {
                7int
            }),
            bound == 10 * q + last,
            d == (if neg {
                t@.skip(1)
            } else {
                t@
            }),
            neg ==> t@[0] == '-',
            !neg ==> t@[0] != '-',
            all_digits(d.take(i - start)),
            acc == digits_val(d.take(i - start)),
            acc <= bound,
        decreases n - i,
    {
        let c = t.get_char(i);
        assert(d[i - start] == t@[i as int]);
        let cu: u32 = c as u32;
        if cu < 48 || cu > 57 {
            assert(!is_digit(d[i - start]));
            assert(!all_digits(d));
            return None;
        }
        let dv: u64 = (cu - 48) as u64;
        assert(d.take(i - start + 1).drop_last() =~= d.take(i - start));
        assert(digits_val(d.take(i - start + 1)) == acc * 10 + dv);
        if acc > q || (acc == q && dv > last) {
            // the value no longer fits: every further digit only grows it
            proof {
                if all_digits(d) {
                    lemma_digits_val_mono(d, i - start + 1);
                    assert(digits_val(d) >= acc * 10 + dv > bound);
                }
            }
            return None;
        }
        acc = acc * 10 + dv;
        i = i + 1;
    }
    assert(d.take(n - start) =~= d);
    if neg {
        if acc <= 9223372036854775807 {
            Some(-(acc as i64))
        } else {
            assert(acc == 0x8000_0000_0000_0000);
            Some(i64::MIN)
        }
    } else {
        Some(acc as i64)
    }
}

} // verus!

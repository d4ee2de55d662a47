//! Text building for the response compiler: JSON string escaping,
//! base-10 rendering of integers, comma-joined lists, and the
//! JSON-RPC/server-sent-event frame that every response is wrapped in.

use vstd::prelude::*;
use vstd::string::*;
use crate::json_text::push_char;

verus! {

/// The lowercase hex digit for a value below 16.
pub open spec fn spec_hex_char(d: int) -> char {
    if d < 10 {
        ((48 + d) as u8) as char
    } else {
        ((87 + d) as u8) as char
    }
}

/// How one character is written inside a JSON string: the quote and
/// the backslash are escaped, the three common control characters get
/// their short escapes, every other control character below 0x20 the
/// `\u00XX` form, and everything else stands as it is.
pub open spec fn spec_char_escaped(c: char) -> Seq<char> {
    if c == '"' {
        seq!['\\', '"']
    } else if c == '\\' {
        seq!['\\', '\\']
    } else if c == '\n' {
        seq!['\\', 'n']
    } else if c == '\r' {
        seq!['\\', 'r']
    } else if c == '\t' {
        seq!['\\', 't']
    } else if (c as u32) < 32 {
        seq!['\\', 'u', '0', '0', spec_hex_char((c as u32) as int / 16), spec_hex_char((c as u32) as int % 16)]
    } else {
        seq![c]
    }
}

/// A string as it is written inside JSON quotes.
pub open spec fn spec_escape(s: Seq<char>) -> Seq<char>
    decreases s.len(),
{
    if s.len() == 0 {
        Seq::empty()
    } else {
        spec_char_escaped(s[0]) + spec_escape(s.skip(1))
    }
}

pub proof fn lemma_escape_push(t: Seq<char>, c: char)
    ensures
        spec_escape(t.push(c)) == spec_escape(t) + spec_char_escaped(c),
    decreases t.len(),
{
    if t.len() == 0 {
        assert(t.push(c)[0] == c);
        assert(t.push(c).skip(1) =~= Seq::<char>::empty());
        assert(spec_escape(Seq::<char>::empty()) == Seq::<char>::empty());
        assert(spec_escape(t.push(c)) == spec_char_escaped(c) + spec_escape(t.push(c).skip(1)));
        assert(spec_escape(t.push(c)) =~= spec_escape(t) + spec_char_escaped(c));
    } else {
        assert(t.push(c)[0] == t[0]);
        assert(t.push(c).skip(1) =~= t.skip(1).push(c));
        lemma_escape_push(t.skip(1), c);
        assert(spec_char_escaped(t[0]) + (spec_escape(t.skip(1)) + spec_char_escaped(c))
            =~= (spec_char_escaped(t[0]) + spec_escape(t.skip(1))) + spec_char_escaped(c));
    }
}

/// Appends `s` to `out` in its escaped form, as [`spec_escape`] defines.
pub fn append_escaped(out: &mut String, s: &str)
    ensures
        final(out)@ == old(out)@ + spec_escape(s@),
{
    let n = s.unicode_len();
    let mut i: usize = 0;
    assert(s@.take(0) =~= Seq::<char>::empty());
    while i < n
        invariant
            n == s@.len(),
            i <= n,
            out@ == old(out)@ + spec_escape(s@.take(i as int)),
        decreases n - i,
    {
        let c = s.get_char(i);
        proof {
            lemma_escape_push(s@.take(i as int), c);
            assert(s@.take(i + 1) =~= s@.take(i as int).push(s@[i as int]));
        }
        if c == '"' {
            out.append("\\\"");
            assert("\\\""@ =~= seq!['\\', '"']) by {
                reveal_strlit("\\\"");
            }
        } else if c == '\\' {
            out.append("\\\\");
            assert("\\\\"@ =~= seq!['\\', '\\']) by {
                reveal_strlit("\\\\");
            }
        } else if c == '\n' {
            out.append("\\n");
            assert("\\n"@ =~= seq!['\\', 'n']) by {
                reveal_strlit("\\n");
            }
        } else if c == '\r' {
            out.append("\\r");
            assert("\\r"@ =~= seq!['\\', 'r']) by {
                reveal_strlit("\\r");
            }
        } else if c == '\t' {
            out.append("\\t");
            assert("\\t"@ =~= seq!['\\', 't']) by {
                reveal_strlit("\\t");
            }
        } else if (c as u32) < 32 {
            out.append("\\u00");
            assert("\\u00"@ =~= seq!['\\', 'u', '0', '0']) by {
                reveal_strlit("\\u00");
            }
            let hi: u32 = c as u32 / 16;
            let lo: u32 = c as u32 % 16;
            let hc: char = if hi < 10 {
                ((48 + hi) as u8) as char
            } else {
                ((87 + hi) as u8) as char
            };
            let lc: char = if lo < 10 {
                ((48 + lo) as u8) as char
            } else {
                ((87 + lo) as u8) as char
            };
            assert(hc == spec_hex_char((c as u32) as int / 16));
            assert(lc == spec_hex_char((c as u32) as int % 16));
            push_char(out, hc);
            push_char(out, lc);
        } else {
            push_char(out, c);
        }
        proof {
            assert(out@ =~= old(out)@ + spec_escape(s@.take(i + 1)));
        }
        i = i + 1;
    }
    assert(s@.take(n as int) =~= s@);
}

/// A string in JSON quotes.
pub open spec fn spec_quoted(s: Seq<char>) -> Seq<char> {
    "\""@ + spec_escape(s) + "\""@
}

/// Appends `s` to `out` in JSON quotes.
pub fn append_quoted(out: &mut String, s: &str)
    ensures
        final(out)@ == old(out)@ + spec_quoted(s@),
{
    out.append("\"");
    append_escaped(out, s);
    out.append("\"");
}

pub open spec fn spec_digit_char(d: int) -> char {
    ((48 + d) as u8) as char
}

/// A non-negative number in base 10, most significant digit first.
pub open spec fn spec_u64_str(n: int) -> Seq<char>
    decreases n,
{
    if n < 10 {
        seq![spec_digit_char(n)]
    } else {
        spec_u64_str(n / 10) + seq![spec_digit_char(n % 10)]
    }
}

/// A signed number in base 10.
pub open spec fn spec_i64_str(v: int) -> Seq<char> {
    if v < 0 {
        seq!['-'] + spec_u64_str(-v)
    } else {
        spec_u64_str(v)
    }
}

pub fn append_u64(out: &mut String, n: u64)
    ensures
        final(out)@ == old(out)@ + spec_u64_str(n as int),
    decreases n,
{
    if n < 10 {
        let c = ((48 + n) as u8) as char;
        push_char(out, c);
        assert(final(out)@ =~= old(out)@ + seq![spec_digit_char(n as int)]);
    } else {
        append_u64(out, n / 10);
        let c = ((48 + n % 10) as u8) as char;
        push_char(out, c);
        assert(final(out)@ =~= old(out)@ + (spec_u64_str(n as int / 10) + seq![
            spec_digit_char(n as int % 10),
        ]));
    }
}

/// Appends `v` to `out` in base 10, as [`spec_i64_str`] defines.
pub fn append_i64(out: &mut String, v: i64)
    ensures
        final(out)@ == old(out)@ + spec_i64_str(v as int),
{
    if v < 0 {
        let m: u64 = if v == i64::MIN {
            9223372036854775808
        } else {
            (-v) as u64
        };
        assert(m == -(v as int));
        out.append("-");
        append_u64(out, m);
        proof {
            assert("-"@ =~= seq!['-']) by {
                reveal_strlit("-");
            }
            assert(final(out)@ =~= old(out)@ + (seq!['-'] + spec_u64_str(m as int)));
        }
    } else {
        append_u64(out, v as u64);
    }
}

/// Renders `v` in base 10, as [`spec_i64_str`] defines.
pub fn i64_to_string(v: i64) -> (r: String)
    ensures
        r@ == spec_i64_str(v as int),
{
    let mut out = String::new();
    append_i64(&mut out, v);
    assert(Seq::<char>::empty() + spec_i64_str(v as int) =~= spec_i64_str(v as int));
    out
}

/// The pieces joined with a comma between neighbours.
pub open spec fn spec_join_comma(xs: Seq<Seq<char>>) -> Seq<char>
    decreases xs.len(),
{
    if xs.len() == 0 {
        Seq::empty()
    } else if xs.len() == 1 {
        xs[0]
    } else {
        spec_join_comma(xs.drop_last()) + ","@ + xs.last()
    }
}

/// Appends the pieces to `out` with a comma between neighbours, as
/// [`spec_join_comma`] defines.
pub fn append_join_comma(out: &mut String, xs: &Vec<String>)
    ensures
        final(out)@ == old(out)@ + spec_join_comma(xs.deep_view()),
{
    let mut i: usize = 0;
    assert(xs.deep_view().take(0) =~= Seq::<Seq<char>>::empty());
    while i < xs.len()
        invariant
            i <= xs.len(),
            out@ == old(out)@ + spec_join_comma(xs.deep_view().take(i as int)),
        decreases xs.len() - i,
    {
        if i > 0 {
            out.append(",");
        }
        out.append(xs[i].as_str());
        proof {
            assert(xs.deep_view()[i as int] == xs[i as int]@);
            assert(xs.deep_view().take(i + 1).drop_last() =~= xs.deep_view().take(i as int));
            assert(xs.deep_view().take(i + 1).last() == xs.deep_view()[i as int]);
            if i == 0 {
                assert(out@ =~= old(out)@ + spec_join_comma(xs.deep_view().take(1)));
            } else {
                assert(out@ =~= old(out)@ + (spec_join_comma(xs.deep_view().take(i as int)) + ","@
                    + xs.deep_view()[i as int]));
            }
        }
        i = i + 1;
    }
    assert(xs.deep_view().take(xs.len() as int) =~= xs.deep_view());
}

/// One complete outbound frame: the `data: ` prefix, the JSON-RPC
/// object carrying the protocol version, the echoed id and the result
/// object, and the blank line that closes a server-sent event.
pub open spec fn spec_rpc_frame(id: int, result_body: Seq<char>) -> Seq<char> {
    "data: {\"jsonrpc\":\"2.0\",\"id\":"@ + spec_i64_str(id) + ",\"result\":"@ + result_body
        + "}\n\n"@
}

/// Wraps an already rendered `result` object into the outbound frame.
pub fn build(result: &str, id: i64) -> (r: String)
    ensures
        r@ == spec_rpc_frame(id as int, result@),
{
    let mut out = String::from_str("data: {\"jsonrpc\":\"2.0\",\"id\":");
    append_i64(&mut out, id);
    out.append(",\"result\":");
    out.append(result);
    out.append("}\n\n");
    assert(out@ =~= spec_rpc_frame(id as int, result@));
    out
}

} // verus!

//! Rendering of text into JSON string literals: every double quote,
//! backslash and control character is escaped, so a message can be embedded
//! in a structured report without breaking its syntax.

use vstd::prelude::*;

verus! {

/// The hexadecimal digit `d` as a lowercase character.
pub open spec fn hex_digit(d: int) -> char {
    if d == 0 { '0' }
    else if d == 1 { '1' }
    else if d == 2 { '2' }
    else if d == 3 { '3' }
    else if d == 4 { '4' }
    else if d == 5 { '5' }
    else if d == 6 { '6' }
    else if d == 7 { '7' }
    else if d == 8 { '8' }
    else if d == 9 { '9' }
    else if d == 10 { 'a' }
    else if d == 11 { 'b' }
    else if d == 12 { 'c' }
    else if d == 13 { 'd' }
    else if d == 14 { 'e' }
    else { 'f' }
}

/// How one character appears inside a JSON string literal.
pub open spec fn escape_char(c: char) -> Seq<char> {
    if c == '"' { seq!['\\', '"'] }
    else if c == '\\' { seq!['\\', '\\'] }
    else if c == '\u{8}' { seq!['\\', 'b'] }
    else if c == '\u{c}' { seq!['\\', 'f'] }
    else if c == '\n' { seq!['\\', 'n'] }
    else if c == '\r' { seq!['\\', 'r'] }
    else if c == '\t' { seq!['\\', 't'] }
    else if (c as u32) < 32 {
        seq!['\\', 'u', '0', '0', hex_digit(c as u32 as int / 16), hex_digit(c as u32 as int % 16)]
    } else {
        seq![c]
    }
}

/// The body of the JSON string literal showing `s`.
pub open spec fn escape_seq(s: Seq<char>) -> Seq<char>
    decreases s.len(),
{
    if s.len() == 0 {
        Seq::empty()
    } else {
        escape_seq(s.drop_last()) + escape_char(s.last())
    }
}

/// The complete JSON string literal showing `s`, quotes included.
pub open spec fn json_string(s: Seq<char>) -> Seq<char> {
    seq!['"'] + escape_seq(s) + seq!['"']
}

/// Law: an escaped string body never holds a raw control character, so a
/// message with newlines or tabs cannot break the line structure of a
/// structured report.
pub proof fn lemma_escape_no_control(s: Seq<char>)
    ensures
        forall|k: int| 0 <= k < escape_seq(s).len() ==> (escape_seq(s)[k] as u32) >= 32,
    decreases s.len(),
{
    if s.len() > 0 {
        lemma_escape_no_control(s.drop_last());
        let pre = escape_seq(s.drop_last());
        let e = escape_char(s.last());
        assert forall|k: int| 0 <= k < e.len() implies (e[k] as u32) >= 32 by {
            let c = s.last();
            if c == '"' || c == '\\' || c == '\u{8}' || c == '\u{c}' || c == '\n' || c == '\r'
                || c == '\t' {
            } else if (c as u32) < 32 {
                assert((hex_digit(c as u32 as int / 16) as u32) >= 32);
                assert((hex_digit(c as u32 as int % 16) as u32) >= 32);
            }
        }
        assert forall|k: int| 0 <= k < escape_seq(s).len() implies (
            escape_seq(s)[k] as u32) >= 32 by {
            if k < pre.len() {
                assert(escape_seq(s)[k] == pre[k]);
            } else {
                assert(escape_seq(s)[k] == e[k - pre.len()]);
            }
        }
    }
}

/// One hexadecimal digit, executable.
fn hex_digit_exec(d: u32) -> (c: char)
    requires
        d < 16,
    ensures
        c == hex_digit(d as int),
{
    if d == 0 { '0' }
    else if d == 1 { '1' }
    else if d == 2 { '2' }
    else if d == 3 { '3' }
    else if d == 4 { '4' }
    else if d == 5 { '5' }
    else if d == 6 { '6' }
    else if d == 7 { '7' }
    else if d == 8 { '8' }
    else if d == 9 { '9' }
    else if d == 10 { 'a' }
    else if d == 11 { 'b' }
    else if d == 12 { 'c' }
    else if d == 13 { 'd' }
    else if d == 14 { 'e' }
    else { 'f' }
}

/// Append the escaped form of `c` to `out`.
fn escape_push(out: &mut Vec<char>, c: char)
    ensures
        final(out)@ == old(out)@ + escape_char(c),
{
    if c == '"' {
        out.push('\\');
        out.push('"');
    } else if c == '\\' {
        out.push('\\');
        out.push('\\');
    } else if c == '\u{8}' {
        out.push('\\');
        out.push('b');
    } else if c == '\u{c}' {
        out.push('\\');
        out.push('f');
    } else if c == '\n' {
        out.push('\\');
        out.push('n');
    } else if c == '\r' {
        out.push('\\');
        out.push('r');
    } else if c == '\t' {
        out.push('\\');
        out.push('t');
    } else {
        let code = c as u32;
        if code < 32 {
            out.push('\\');
            out.push('u');
            out.push('0');
            out.push('0');
            out.push(hex_digit_exec(code / 16));
            out.push(hex_digit_exec(code % 16));
        } else {
            out.push(c);
        }
    }
    proof {
        assert(out@ =~= old(out)@ + escape_char(c));
    }
}

/// Append the escaped body of `v` to `out`.
pub fn escape_into(out: &mut Vec<char>, v: &Vec<char>)
    ensures
        final(out)@ == old(out)@ + escape_seq(v@),
{
    let n = v.len();
    let mut k: usize = 0;
    proof {
        assert(out@ =~= old(out)@ + escape_seq(v@.subrange(0, 0)));
    }
    while k < n
        invariant
            k <= n == v@.len(),
            out@ == old(out)@ + escape_seq(v@.subrange(0, k as int)),
        decreases n - k,
    {
        escape_push(out, v[k]);
        k += 1;
        proof {
            let pre = v@.subrange(0, k as int);
            assert(pre.drop_last() =~= v@.subrange(0, k - 1));
            assert(pre.last() == v@[k - 1]);
            assert(out@ =~= old(out)@ + escape_seq(pre));
        }
    }
    proof {
        assert(v@.subrange(0, n as int) =~= v@);
    }
}

/// Append the complete JSON string literal showing `v` to `out`.
pub fn json_string_into(out: &mut Vec<char>, v: &Vec<char>)
    ensures
        final(out)@ == old(out)@ + json_string(v@),
{
    out.push('"');
    escape_into(out, v);
    out.push('"');
    proof {
        assert(out@ =~= old(out)@ + json_string(v@));
    }
}

} // verus!

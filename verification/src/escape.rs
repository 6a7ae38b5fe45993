//! Exact HTML and href escaping.
//!
//! `escape_html_into` replaces the five HTML-special characters by entity
//! references; `escape_href_into` percent-encodes every byte that is not safe
//! inside an URL, keeping `&amp;` and `&#x27;` as entities.

use vstd::prelude::*;
use vstd::utf8::{encode_scalar, is_scalar, char_is_scalar};

verus! {

/// The replacement text for one character under HTML escaping.
pub open spec fn html_escape_char(c: char) -> Seq<char> {
    if c == '&' {
        "&amp;"@
    } else if c == '<' {
        "&lt;"@
    } else if c == '>' {
        "&gt;"@
    } else if c == '"' {
        "&quot;"@
    } else if c == '\'' {
        "&#39;"@
    } else {
        seq![c]
    }
}

/// HTML escaping of a whole character sequence.
pub open spec fn html_escaped(s: Seq<char>) -> Seq<char>
    decreases s.len(),
{
    if s.len() == 0 {
        Seq::empty()
    } else {
        html_escaped(s.drop_last()) + html_escape_char(s.last())
    }
}

/// Appends the HTML-escaped form of one character to `out`.
pub fn push_escaped_char(out: &mut String, c: char)
    ensures
        final(out)@ == old(out)@ + html_escape_char(c),
{
    if c == '&' {
        out.append("&amp;");
    } else if c == '<' {
        out.append("&lt;");
    } else if c == '>' {
        out.append("&gt;");
    } else if c == '"' {
        out.append("&quot;");
    } else if c == '\'' {
        out.append("&#39;");
    } else {
        out.push(c);
        proof {
            assert(out@ =~= old(out)@ + seq![c]);
        }
    }
}

/// Appends the HTML-escaped form of `s` to `out`.
pub fn escape_html_into(out: &mut String, s: &str)
    ensures
        final(out)@ == old(out)@ + html_escaped(s@),
{
    let n = s.unicode_len();
    let mut i: usize = 0;
    while i < n
        invariant
            i <= n,
            n == s@.len(),
            out@ == old(out)@ + html_escaped(s@.take(i as int)),
        decreases n - i,
    {
        let c = s.get_char(i);
        push_escaped_char(out, c);
        proof {
            assert(s@.take(i + 1).drop_last() =~= s@.take(i as int));
            assert(s@.take(i + 1).last() == c);
            assert(out@ =~= old(out)@ + html_escaped(s@.take(i + 1)));
        }
        i = i + 1;
    }
    proof {
        assert(s@.take(n as int) =~= s@);
    }
}

/// True for the characters an href may contain verbatim: ASCII letters,
/// digits, and the URL punctuation the renderer leaves unescaped.
pub open spec fn href_safe(c: char) -> bool {
    ||| 'a' <= c <= 'z'
    ||| 'A' <= c <= 'Z'
    ||| '0' <= c <= '9'
    ||| c == '!' || c == '#' || c == '$' || c == '%' || c == '(' || c == ')'
    ||| c == '*' || c == '+' || c == ',' || c == '-' || c == '.' || c == '/'
    ||| c == ':' || c == ';' || c == '=' || c == '?' || c == '@' || c == '^'
    ||| c == '_' || c == '~'
}

/// Uppercase hexadecimal digit character.
pub open spec fn hex_char(d: nat) -> char {
    if d < 10 {
        crate::strutil::digit_char(d)
    } else if d == 10 {
        'A'
    } else if d == 11 {
        'B'
    } else if d == 12 {
        'C'
    } else if d == 13 {
        'D'
    } else if d == 14 {
        'E'
    } else {
        'F'
    }
}

/// Percent-encoding of a single byte.
pub open spec fn pct_byte(b: u8) -> Seq<char> {
    seq!['%', hex_char((b >> 4) as nat), hex_char((b & 15) as nat)]
}

/// Percent-encoding of a byte sequence.
pub open spec fn pct_bytes(bs: Seq<u8>) -> Seq<char>
    decreases bs.len(),
{
    if bs.len() == 0 {
        Seq::empty()
    } else {
        pct_bytes(bs.drop_last()) + pct_byte(bs.last())
    }
}

/// The replacement text for one character under href escaping.
pub open spec fn href_escape_char(c: char) -> Seq<char> {
    if href_safe(c) {
        seq![c]
    } else if c == '&' {
        "&amp;"@
    } else if c == '\'' {
        "&#x27;"@
    } else {
        pct_bytes(encode_scalar(c as u32))
    }
}

/// Href escaping of a whole character sequence.
pub open spec fn href_escaped(s: Seq<char>) -> Seq<char>
    decreases s.len(),
{
    if s.len() == 0 {
        Seq::empty()
    } else {
        href_escaped(s.drop_last()) + href_escape_char(s.last())
    }
}

fn hex_digit(d: u32) -> (c: char)
    requires
        d < 16,
    ensures
        c == hex_char(d as nat),
{
    if d == 0 {
        '0'
    } else if d == 1 {
        '1'
    } else if d == 2 {
        '2'
    } else if d == 3 {
        '3'
    } else if d == 4 {
        '4'
    } else if d == 5 {
        '5'
    } else if d == 6 {
        '6'
    } else if d == 7 {
        '7'
    } else if d == 8 {
        '8'
    } else if d == 9 {
        '9'
    } else if d == 10 {
        'A'
    } else if d == 11 {
        'B'
    } else if d == 12 {
        'C'
    } else if d == 13 {
        'D'
    } else if d == 14 {
        'E'
    } else {
        'F'
    }
}

/// The UTF-8 bytes of one character.
fn char_utf8_bytes(c: char) -> (r: Vec<u8>)
    ensures
        r@ == encode_scalar(c as u32),
{
    proof {
        char_is_scalar(c);
    }
    let v = c as u32;
    let mut r: Vec<u8> = Vec::new();
    if v <= 0x7F {
        r.push((v & 0x7F) as u8);
    } else if v <= 0x7FF {
        r.push(0xC0u8 | ((v >> 6) & 0x1F) as u8);
        r.push(0x80u8 | (v & 0x3F) as u8);
    } else if v <= 0xFFFF {
        r.push(0xE0u8 | ((v >> 12) & 0x0F) as u8);
        r.push(0x80u8 | ((v >> 6) & 0x3F) as u8);
        r.push(0x80u8 | (v & 0x3F) as u8);
    } else {
        r.push(0xF0u8 | ((v >> 18) & 0x7) as u8);
        r.push(0x80u8 | ((v >> 12) & 0x3F) as u8);
        r.push(0x80u8 | ((v >> 6) & 0x3F) as u8);
        r.push(0x80u8 | (v & 0x3F) as u8);
    }
    proof {
        assert(r@ =~= encode_scalar(c as u32));
    }
    r
}

/// Appends the percent-encoding of one byte to `out`.
fn push_pct_byte(out: &mut String, b: u8)
    ensures
        final(out)@ == old(out)@ + pct_byte(b),
{
    proof {
        assert((b as u32) >> 4 < 16 && (b as u32) & 15 < 16) by (bit_vector);
    }
    out.push('%');
    out.push(hex_digit((b as u32) >> 4));
    out.push(hex_digit((b as u32) & 15));
    proof {
        assert((b >> 4) as nat == ((b as u32) >> 4) as nat) by (bit_vector);
        assert((b & 15) as nat == ((b as u32) & 15) as nat) by (bit_vector);
        assert(out@ =~= old(out)@ + pct_byte(b));
    }
}

/// Appends the href-escaped form of `s` to `out`.
pub fn escape_href_into(out: &mut String, s: &str)
    ensures
        final(out)@ == old(out)@ + href_escaped(s@),
{
    let n = s.unicode_len();
    let mut i: usize = 0;
    while i < n
        invariant
            i <= n,
            n == s@.len(),
            out@ == old(out)@ + href_escaped(s@.take(i as int)),
        decreases n - i,
    {
        let c = s.get_char(i);
        let safe = ('a' <= c && c <= 'z') || ('A' <= c && c <= 'Z') || ('0' <= c && c <= '9')
            || c == '!' || c == '#' || c == '$' || c == '%' || c == '(' || c == ')' || c == '*'
            || c == '+' || c == ',' || c == '-' || c == '.' || c == '/' || c == ':' || c == ';'
            || c == '=' || c == '?' || c == '@' || c == '^' || c == '_' || c == '~';
        if safe {
            out.push(c);
        } else if c == '&' {
            out.append("&amp;");
        } else if c == '\'' {
            out.append("&#x27;");
        } else {
            let bytes = char_utf8_bytes(c);
            let mut j: usize = 0;
            let ghost base = out@;
            while j < bytes.len()
                invariant
                    j <= bytes.len(),
                    bytes@ == encode_scalar(c as u32),
                    out@ == base + pct_bytes(bytes@.take(j as int)),
                decreases bytes.len() - j,
            {
                push_pct_byte(out, bytes[j]);
                proof {
                    assert(bytes@.take(j + 1).drop_last() =~= bytes@.take(j as int));
                    assert(bytes@.take(j + 1).last() == bytes@[j as int]);
                    assert(out@ =~= base + pct_bytes(bytes@.take(j + 1)));
                }
                j = j + 1;
            }
            proof {
                assert(bytes@.take(bytes@.len() as int) =~= bytes@);
            }
        }
        proof {
            assert(s@.take(i + 1).drop_last() =~= s@.take(i as int));
            assert(s@.take(i + 1).last() == c);
            assert(out@ =~= old(out)@ + href_escaped(s@.take(i + 1)));
        }
        i = i + 1;
    }
    proof {
        assert(s@.take(n as int) =~= s@);
    }
}

} // verus!

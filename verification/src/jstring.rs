//! JSON string escaping and scanning.
//!
//! The configuration codec writes strings with the compact JSON escaping:
//! quote and backslash escaped, control characters as `\n`, `\r`, `\t`,
//! `\b`, `\f` or `\u00XX`, everything else raw. The scanner reads exactly
//! that form back.

use vstd::prelude::*;

verus! {

/// The lower-case hex digit of a value below sixteen.
pub open spec fn hex_digit(n: int) -> char {
    if n == 0 {
        '0'
    } else if n == 1 {
        '1'
    } else if n == 2 {
        '2'
    } else if n == 3 {
        '3'
    } else if n == 4 {
        '4'
    } else if n == 5 {
        '5'
    } else if n == 6 {
        '6'
    } else if n == 7 {
        '7'
    } else if n == 8 {
        '8'
    } else if n == 9 {
        '9'
    } else if n == 10 {
        'a'
    } else if n == 11 {
        'b'
    } else if n == 12 {
        'c'
    } else if n == 13 {
        'd'
    } else if n == 14 {
        'e'
    } else {
        'f'
    }
}

/// The value of a lower-case hex digit, or 16 for other characters.
pub open spec fn hex_value(c: char) -> int {
    if '0' <= c && c <= '9' {
        c as int - 48
    } else if 'a' <= c && c <= 'f' {
        c as int - 87
    } else {
        16
    }
}

proof fn lemma_hex_roundtrip(n: int)
    requires
        0 <= n < 16,
    ensures
        hex_value(hex_digit(n)) == n,
{
}

/// The escape of one character inside a JSON string.
pub open spec fn esc_char(c: char) -> Seq<char> {
    if c == '"' {
        seq!['\\', '"']
    } else if c == '\\' {
        seq!['\\', '\\']
    } else if c == '\u{8}' {
        seq!['\\', 'b']
    } else if c == '\u{c}' {
        seq!['\\', 'f']
    } else if c == '\n' {
        seq!['\\', 'n']
    } else if c == '\r' {
        seq!['\\', 'r']
    } else if c == '\t' {
        seq!['\\', 't']
    } else if (c as u32) < 32 {
        seq!['\\', 'u', '0', '0', hex_digit(c as int / 16), hex_digit(c as int % 16)]
    } else {
        seq![c]
    }
}

/// The escaped body of a JSON string.
pub open spec fn esc_str(s: Seq<char>) -> Seq<char>
    decreases s.len(),
{
    if s.len() == 0 {
        Seq::empty()
    } else {
        esc_char(s[0]) + esc_str(s.drop_first())
    }
}

/// Escaping distributes over appending one character.
pub proof fn lemma_esc_str_push(s: Seq<char>, c: char)
    ensures
        esc_str(s.push(c)) == esc_str(s) + esc_char(c),
    decreases s.len(),
{
    if s.len() == 0 {
        assert(s.push(c)[0] == c);
        assert(s.push(c).drop_first() =~= s);
        assert(esc_str(s.push(c)) == esc_char(c) + esc_str(s));
        assert(esc_char(c) + esc_str(s) =~= esc_char(c));
        assert(esc_str(s) + esc_char(c) =~= esc_char(c));
    } else {
        lemma_esc_str_push(s.drop_first(), c);
        assert(s.push(c)[0] == s[0]);
        assert(s.push(c).drop_first() =~= s.drop_first().push(c));
        assert(esc_char(s[0]) + (esc_str(s.drop_first()) + esc_char(c)) =~= (esc_char(s[0])
            + esc_str(s.drop_first())) + esc_char(c));
    }
}

/// Appends the escape of one character.
fn push_esc_char(out: &mut Vec<char>, c: char)
    ensures
        final(out)@ == old(out)@ + esc_char(c),
{
    let ghost o0 = old(out)@;
    if c == '"' {
        out.push('\\');
        out.push('"');
        proof {
            assert(out@ =~= o0 + esc_char(c));
        }
    } else if c == '\\' {
        out.push('\\');
        out.push('\\');
        proof {
            assert(out@ =~= o0 + esc_char(c));
        }
    } else if c == '\u{8}' {
        out.push('\\');
        out.push('b');
        proof {
            assert(out@ =~= o0 + esc_char(c));
        }
    } else if c == '\u{c}' {
        out.push('\\');
        out.push('f');
        proof {
            assert(out@ =~= o0 + esc_char(c));
        }
    } else if c == '\n' {
        out.push('\\');
        out.push('n');
        proof {
            assert(out@ =~= o0 + esc_char(c));
        }
    } else if c == '\r' {
        out.push('\\');
        out.push('r');
        proof {
            assert(out@ =~= o0 + esc_char(c));
        }
    } else if c == '\t' {
        out.push('\\');
        out.push('t');
        proof {
            assert(out@ =~= o0 + esc_char(c));
        }
    } else if (c as u32) < 32 {
        out.push('\\');
        out.push('u');
        out.push('0');
        out.push('0');
        let v = c as u32;
        let hi: u32 = v / 16;
        let lo: u32 = v % 16;
        out.push(hex_char(hi as u8));
        out.push(hex_char(lo as u8));
        proof {
            assert(out@ =~= o0 + esc_char(c));
        }
    } else {
        out.push(c);
        proof {
            assert(out@ =~= o0 + esc_char(c));
        }
    }
}

/// The lower-case hex digit character of a value below sixteen.
fn hex_char(n: u8) -> (c: char)
    requires
        n < 16,
    ensures
        c == hex_digit(n as int),
{
    if n == 0 {
        '0'
    } else if n == 1 {
        '1'
    } else if n == 2 {
        '2'
    } else if n == 3 {
        '3'
    } else if n == 4 {
        '4'
    } else if n == 5 {
        '5'
    } else if n == 6 {
        '6'
    } else if n == 7 {
        '7'
    } else if n == 8 {
        '8'
    } else if n == 9 {
        '9'
    } else if n == 10 {
        'a'
    } else if n == 11 {
        'b'
    } else if n == 12 {
        'c'
    } else if n == 13 {
        'd'
    } else if n == 14 {
        'e'
    } else {
        'f'
    }
}

/// Appends `"` + escaped body + `"`.
pub fn push_quoted(out: &mut Vec<char>, s: &Vec<char>)
    ensures
        final(out)@ == old(out)@ + seq!['"'] + esc_str(s@) + seq!['"'],
{
    let ghost o0 = old(out)@;
    out.push('"');
    let mut i: usize = 0;
    proof {
        assert(esc_str(s@.take(0)) =~= Seq::<char>::empty());
        assert(out@ =~= o0 + seq!['"'] + esc_str(s@.take(0)));
    }
    while i < s.len()
        invariant
            0 <= i <= s@.len(),
            s@.len() == s.len(),
            out@ == o0 + seq!['"'] + esc_str(s@.take(i as int)),
        decreases s@.len() - i,
    {
        push_esc_char(out, s[i]);
        proof {
            assert(s@.take(i + 1) =~= s@.take(i as int).push(s@[i as int]));
            lemma_esc_str_push(s@.take(i as int), s@[i as int]);
            assert(out@ =~= o0 + seq!['"'] + esc_str(s@.take(i + 1)));
        }
        i = i + 1;
    }
    out.push('"');
    proof {
        assert(s@.take(s@.len() as int) =~= s@);
        assert(out@ =~= o0 + seq!['"'] + esc_str(s@) + seq!['"']);
    }
}

/// A character the escaper writes through unchanged.
pub open spec fn plain_char(c: char) -> bool {
    c != '"' && c != '\\' && (c as u32) >= 32
}

/// Text the escaper writes through unchanged.
pub open spec fn all_plain(t: Seq<char>) -> bool {
    forall|i: int| 0 <= i < t.len() ==> plain_char(#[trigger] t[i])
}

/// Escaping plain text is the identity.
pub proof fn lemma_esc_plain(t: Seq<char>)
    requires
        all_plain(t),
    ensures
        esc_str(t) == t,
    decreases t.len(),
{
    if t.len() == 0 {
        assert(esc_str(t) =~= t);
    } else {
        assert(plain_char(t[0]));
        lemma_esc_plain(t.drop_first());
        assert(esc_char(t[0]) =~= seq![t[0]]);
        assert(seq![t[0]] + t.drop_first() =~= t);
    }
}

/// Reads a JSON string body up to and over the closing quote: the decoded
/// content and the remainder. `None` when the input is not such a body.
pub open spec fn scan_jstr(s: Seq<char>) -> Option<(Seq<char>, Seq<char>)>
    decreases s.len(),
{
    if s.len() == 0 {
        None
    } else if s[0] == '"' {
        Some((Seq::empty(), s.drop_first()))
    } else if s[0] == '\\' {
        if s.len() < 2 {
            None
        } else {
            let e = s[1];
            if e == 'u' {
                if s.len() < 6 || s[2] != '0' || s[3] != '0' || hex_value(s[4]) >= 16 || hex_value(
                    s[5],
                ) >= 16 {
                    None
                } else {
                    let c = (hex_value(s[4]) * 16 + hex_value(s[5])) as char;
                    match scan_jstr(s.skip(6)) {
                        Option::Some(p) => Some((seq![c] + p.0, p.1)),
                        Option::None => None,
                    }
                }
            } else {
                let c = if e == '"' {
                    '"'
                } else if e == '\\' {
                    '\\'
                } else if e == 'b' {
                    '\u{8}'
                } else if e == 'f' {
                    '\u{c}'
                } else if e == 'n' {
                    '\n'
                } else if e == 'r' {
                    '\r'
                } else {
                    't'
                };
                if e == '"' || e == '\\' || e == 'b' || e == 'f' || e == 'n' || e == 'r' || e
                    == 't' {
                    let c2 = if e == 't' {
                        '\t'
                    } else {
                        c
                    };
                    match scan_jstr(s.skip(2)) {
                        Option::Some(p) => Some((seq![c2] + p.0, p.1)),
                        Option::None => None,
                    }
                } else {
                    None
                }
            }
        }
    } else {
        match scan_jstr(s.drop_first()) {
            Option::Some(p) => Some((seq![s[0]] + p.0, p.1)),
            Option::None => None,
        }
    }
}

/// Scanning reads back exactly what escaping wrote, leaving the rest.
pub proof fn lemma_scan_esc(x: Seq<char>, rest: Seq<char>)
    ensures
        scan_jstr(esc_str(x) + seq!['"'] + rest) == Some((x, rest)),
    decreases x.len(),
{
    let s = esc_str(x) + seq!['"'] + rest;
    if x.len() == 0 {
        assert(esc_str(x) =~= Seq::<char>::empty());
        assert(s[0] == '"');
        assert(s.drop_first() =~= rest);
    } else {
        lemma_scan_esc(x.drop_first(), rest);
        let c = x[0];
        let e = esc_char(c);
        let tail = esc_str(x.drop_first()) + seq!['"'] + rest;
        assert(esc_str(x) == esc_char(c) + esc_str(x.drop_first()));
        assert(s =~= e + tail);
        if c == '"' || c == '\\' {
            assert(s[0] == '\\');
            assert(s[1] == c);
            assert(s.skip(2) =~= tail);
            assert(seq![c] + x.drop_first() =~= x);
        } else if c == '\u{8}' || c == '\u{c}' || c == '\n' || c == '\r' || c == '\t' {
            assert(s[0] == '\\');
            assert(s.skip(2) =~= tail);
            assert(seq![c] + x.drop_first() =~= x);
        } else if (c as u32) < 32 {
            crate::strutil::lemma_char_bounds(c);
            assert((c as int) < 32);
            assert(s[0] == '\\');
            assert(s[1] == 'u');
            assert(s[2] == '0');
            assert(s[3] == '0');
            assert(s[4] == hex_digit(c as int / 16));
            assert(s[5] == hex_digit(c as int % 16));
            lemma_hex_roundtrip(c as int / 16);
            lemma_hex_roundtrip(c as int % 16);
            assert(hex_value(hex_digit(c as int / 16)) == c as int / 16);
            assert(hex_value(hex_digit(c as int % 16)) == c as int % 16);
            assert(hex_value(s[4]) * 16 + hex_value(s[5]) == c as int);
            assert((c as int) as char == c);
            assert(s.skip(6) =~= tail);
            assert(seq![c] + x.drop_first() =~= x);
        } else {
            assert(s[0] == c);
            assert(s[0] != '"' && s[0] != '\\');
            assert(s.drop_first() =~= tail);
            assert(seq![c] + x.drop_first() =~= x);
        }
    }
}

} // verus!

//! Character classes and token-level parsing: spaces, identifiers,
//! numeric literals and string literals.
//!
//! Parsers work over a sequence of Unicode scalars and a position. Each
//! executable parser returns exactly what its spec-level twin says: `None`
//! when the token is not there, or the token's value and the position one
//! past it.

use vstd::prelude::*;

use crate::strings::char_at;
use crate::strings::chars_to_string;

verus! {

/// A space or a tab: the whitespace the grammar skips between tokens.
pub open spec fn is_space(c: char) -> bool {
    c == ' ' || c == '\t'
}

/// A decimal digit.
pub open spec fn is_digit(c: char) -> bool {
    '0' <= c <= '9'
}

/// A letter.
pub open spec fn is_alpha(c: char) -> bool {
    ('a' <= c <= 'z') || ('A' <= c <= 'Z')
}

/// A character that may start an identifier.
pub open spec fn is_ident_start(c: char) -> bool {
    is_alpha(c) || c == '_'
}

/// A character that may continue an identifier.
pub open spec fn is_ident_char(c: char) -> bool {
    is_ident_start(c) || is_digit(c)
}

/// The value of `c` as a digit in base `radix`, or none. Hex digits are
/// case-insensitive.
pub open spec fn spec_digit_value(c: char, radix: int) -> Option<int> {
    let v: int = if '0' <= c <= '9' {
        c as int - '0' as int
    } else if 'a' <= c <= 'f' {
        c as int - 'a' as int + 10
    } else if 'A' <= c <= 'F' {
        c as int - 'A' as int + 10
    } else {
        -1
    };
    if 0 <= v < radix {
        Some(v)
    } else {
        None
    }
}

/// Whether `c` may continue an identifier, executable form.
pub fn ident_char(c: char) -> (r: bool)
    ensures
        r == is_ident_char(c),
{
    (('a' <= c && c <= 'z') || ('A' <= c && c <= 'Z')) || c == '_' || ('0' <= c && c <= '9')
}

/// The digit value of `c` in base `radix`, executable form.
pub fn digit_value(c: char, radix: u32) -> (r: Option<u32>)
    requires
        2 <= radix <= 16,
    ensures
        r matches Some(v) ==> spec_digit_value(c, radix as int) == Some(v as int) && v < radix,
        r is None ==> spec_digit_value(c, radix as int) is None,
{
    let v: u32 = if '0' <= c && c <= '9' {
        (c as u32) - ('0' as u32)
    } else if 'a' <= c && c <= 'f' {
        (c as u32) - ('a' as u32) + 10
    } else if 'A' <= c && c <= 'F' {
        (c as u32) - ('A' as u32) + 10
    } else {
        u32::MAX
    };
    if v < radix {
        Some(v)
    } else {
        None
    }
}

/// The position of the first non-space character at or after `pos`.
pub open spec fn spec_skip_spaces(s: Seq<char>, pos: int) -> int
    decreases s.len() - pos,
{
    if 0 <= pos < s.len() && is_space(char_at(s, pos as nat)) {
        spec_skip_spaces(s, pos + 1)
    } else {
        pos
    }
}

proof fn lemma_skip_spaces_bounds(s: Seq<char>, pos: int)
    requires
        0 <= pos <= s.len(),
    ensures
        pos <= spec_skip_spaces(s, pos) <= s.len(),
    decreases s.len() - pos,
{
    if pos < s.len() && is_space(char_at(s, pos as nat)) {
        lemma_skip_spaces_bounds(s, pos + 1);
    }
}

/// Skip spaces and tabs.
pub fn skip_spaces(s: &Vec<char>, pos: usize) -> (r: usize)
    requires
        pos <= s@.len(),
    ensures
        r == spec_skip_spaces(s@, pos as int),
        pos <= r <= s@.len(),
    decreases s@.len() - pos,
{
    proof {
        lemma_skip_spaces_bounds(s@, pos as int);
    }
    if pos < s.len() {
        let c = s[pos];
        if c == ' ' || c == '\t' {
            return skip_spaces(s, pos + 1);
        }
    }
    pos
}

/// The end of the identifier-character run starting at `pos`.
pub open spec fn spec_ident_end(s: Seq<char>, pos: int) -> int
    decreases s.len() - pos,
{
    if 0 <= pos < s.len() && is_ident_char(char_at(s, pos as nat)) {
        spec_ident_end(s, pos + 1)
    } else {
        pos
    }
}

pub proof fn lemma_ident_end_bounds(s: Seq<char>, pos: int)
    requires
        0 <= pos <= s.len(),
    ensures
        pos <= spec_ident_end(s, pos) <= s.len(),
    decreases s.len() - pos,
{
    if pos < s.len() && is_ident_char(char_at(s, pos as nat)) {
        lemma_ident_end_bounds(s, pos + 1);
    }
}

/// An identifier starting at `pos`: its characters and the position one
/// past it, or none if `pos` does not start an identifier.
pub open spec fn spec_parse_identifier(s: Seq<char>, pos: int) -> Option<(Seq<char>, int)> {
    if 0 <= pos < s.len() && is_ident_start(char_at(s, pos as nat)) {
        let end = spec_ident_end(s, pos + 1);
        Some((s.subrange(pos, end), end))
    } else {
        None
    }
}

/// Parse an identifier.
pub fn parse_identifier(s: &Vec<char>, pos: usize) -> (r: Option<(String, usize)>)
    requires
        pos <= s@.len(),
    ensures
        r matches Some(t) ==> spec_parse_identifier(s@, pos as int) == Some((t.0@, t.1 as int))
            && pos < t.1 <= s@.len(),
        r is None ==> spec_parse_identifier(s@, pos as int) is None,
{
    if pos >= s.len() {
        return None;
    }
    let c = s[pos];
    if !((('a' <= c && c <= 'z') || ('A' <= c && c <= 'Z')) || c == '_') {
        return None;
    }
    let mut end: usize = pos + 1;
    while end < s.len() && ident_char(s[end])
        invariant
            pos + 1 <= end <= s@.len(),
            spec_ident_end(s@, pos as int + 1) == spec_ident_end(s@, end as int),
        decreases s@.len() - end,
    {
        end = end + 1;
    }
    proof {
        assert(spec_ident_end(s@, end as int) == end);
    }
    let mut name: Vec<char> = Vec::new();
    let mut i: usize = pos;
    while i < end
        invariant
            pos <= i <= end <= s@.len(),
            name@ == s@.subrange(pos as int, i as int),
        decreases end - i,
    {
        name.push(s[i]);
        proof {
            assert(name@ =~= s@.subrange(pos as int, i as int + 1));
        }
        i = i + 1;
    }
    Some((chars_to_string(&name), end))
}

/// Digits of base `radix` from `pos` on, folded onto `acc`. Returns the
/// value and the position after the run; a value that leaves the range
/// of `i128` is none.
pub open spec fn spec_parse_digits(s: Seq<char>, pos: int, radix: int, acc: int) -> Option<
    (i128, int),
>
    decreases s.len() - pos,
{
    if 0 <= pos < s.len() && spec_digit_value(char_at(s, pos as nat), radix) is Some {
        let v = acc * radix + spec_digit_value(char_at(s, pos as nat), radix)->Some_0;
        if v > i128::MAX {
            None
        } else {
            spec_parse_digits(s, pos + 1, radix, v)
        }
    } else {
        Some((acc as i128, pos))
    }
}

/// Parse a run of digits in base `radix` onto accumulator `acc`.
pub fn parse_digits(s: &Vec<char>, pos: usize, radix: u32, acc: i128) -> (r: Option<(i128, usize)>)
    requires
        pos <= s@.len(),
        2 <= radix <= 16,
        acc >= 0,
    ensures
        r matches Some(t) ==> spec_parse_digits(s@, pos as int, radix as int, acc as int) == Some(
            (t.0, t.1 as int),
        ) && pos <= t.1 <= s@.len() && t.0 >= 0,
        r is None ==> spec_parse_digits(s@, pos as int, radix as int, acc as int) is None,
    decreases s@.len() - pos,
{
    if pos < s.len() {
        let c = s[pos];
        match digit_value(c, radix) {
            Some(d) => {
                let v = match acc.checked_mul(radix as i128) {
                    Some(m) => match m.checked_add(d as i128) {
                        Some(v) => v,
                        None => {
                            return None;
                        },
                    },
                    None => {
                        return None;
                    },
                };
                return parse_digits(s, pos + 1, radix, v);
            },
            None => {},
        }
    }
    Some((acc, pos))
}

/// A numeric literal at `pos`: decimal, or hex, octal or binary after a
/// `0x`, `0o` or `0b` prefix, with case-insensitive hex digits. At least
/// one digit is required; a value beyond `i128::MAX` is none.
pub open spec fn spec_parse_number(s: Seq<char>, pos: int) -> Option<(i128, int)> {
    if 0 <= pos && pos + 1 < s.len() && char_at(s, pos as nat) == '0' && (char_at(
        s,
        (pos + 1) as nat,
    ) == 'x' || char_at(s, (pos + 1) as nat) == 'o' || char_at(s, (pos + 1) as nat) == 'b') {
        let radix: int = if char_at(s, (pos + 1) as nat) == 'x' {
            16
        } else if char_at(s, (pos + 1) as nat) == 'o' {
            8
        } else {
            2
        };
        if pos + 2 < s.len() && spec_digit_value(char_at(s, (pos + 2) as nat), radix) is Some {
            spec_parse_digits(s, pos + 2, radix, 0)
        } else {
            None
        }
    } else if 0 <= pos < s.len() && is_digit(char_at(s, pos as nat)) {
        spec_parse_digits(s, pos, 10, 0)
    } else {
        None
    }
}

/// Parse a numeric literal.
pub fn parse_number(s: &Vec<char>, pos: usize) -> (r: Option<(i128, usize)>)
    requires
        pos <= s@.len(),
    ensures
        r matches Some(t) ==> spec_parse_number(s@, pos as int) == Some((t.0, t.1 as int)) && pos
            <= t.1 <= s@.len() && t.0 >= 0,
        r is None ==> spec_parse_number(s@, pos as int) is None,
{
    if pos < s.len() && pos + 1 < s.len() && s[pos] == '0' && (s[pos + 1] == 'x' || s[pos + 1]
        == 'o' || s[pos + 1] == 'b') {
        let radix: u32 = if s[pos + 1] == 'x' {
            16
        } else if s[pos + 1] == 'o' {
            8
        } else {
            2
        };
        if pos + 2 < s.len() && digit_value(s[pos + 2], radix).is_some() {
            parse_digits(s, pos + 2, radix, 0)
        } else {
            None
        }
    } else if pos < s.len() && '0' <= s[pos] && s[pos] <= '9' {
        parse_digits(s, pos, 10, 0)
    } else {
        None
    }
}

/// A string literal at `pos`: a `"`, characters with the escapes `\\`,
/// `\n`, `\r`, `\t` and `\"`, a backslash-newline pair that vanishes (a
/// line continuation), and a closing `"`. The value is the unescaped
/// character sequence; anything else — including an unknown escape or a
/// missing closing quote — is none.
pub open spec fn spec_parse_string_body(s: Seq<char>, pos: int, acc: Seq<char>) -> Option<
    (Seq<char>, int),
>
    decreases s.len() - pos,
{
    if pos < 0 || pos >= s.len() {
        None
    } else if char_at(s, pos as nat) == '"' {
        Some((acc, pos + 1))
    } else if char_at(s, pos as nat) == '\\' {
        if pos + 1 < s.len() {
            let e = char_at(s, (pos + 1) as nat);
            if e == 'n' {
                spec_parse_string_body(s, pos + 2, acc.push('\n'))
            } else if e == 'r' {
                spec_parse_string_body(s, pos + 2, acc.push('\r'))
            } else if e == 't' {
                spec_parse_string_body(s, pos + 2, acc.push('\t'))
            } else if e == '\\' {
                spec_parse_string_body(s, pos + 2, acc.push('\\'))
            } else if e == '"' {
                spec_parse_string_body(s, pos + 2, acc.push('"'))
            } else if e == '\n' {
                spec_parse_string_body(s, pos + 2, acc)
            } else {
                None
            }
        } else {
            None
        }
    } else {
        spec_parse_string_body(s, pos + 1, acc.push(char_at(s, pos as nat)))
    }
}

/// A whole string literal, quotes included.
pub open spec fn spec_parse_string_literal(s: Seq<char>, pos: int) -> Option<(Seq<char>, int)> {
    if 0 <= pos < s.len() && char_at(s, pos as nat) == '"' {
        spec_parse_string_body(s, pos + 1, Seq::empty())
    } else {
        None
    }
}

fn parse_string_body(s: &Vec<char>, pos: usize, acc: Vec<char>) -> (r: Option<(Vec<char>, usize)>)
    requires
        pos <= s@.len(),
    ensures
        r matches Some(t) ==> spec_parse_string_body(s@, pos as int, acc@) == Some(
            (t.0@, t.1 as int),
        ) && pos < t.1 <= s@.len(),
        r is None ==> spec_parse_string_body(s@, pos as int, acc@) is None,
    decreases s@.len() - pos,
{
    if pos >= s.len() {
        return None;
    }
    let c = s[pos];
    if c == '"' {
        Some((acc, pos + 1))
    } else if c == '\\' {
        if pos + 1 < s.len() {
            let e = s[pos + 1];
            let mut acc = acc;
            if e == 'n' {
                acc.push('\n');
            } else if e == 'r' {
                acc.push('\r');
            } else if e == 't' {
                acc.push('\t');
            } else if e == '\\' {
                acc.push('\\');
            } else if e == '"' {
                acc.push('"');
            } else if e == '\n' {
            } else {
                return None;
            }
            parse_string_body(s, pos + 2, acc)
        } else {
            None
        }
    } else {
        let mut acc = acc;
        acc.push(c);
        parse_string_body(s, pos + 1, acc)
    }
}

/// Parse a string literal, quotes included; the value is unescaped.
pub fn parse_string_literal(s: &Vec<char>, pos: usize) -> (r: Option<(String, usize)>)
    requires
        pos <= s@.len(),
    ensures
        r matches Some(t) ==> spec_parse_string_literal(s@, pos as int) == Some(
            (t.0@, t.1 as int),
        ) && pos < t.1 <= s@.len(),
        r is None ==> spec_parse_string_literal(s@, pos as int) is None,
{
    if pos < s.len() && s[pos] == '"' {
        match parse_string_body(s, pos + 1, Vec::new()) {
            Some((body, end)) => Some((chars_to_string(&body), end)),
            None => None,
        }
    } else {
        None
    }
}

} // verus!

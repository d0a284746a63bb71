//! How `serde_json` writes a string: in double quotes, with the characters
//! that JSON cannot hold as they are escaped. `serde_json` escapes each
//! byte of the text as its `ESCAPE` table says: `"` and `\` by a
//! backslash; backspace, tab, line feed, form feed and carriage return as
//! `\b`, `\t`, `\n`, `\f`, `\r`; the other bytes below 0x20 as `\u00`
//! and two lower-case hexadecimal digits; every other byte, the bytes of
//! characters beyond ASCII among them, as it is.

use vstd::prelude::*;

verus! {

/// The hexadecimal digit for `d` (below 16), in lower case.
pub open spec fn hex_digit(d: nat) -> char {
    "0123456789abcdef"@[d as int]
}

/// How `serde_json` writes one character inside a JSON string: a quote,
/// a backslash and the control characters are escaped, the others are
/// written as they are.
pub open spec fn escaped_char(c: char) -> Seq<char> {
    if c == '"' {
        seq!['\\', '"']
    } else if c == '\\' {
        seq!['\\', '\\']
    } else if c == '\x08' {
        seq!['\\', 'b']
    } else if c == '\t' {
        seq!['\\', 't']
    } else if c == '\n' {
        seq!['\\', 'n']
    } else if c == '\x0c' {
        seq!['\\', 'f']
    } else if c == '\r' {
        seq!['\\', 'r']
    } else if (c as nat) < 0x20 {
        seq!['\\', 'u', '0', '0', hex_digit((c as nat) / 16), hex_digit((c as nat) % 16)]
    } else {
        seq![c]
    }
}

/// The characters of a text, each escaped as `escaped_char` says.
pub open spec fn escaped(s: Seq<char>) -> Seq<char>
    decreases s.len(),
{
    if s.len() == 0 {
        seq![]
    } else {
        escaped(s.drop_last()) + escaped_char(s.last())
    }
}

/// A text as a JSON string: quoted and escaped.
pub open spec fn json_quoted(s: Seq<char>) -> Seq<char> {
    seq!['"'] + escaped(s) + seq!['"']
}

} // verus!

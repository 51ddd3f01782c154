//! How runtime values are written back as source text.
use vstd::prelude::*;
use crate::text::push_char;

verus! {

/// Whether `c` is a control character: the C0 codes `U+0000..=U+001F` and
/// the C1 codes `U+007F..=U+009F`.
pub open spec fn is_control(c: char) -> bool {
    (c as u32) <= 0x1F || (0x7F <= (c as u32) && (c as u32) <= 0x9F)
}

/// The lowercase hexadecimal digit for `d`, where `d < 16`.
pub open spec fn hex_digit(d: nat) -> char {
    if d < 10 {
        ((d + 48) as u8) as char
    } else {
        ((d + 87) as u8) as char
    }
}

/// How one character is written inside a string literal: quote, backslash,
/// newline, carriage return and tab by their short escapes, other control
/// characters as `\u{XXXX}` with four lowercase hex digits, everything else
/// as itself.
pub open spec fn escape_char(c: char) -> Seq<char> {
    let v = c as u32 as nat;
    if c == '"' {
        seq!['\\', '"']
    } else if c == '\\' {
        seq!['\\', '\\']
    } else if c == '\n' {
        seq!['\\', 'n']
    } else if c == '\r' {
        seq!['\\', 'r']
    } else if c == '\t' {
        seq!['\\', 't']
    } else if is_control(c) {
        seq![
            '\\',
            'u',
            '{',
            hex_digit((v / 4096) % 16),
            hex_digit((v / 256) % 16),
            hex_digit((v / 16) % 16),
            hex_digit(v % 16),
            '}',
        ]
    } else {
        seq![c]
    }
}

/// The text of `s` with every character escaped.
pub open spec fn escaped(s: Seq<char>) -> Seq<char>
    decreases s.len(),
{
    if s.len() == 0 {
        Seq::empty()
    } else {
        escaped(s.drop_last()) + escape_char(s.last())
    }
}

fn hex_char(d: u32) -> (c: char)
    requires
        d < 16,
    ensures
        c == hex_digit(d as nat),
{
    let b = d as u8;
    if b < 10 {
        (b + 48) as char
    } else {
        (b + 87) as char
    }
}

fn push_escaped_char(out: &mut String, c: char)
    ensures
        final(out)@ == old(out)@ + escape_char(c),
{
    let v = c as u32;
    if c == '"' {
        push_char(out, '\\');
        push_char(out, '"');
    } else if c == '\\' {
        push_char(out, '\\');
        push_char(out, '\\');
    } else if c == '\n' {
        push_char(out, '\\');
        push_char(out, 'n');
    } else if c == '\r' {
        push_char(out, '\\');
        push_char(out, 'r');
    } else if c == '\t' {
        push_char(out, '\\');
        push_char(out, 't');
    } else if v <= 0x1F || (0x7F <= v && v <= 0x9F) {
        push_char(out, '\\');
        push_char(out, 'u');
        push_char(out, '{');
        push_char(out, hex_char((v / 4096) % 16));
        push_char(out, hex_char((v / 256) % 16));
        push_char(out, hex_char((v / 16) % 16));
        push_char(out, hex_char(v % 16));
        push_char(out, '}');
    } else {
        push_char(out, c);
    }
    assert(final(out)@ =~= old(out)@ + escape_char(c));
}

/// Escapes `s` for a string literal: see [`escape_char`].
pub fn escape_string(s: &str) -> (r: String)
    ensures
        r@ == escaped(s@),
{
    let mut out = String::new();
    let n = s.unicode_len();
    let mut i: usize = 0;
    while i < n
        invariant
            n == s@.len(),
            i <= n,
            out@ == escaped(s@.take(i as int)),
        decreases n - i,
    {
        let c = s.get_char(i);
        push_escaped_char(&mut out, c);
        assert(s@.take(i + 1).drop_last() =~= s@.take(i as int));
        i = i + 1;
    }
    assert(s@.take(n as int) =~= s@);
    out
}

/// A lower-case hexadecimal digit.
pub open spec fn lower_hex_digit(d: nat) -> char {
    if d < 10 {
        (0x30 + d) as char
    } else {
        (0x61 + d - 10) as char
    }
}

/// Whether `c` is written as itself: printable ASCII other than the quote
/// and the backslash, or any character from `U+00A0` on.
pub open spec fn written_as_itself(c: char) -> bool {
    ||| (0x20 <= (c as u32) && (c as u32) <= 0x7E && c != '"' && c != '\\')
    ||| (c as u32) >= 0xA0
}

/// How each character is escaped: printable characters other than the quote
/// and the backslash stand for themselves; the quote, the backslash,
/// newline, carriage return and tab get their short escapes; every other
/// character below `U+00A0` is written `\u{00XY}` with its code in
/// lower-case hexadecimal.
pub proof fn law_escape_char(c: char)
    ensures
        written_as_itself(c) ==> escape_char(c) == seq![c],
        c == '"' ==> escape_char(c) == seq!['\\', '"'],
        c == '\\' ==> escape_char(c) == seq!['\\', '\\'],
        c == '\n' ==> escape_char(c) == seq!['\\', 'n'],
        c == '\r' ==> escape_char(c) == seq!['\\', 'r'],
        c == '\t' ==> escape_char(c) == seq!['\\', 't'],
        (!written_as_itself(c) && c != '"' && c != '\\' && c != '\n' && c != '\r' && c != '\t')
            ==> escape_char(c) == seq![
            '\\',
            'u',
            '{',
            '0',
            '0',
            lower_hex_digit((c as u32 as nat) / 16),
            lower_hex_digit((c as u32 as nat) % 16),
            '}',
        ],
{
    let v = c as u32 as nat;
    if !written_as_itself(c) && c != '"' && c != '\\' && c != '\n' && c != '\r' && c != '\t' {
        assert(v < 0xA0);
        assert((v / 4096) % 16 == 0 && (v / 256) % 16 == 0);
        assert((v / 16) % 16 == v / 16);
    }
}

/// Escaping goes character by character: the escape of a concatenation is
/// the concatenation of the escapes.
pub proof fn law_escaped_concat(a: Seq<char>, b: Seq<char>)
    ensures
        escaped(a + b) == escaped(a) + escaped(b),
    decreases b.len(),
{
    if b.len() == 0 {
        assert(a + b =~= a);
        assert(escaped(b) =~= Seq::<char>::empty());
        assert(escaped(a) + escaped(b) =~= escaped(a));
    } else {
        law_escaped_concat(a, b.drop_last());
        assert((a + b).drop_last() =~= a + b.drop_last());
        assert(escaped(a) + escaped(b) =~= escaped(a) + escaped(b.drop_last()) + escape_char(b.last()));
    }
}

/// A text made only of characters that are written as themselves is its own
/// escape.
pub proof fn law_escape_plain(s: Seq<char>)
    requires
        forall|i: int| 0 <= i < s.len() ==> written_as_itself(#[trigger] s[i]),
    ensures
        escaped(s) == s,
    decreases s.len(),
{
    if s.len() > 0 {
        law_escape_plain(s.drop_last());
        law_escape_char(s.last());
        assert(s.drop_last().push(s.last()) =~= s);
        assert(escaped(s.drop_last()) + seq![s.last()] =~= s.drop_last().push(s.last()));
    }
}

/// Why a runtime value cannot be read as a given host type.
#[derive(Debug, Clone, Copy, PartialEq, Eq, Structural)]
pub enum TypeError {
    /// The value's type is not the one asked for.
    Mismatch,
    /// An index lies outside the value.
    IndexOutOfBounds,
}

impl TypeError {
    /// The error's name, as it is displayed.
    pub fn to_string(&self) -> (r: String)
        ensures
            r@ == match self {
                TypeError::Mismatch => "Mismatch"@,
                TypeError::IndexOutOfBounds => "IndexOutOfBounds"@,
            },
    {
        match self {
            TypeError::Mismatch => String::from_str("Mismatch"),
            TypeError::IndexOutOfBounds => String::from_str("IndexOutOfBounds"),
        }
    }
}

} // verus!

//! Turning a byte offset into a source text into a line and a column, as
//! editors count them: lines from zero, columns in characters from zero.
use vstd::prelude::*;
use vstd::utf8::{encode_scalar, encode_utf8};

verus! {

broadcast use vstd::utf8::char_is_scalar;

/// A place in a text: the line and the column, both counted from zero, the
/// column in characters.
#[derive(Debug, Clone, Copy, PartialEq, Eq, Structural)]
pub struct Position {
    pub line: u32,
    pub character: u32,
}

/// The number of bytes that UTF-8 takes for `c`.
pub open spec fn char_width(c: char) -> nat {
    encode_scalar(c as u32).len()
}

/// The number of bytes that UTF-8 takes for the characters `s`.
pub open spec fn byte_len(s: Seq<char>) -> nat {
    encode_utf8(s).len()
}

/// How many characters of `s`, from index `i` on, are read before the byte
/// count of what was read reaches `offset` or the text ends.
pub open spec fn chars_before(s: Seq<char>, offset: int, i: nat) -> nat
    decreases s.len() - i,
{
    if i >= s.len() || byte_len(s.take(i as int)) >= offset {
        i
    } else {
        chars_before(s, offset, i + 1)
    }
}

/// The number of line breaks in `s`.
pub open spec fn line_breaks(s: Seq<char>) -> nat
    decreases s.len(),
{
    if s.len() == 0 {
        0
    } else {
        line_breaks(s.drop_last()) + if s.last() == '\n' {
            1nat
        } else {
            0nat
        }
    }
}

/// The number of characters of `s` after its last line break (all of them
/// if it has none).
pub open spec fn last_line_len(s: Seq<char>) -> nat
    decreases s.len(),
{
    if s.len() == 0 {
        0
    } else if s.last() == '\n' {
        0
    } else {
        last_line_len(s.drop_last()) + 1
    }
}

/// The position reached after reading the characters of `source` whose
/// bytes start before `offset`.
pub open spec fn position_of(source: Seq<char>, offset: int) -> (nat, nat) {
    let read = source.take(chars_before(source, offset, 0) as int);
    (line_breaks(read), last_line_len(read))
}

/// The number of newline characters `'\n'` in `s`, counted by filtering.
pub open spec fn newlines(s: Seq<char>) -> nat {
    s.filter(|c: char| c == '\n').len()
}

/// The line breaks counted are the newline characters: no other character
/// starts a line.
proof fn lemma_line_breaks_are_newlines(s: Seq<char>)
    ensures
        line_breaks(s) == newlines(s),
    decreases s.len(),
{
    reveal(Seq::filter);
    if s.len() > 0 {
        lemma_line_breaks_are_newlines(s.drop_last());
    }
}

/// The characters after the last line break: none of them is a newline, and
/// the one before them, if any, is.
proof fn lemma_last_line(s: Seq<char>)
    ensures
        last_line_len(s) <= s.len(),
        forall|i: int| s.len() - last_line_len(s) <= i < s.len() ==> s[i] != '\n',
        last_line_len(s) < s.len() ==> s[s.len() - last_line_len(s) - 1] == '\n',
    decreases s.len(),
{
    if s.len() > 0 {
        let t = s.drop_last();
        lemma_last_line(t);
        assert forall|i: int| s.len() - last_line_len(s) <= i < s.len() implies s[i] != '\n' by {
            if i < s.len() - 1 {
                assert(s[i] == t[i]);
            }
        }
        if last_line_len(s) < s.len() && s.last() != '\n' {
            assert(s[s.len() - last_line_len(s) - 1] == t[t.len() - last_line_len(t) - 1]);
        }
    }
}

/// Reading stops within the text.
proof fn lemma_chars_before_bound(s: Seq<char>, offset: int, i: nat)
    requires
        i <= s.len(),
    ensures
        i <= chars_before(s, offset, i) <= s.len(),
    decreases s.len() - i,
{
    if !(i >= s.len() || byte_len(s.take(i as int)) >= offset) {
        lemma_chars_before_bound(s, offset, i + 1);
    }
}

/// The line of a position is the number of newline characters read before
/// it, and its column the number of characters read since the last of them;
/// no other character, a carriage return included, starts a line.
pub proof fn law_position_counts(source: Seq<char>, offset: int)
    ensures
        ({
            let read = source.take(chars_before(source, offset, 0) as int);
            let (line, col) = position_of(source, offset);
            &&& line == newlines(read)
            &&& col <= read.len()
            &&& forall|i: int| read.len() - col <= i < read.len() ==> read[i] != '\n'
            &&& col < read.len() ==> read[read.len() - col - 1] == '\n'
        }),
{
    lemma_chars_before_bound(source, offset, 0);
    let read = source.take(chars_before(source, offset, 0) as int);
    lemma_line_breaks_are_newlines(read);
    lemma_last_line(read);
}

/// UTF-8 lengths add up over a concatenation.
proof fn lemma_byte_len_concat(a: Seq<char>, b: Seq<char>)
    ensures
        byte_len(a + b) == byte_len(a) + byte_len(b),
    decreases a.len(),
{
    if a.len() == 0 {
        assert(a + b =~= b);
    } else {
        assert((a + b).drop_first() =~= a.drop_first() + b);
        lemma_byte_len_concat(a.drop_first(), b);
    }
}

/// Reading one more character adds its width to the byte count.
proof fn lemma_byte_len_step(s: Seq<char>, i: int)
    requires
        0 <= i < s.len(),
    ensures
        byte_len(s.take(i + 1)) == byte_len(s.take(i)) + char_width(s[i]),
        byte_len(s.take(i + 1)) <= byte_len(s),
{
    assert(s.take(i + 1) =~= s.take(i) + seq![s[i]]);
    lemma_byte_len_concat(s.take(i), seq![s[i]]);
    assert(seq![s[i]].drop_first() =~= Seq::<char>::empty());
    assert(encode_utf8(seq![s[i]]) =~= encode_scalar(s[i] as u32)) by {
        reveal_with_fuel(encode_utf8, 2);
    }
    assert(s =~= s.take(i + 1) + s.skip(i + 1));
    lemma_byte_len_concat(s.take(i + 1), s.skip(i + 1));
}

/// The number of bytes that UTF-8 takes for `c`.
fn utf8_width(c: char) -> (w: usize)
    ensures
        w == char_width(c),
        1 <= w <= 4,
{
    let v = c as u32;
    if v < 0x80 {
        1
    } else if v < 0x800 {
        2
    } else if v < 0x10000 {
        3
    } else {
        4
    }
}

/// The line and column of byte `offset` in `source`: the characters whose
/// bytes start before `offset` are read, each line break starts a new line,
/// and every other character moves one column on. An offset past the end
/// gives the position at the end.
pub fn offset_to_position(source: &str, offset: usize) -> (p: Position)
    requires
        source@.len() <= u32::MAX,
    ensures
        (p.line as nat, p.character as nat) == position_of(source@, offset as int),
        ({
            let read = source@.take(chars_before(source@, offset as int, 0) as int);
            &&& p.line == newlines(read)
            &&& p.character <= read.len()
            &&& forall|i: int| read.len() - p.character <= i < read.len() ==> read[i] != '\n'
            &&& p.character < read.len() ==> read[read.len() - p.character - 1] == '\n'
        }),
{
    proof {
        law_position_counts(source@, offset as int);
    }
    let ghost s = source@;
    let total = source.as_bytes().len();
    let mut line: u32 = 0;
    let mut col: u32 = 0;
    let mut current: usize = 0;
    let mut i: usize = 0;
    assert(s.take(0) =~= Seq::<char>::empty());
    for ch in it: source.chars()
        invariant_except_break
            s == source@,
            it.seq() == s,
            i == it.index(),
            i <= s.len() <= u32::MAX,
            total == byte_len(s),
            current == byte_len(s.take(i as int)),
            line == line_breaks(s.take(i as int)),
            col == last_line_len(s.take(i as int)),
            line <= i,
            col <= i,
            chars_before(s, offset as int, 0) == chars_before(s, offset as int, i as nat),
        ensures
            (line as nat, col as nat) == position_of(source@, offset as int),
    {
        assert(ch == s[i as int]);
        if current >= offset {
            break;
        }
        proof {
            lemma_byte_len_step(s, i as int);
            assert(s.take(i + 1).drop_last() =~= s.take(i as int));
        }
        if ch == '\n' {
            line = line + 1;
            col = 0;
        } else {
            col = col + 1;
        }
        current = current + utf8_width(ch);
        i = i + 1;
    }
    proof {
        if i == s.len() {
            assert(s.take(i as int) =~= s);
        }
    }
    Position { line, character: col }
}

} // verus!

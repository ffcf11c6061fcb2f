//! The escape vocabulary of a frame, and the model that frames are stated
//! over: a frame is a sequence of instructions, and its text is their
//! encodings one after the other.

use crate::color::Color;
use crate::text::{decimal, is_digit, lemma_decimal_digits, push_decimal};
use vstd::prelude::*;

verus! {

/// The escape character that opens every control sequence.
pub open spec fn esc() -> char {
    '\u{1b}'
}

/// One step of drawing a frame.
pub enum Instr {
    /// Clear the screen and reset the terminal.
    ClearScreen,
    /// Move the cursor to a column and a row, both counted from zero.
    Goto { col: nat, row: nat },
    /// Paint the cells written from here on in this background colour.
    SetColor(Color),
    /// Give up every style set so far.
    ResetStyle,
    /// Write these characters at the cursor.
    Text(Seq<char>),
}

/// What an instruction does, without its operands.
pub enum Kind {
    ClearScreen,
    Goto,
    SetColor,
    ResetStyle,
    Text,
}

impl Instr {
    /// The kind of this instruction.
    pub open spec fn kind(self) -> Kind {
        match self {
            Instr::ClearScreen => Kind::ClearScreen,
            Instr::Goto { .. } => Kind::Goto,
            Instr::SetColor(_) => Kind::SetColor,
            Instr::ResetStyle => Kind::ResetStyle,
            Instr::Text(_) => Kind::Text,
        }
    }

    /// The characters that carry this instruction to the terminal. The
    /// terminal counts rows and columns from one, and names the row first.
    pub open spec fn text(self) -> Seq<char> {
        match self {
            Instr::ClearScreen => seq![esc(), 'c'],
            Instr::Goto { col, row } => seq![esc(), '['] + decimal(row + 1) + seq![';'] + decimal(
                col + 1,
            ) + seq!['H'],
            Instr::SetColor(color) => seq![esc(), '['] + color.code() + seq!['m'],
            Instr::ResetStyle => seq![esc(), '[', '0', 'm'],
            Instr::Text(t) => t,
        }
    }
}

/// The text of a frame: the encodings of its instructions in order.
pub open spec fn encode(instrs: Seq<Instr>) -> Seq<char>
    decreases instrs.len(),
{
    if instrs.len() == 0 {
        Seq::empty()
    } else {
        encode(instrs.drop_last()) + instrs.last().text()
    }
}

/// How many instructions of `instrs` are of kind `kind`.
pub open spec fn count(instrs: Seq<Instr>, kind: Kind) -> nat
    decreases instrs.len(),
{
    if instrs.len() == 0 {
        0
    } else {
        count(instrs.drop_last(), kind) + if instrs.last().kind() == kind {
            1nat
        } else {
            0nat
        }
    }
}

/// Encoding one instruction gives its text.
pub proof fn lemma_encode_one(i: Instr)
    ensures
        encode(seq![i]) == i.text(),
{
    let s = seq![i];
    assert(s.drop_last() =~= Seq::<Instr>::empty());
    assert(encode(s.drop_last()) =~= Seq::<char>::empty());
    assert(s.last() == i);
    assert(encode(s) =~= i.text());
}

/// One instruction counts once for its own kind and not at all for another.
pub proof fn lemma_count_one(i: Instr, kind: Kind)
    ensures
        count(seq![i], kind) == if i.kind() == kind {
            1nat
        } else {
            0nat
        },
{
    let s = seq![i];
    assert(s.drop_last() =~= Seq::<Instr>::empty());
    assert(count(s.drop_last(), kind) == 0);
    assert(s.last() == i);
}

/// Encoding distributes over concatenation.
pub proof fn lemma_encode_concat(a: Seq<Instr>, b: Seq<Instr>)
    ensures
        encode(a + b) == encode(a) + encode(b),
    decreases b.len(),
{
    if b.len() == 0 {
        assert(a + b =~= a);
        assert(encode(a) + encode(b) =~= encode(a));
    } else {
        assert((a + b).drop_last() =~= a + b.drop_last());
        assert((a + b).last() == b.last());
        lemma_encode_concat(a, b.drop_last());
        assert(encode(a + b) =~= encode(a) + encode(b));
    }
}

/// Counting distributes over concatenation.
pub proof fn lemma_count_concat(a: Seq<Instr>, b: Seq<Instr>, kind: Kind)
    ensures
        count(a + b, kind) == count(a, kind) + count(b, kind),
    decreases b.len(),
{
    if b.len() == 0 {
        assert(a + b =~= a);
    } else {
        assert((a + b).drop_last() =~= a + b.drop_last());
        assert((a + b).last() == b.last());
        lemma_count_concat(a, b.drop_last(), kind);
    }
}

/// How often the character `c` occurs in `s`.
pub open spec fn occurrences(s: Seq<char>, c: char) -> nat
    decreases s.len(),
{
    if s.len() == 0 {
        0
    } else {
        occurrences(s.drop_last(), c) + if s.last() == c {
            1nat
        } else {
            0nat
        }
    }
}

/// Occurrences add up over concatenation.
pub proof fn lemma_occurrences_concat(a: Seq<char>, b: Seq<char>, c: char)
    ensures
        occurrences(a + b, c) == occurrences(a, c) + occurrences(b, c),
    decreases b.len(),
{
    if b.len() == 0 {
        assert(a + b =~= a);
    } else {
        assert((a + b).drop_last() =~= a + b.drop_last());
        assert((a + b).last() == b.last());
        lemma_occurrences_concat(a, b.drop_last(), c);
    }
}

/// A character that is nowhere in a text occurs in it zero times.
pub proof fn lemma_occurrences_absent(s: Seq<char>, c: char)
    requires
        forall|i: int| 0 <= i < s.len() ==> #[trigger] s[i] != c,
    ensures
        occurrences(s, c) == 0,
    decreases s.len(),
{
    if s.len() > 0 {
        lemma_occurrences_absent(s.drop_last(), c);
    }
}

/// The letter `H` ends the sequence that places the cursor and occurs in
/// no other sequence: once in the text of a placement, never in the text of
/// another escape.
pub proof fn lemma_cursor_mark(i: Instr)
    requires
        !(i is Text),
    ensures
        occurrences(i.text(), 'H') == if i is Goto {
            1nat
        } else {
            0nat
        },
{
    match i {
        Instr::Goto { col, row } => {
            let head = seq![esc(), '['];
            let mid = seq![';'];
            let end = seq!['H'];
            lemma_decimal_digits(row + 1);
            lemma_decimal_digits(col + 1);
            let rows = decimal(row + 1);
            let cols = decimal(col + 1);
            assert forall|k: int| 0 <= k < rows.len() implies #[trigger] rows[k] != 'H' by {
                assert(is_digit(rows[k]));
            }
            assert forall|k: int| 0 <= k < cols.len() implies #[trigger] cols[k] != 'H' by {
                assert(is_digit(cols[k]));
            }
            lemma_occurrences_absent(head, 'H');
            lemma_occurrences_absent(rows, 'H');
            lemma_occurrences_absent(mid, 'H');
            lemma_occurrences_absent(cols, 'H');
            assert(end.drop_last() =~= Seq::<char>::empty());
            assert(occurrences(end.drop_last(), 'H') == 0);
            assert(end.last() == 'H');
            assert(occurrences(end, 'H') == 1);
            lemma_occurrences_concat(head, decimal(row + 1), 'H');
            lemma_occurrences_concat(head + decimal(row + 1), mid, 'H');
            lemma_occurrences_concat(head + decimal(row + 1) + mid, decimal(col + 1), 'H');
            lemma_occurrences_concat(
                head + decimal(row + 1) + mid + decimal(col + 1),
                end,
                'H',
            );
        },
        Instr::SetColor(color) => {
            let text = i.text();
            match color {
                Color::Fixed(n) => {
                    lemma_decimal_digits(n as nat);
                    assert forall|k: int| 0 <= k < text.len() implies #[trigger] text[k] != 'H' by {
                        if 7 <= k < text.len() - 1 {
                            assert(text[k] == decimal(n as nat)[k - 7]);
                            assert(is_digit(decimal(n as nat)[k - 7]));
                        }
                    }
                },
                _ => {},
            }
            lemma_occurrences_absent(text, 'H');
        },
        _ => {
            lemma_occurrences_absent(i.text(), 'H');
        },
    }
}

/// In a frame whose pieces of text hold no `H`, the letter `H` occurs once
/// for every placement of the cursor.
pub proof fn lemma_cursor_marks(instrs: Seq<Instr>)
    requires
        forall|k: int|
            0 <= k < instrs.len() && instrs[k] is Text ==> occurrences(
                #[trigger] instrs[k].text(),
                'H',
            ) == 0,
    ensures
        occurrences(encode(instrs), 'H') == count(instrs, Kind::Goto),
    decreases instrs.len(),
{
    if instrs.len() > 0 {
        let last = instrs.last();
        lemma_cursor_marks(instrs.drop_last());
        lemma_occurrences_concat(encode(instrs.drop_last()), last.text(), 'H');
        if !(last is Text) {
            lemma_cursor_mark(last);
        }
    }
}

/// Appends the sequence that clears the screen.
pub fn write_clear(out: &mut String)
    ensures
        final(out)@ == old(out)@ + Instr::ClearScreen.text(),
{
    proof {
        reveal_strlit("\u{1b}c");
    }
    out.append("\u{1b}c");
    assert(final(out)@ =~= old(out)@ + Instr::ClearScreen.text());
}

/// Appends the sequence that moves the cursor to column `col` and row
/// `row`, both counted from zero.
pub fn write_goto(out: &mut String, col: u32, row: u32)
    ensures
        final(out)@ == old(out)@ + (Instr::Goto { col: col as nat, row: row as nat }).text(),
{
    proof {
        reveal_strlit("\u{1b}[");
        reveal_strlit(";");
        reveal_strlit("H");
    }
    out.append("\u{1b}[");
    push_decimal(out, row as u64 + 1);
    out.append(";");
    push_decimal(out, col as u64 + 1);
    out.append("H");
    assert(final(out)@ =~= old(out)@ + (Instr::Goto { col: col as nat, row: row as nat }).text());
}

/// Appends the sequence that sets the background colour.
pub fn write_color(out: &mut String, color: Color)
    ensures
        final(out)@ == old(out)@ + Instr::SetColor(color).text(),
{
    proof {
        reveal_strlit("\u{1b}[");
        reveal_strlit("m");
    }
    out.append("\u{1b}[");
    let code = color.to_escape_fragment();
    out.append(code.as_str());
    out.append("m");
    assert(final(out)@ =~= old(out)@ + Instr::SetColor(color).text());
}

/// Appends the sequence that resets the style.
pub fn write_reset(out: &mut String)
    ensures
        final(out)@ == old(out)@ + Instr::ResetStyle.text(),
{
    proof {
        reveal_strlit("\u{1b}[0m");
    }
    out.append("\u{1b}[0m");
    assert(final(out)@ =~= old(out)@ + Instr::ResetStyle.text());
}

} // verus!

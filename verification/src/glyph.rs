//! The digit font and the drawing of one digit.
//!
//! A digit is a grid of three columns and five rows. Every cell is drawn as
//! two spaces, painted in the chosen colour where the cell is set. The
//! colour is switched on only where a run of set cells begins and off only
//! where it ends, and a run may go on from the end of one row into the
//! start of the next.

use crate::ansi::{
    count, encode, lemma_count_concat, lemma_count_one, lemma_cursor_marks, lemma_encode_concat,
    lemma_encode_one, lemma_occurrences_absent, occurrences, write_color, write_goto, write_reset,
    Instr, Kind,
};
use crate::color::Color;
use vstd::prelude::*;

verus! {

/// Columns of a glyph's grid.
pub const GRID_COLUMNS: u16 = 3;

/// Terminal columns that one digit takes: two for every column of the grid.
pub const NUMBER_WIDTH: u16 = 6;

/// Terminal rows that one digit takes.
pub const NUMBER_HEIGHT: u16 = 5;

/// The font: for each digit its grid, row by row from the top, each row
/// from left to right.
pub const NUMBER_TABLE: [[bool; 15]; 10] = [
    [true, true, true, true, false, true, true, false, true, true, false, true, true, true, true],
    [false, false, true, false, false, true, false, false, true, false, false, true, false, false, true],
    [true, true, true, false, false, true, true, true, true, true, false, false, true, true, true],
    [true, true, true, false, false, true, true, true, true, false, false, true, true, true, true],
    [true, false, true, true, false, true, true, true, true, false, false, true, false, false, true],
    [true, true, true, true, false, false, true, true, true, false, false, true, true, true, true],
    [true, true, true, true, false, false, true, true, true, true, false, true, true, true, true],
    [true, true, true, false, false, true, false, false, true, false, false, true, false, false, true],
    [true, true, true, true, false, true, true, true, true, true, false, true, true, true, true],
    [true, true, true, true, false, true, true, true, true, false, false, true, true, true, true],
];

/// The grid of digit `d`.
pub open spec fn glyph(d: int) -> Seq<bool>
    recommends
        0 <= d < 10,
{
    NUMBER_TABLE[d]@
}

/// Whether cell `i` of `g` exists and is set.
pub open spec fn lit(g: Seq<bool>, i: int) -> bool {
    0 <= i < g.len() && g[i]
}

/// Whether a run of set cells begins at cell `i`.
pub open spec fn run_starts_at(g: Seq<bool>, i: int) -> bool {
    lit(g, i) && !lit(g, i - 1)
}

/// Whether a run of set cells has just ended before cell `i`.
pub open spec fn run_ended_at(g: Seq<bool>, i: int) -> bool {
    !lit(g, i) && lit(g, i - 1)
}

/// The number of maximal runs of set cells that begin among the first `n`
/// cells of `g`, the grid read row by row as one line of cells.
pub open spec fn runs(g: Seq<bool>, n: nat) -> nat
    decreases n,
{
    if n == 0 {
        0
    } else {
        runs(g, (n - 1) as nat) + if run_starts_at(g, n - 1) {
            1nat
        } else {
            0nat
        }
    }
}

/// Two spaces: one cell on the screen.
pub open spec fn blank() -> Seq<char> {
    seq![' ', ' ']
}

/// The instructions that draw cell `i` of `g`, for a glyph whose top left
/// corner is at column `left` and row `top`: the cursor is placed where a
/// row begins, the colour is set where a run begins, the style is reset
/// where a run has ended, and the cell itself is two spaces.
pub open spec fn cell_instrs(g: Seq<bool>, i: int, left: nat, top: nat, color: Color) -> Seq<
    Instr,
> {
    let place = if i % 3 == 0 {
        seq![Instr::Goto { col: left, row: (top + i / 3) as nat }]
    } else {
        Seq::empty()
    };
    let style = if run_starts_at(g, i) {
        seq![Instr::SetColor(color)]
    } else if run_ended_at(g, i) {
        seq![Instr::ResetStyle]
    } else {
        Seq::empty()
    };
    place + style + seq![Instr::Text(blank())]
}

/// The instructions that draw the first `n` cells of `g`.
pub open spec fn cells_instrs(g: Seq<bool>, n: nat, left: nat, top: nat, color: Color) -> Seq<
    Instr,
>
    decreases n,
{
    if n == 0 {
        Seq::empty()
    } else {
        cells_instrs(g, (n - 1) as nat, left, top, color) + cell_instrs(
            g,
            n - 1,
            left,
            top,
            color,
        )
    }
}

/// The instructions that draw digit `d` with its top left corner at column
/// `left` and row `top`: all fifteen cells, then one reset of the style,
/// whatever the last cell was.
pub open spec fn digit_instrs(d: int, left: nat, top: nat, color: Color) -> Seq<Instr>
    recommends
        0 <= d < 10,
{
    cells_instrs(glyph(d), 15, left, top, color) + seq![Instr::ResetStyle]
}

/// The text that draws digit `d`.
pub open spec fn digit_text(d: int, left: nat, top: nat, color: Color) -> Seq<char>
    recommends
        0 <= d < 10,
{
    encode(digit_instrs(d, left, top, color))
}

/// Appends the drawing of digit `number` to `out`, with its top left
/// corner at column `left` and row `top`.
pub fn format_number(out: &mut String, number: usize, left: u16, top: u16, color: Color)
    requires
        number < 10,
    ensures
        final(out)@ == old(out)@ + digit_text(number as int, left as nat, top as nat, color),
{
    let ghost g = glyph(number as int);
    let mut i: usize = 0;
    let mut filled = false;
    let mut y: u16 = 0;
    assert(old(out)@ + encode(Seq::<Instr>::empty()) =~= old(out)@);
    while y < NUMBER_HEIGHT
        invariant
            number < 10,
            g == glyph(number as int),
            y <= NUMBER_HEIGHT,
            i == 3 * y,
            filled == lit(g, i - 1),
            out@ == old(out)@ + encode(cells_instrs(g, i as nat, left as nat, top as nat, color)),
        decreases NUMBER_HEIGHT - y,
    {
        let ghost row_start = out@;
        let ghost done = cells_instrs(g, i as nat, left as nat, top as nat, color);
        write_goto(out, left as u32, top as u32 + y as u32);
        let ghost goto = Instr::Goto { col: left as nat, row: (top + y) as nat };
        let mut x: u16 = 0;
        while x < GRID_COLUMNS
            invariant
                number < 10,
                g == glyph(number as int),
                y < NUMBER_HEIGHT,
                x <= GRID_COLUMNS,
                i == 3 * y + x,
                filled == lit(g, i - 1),
                goto == (Instr::Goto { col: left as nat, row: (top + y) as nat }),
                x == 0 ==> out@ == old(out)@ + encode(
                    cells_instrs(g, i as nat, left as nat, top as nat, color),
                ) + goto.text(),
                x > 0 ==> out@ == old(out)@ + encode(
                    cells_instrs(g, i as nat, left as nat, top as nat, color),
                ),
            decreases GRID_COLUMNS - x,
        {
            let ghost before = out@;
            let ghost prefix = cells_instrs(g, i as nat, left as nat, top as nat, color);
            let ghost cell = cell_instrs(g, i as int, left as nat, top as nat, color);
            let ghost place = if x == 0 {
                seq![goto]
            } else {
                Seq::<Instr>::empty()
            };
            let ghost style;
            if NUMBER_TABLE[number][i] {
                if !filled {
                    write_color(out, color);
                    filled = true;
                    proof {
                        style = seq![Instr::SetColor(color)];
                        lemma_encode_one(Instr::SetColor(color));
                    }
                } else {
                    proof {
                        style = Seq::<Instr>::empty();
                    }
                }
            } else if filled {
                write_reset(out);
                filled = false;
                proof {
                    style = seq![Instr::ResetStyle];
                    lemma_encode_one(Instr::ResetStyle);
                }
            } else {
                proof {
                    style = Seq::<Instr>::empty();
                }
            }
            proof {
                reveal_strlit("  ");
            }
            out.append("  ");
            proof {
                assert("  "@ =~= blank());
                assert(cell == place + style + seq![Instr::Text(blank())]);
                lemma_encode_one(goto);
                lemma_encode_one(Instr::Text(blank()));
                lemma_encode_concat(place, style);
                lemma_encode_concat(place + style, seq![Instr::Text(blank())]);
                lemma_encode_concat(prefix, cell);
                assert(cells_instrs(g, (i + 1) as nat, left as nat, top as nat, color) == prefix
                    + cell);
                assert(encode(place) =~= if x == 0 {
                    goto.text()
                } else {
                    Seq::<char>::empty()
                });
                assert(out@ =~= old(out)@ + encode(prefix + cell));
            }
            i += 1;
            x += 1;
        }
        y += 1;
    }
    write_reset(out);
    proof {
        let cells = cells_instrs(g, 15, left as nat, top as nat, color);
        lemma_encode_one(Instr::ResetStyle);
        lemma_encode_concat(cells, seq![Instr::ResetStyle]);
        assert(final(out)@ =~= old(out)@ + digit_text(
            number as int,
            left as nat,
            top as nat,
            color,
        ));
    }
}

/// The text that draws digit `digit` with its top left corner at column
/// `column` and row `row`.
pub fn render_digit(digit: usize, column: u16, row: u16, color: Color) -> (frame: String)
    requires
        digit < 10,
    ensures
        frame@ == digit_text(digit as int, column as nat, row as nat, color),
{
    let mut frame = String::new();
    format_number(&mut frame, digit, column, row, color);
    assert(frame@ =~= digit_text(digit as int, column as nat, row as nat, color));
    frame
}

/// What drawing one cell adds to the counts: a cursor placement where a row
/// begins, a colour where a run begins, a reset where a run has ended, and
/// always one piece of text.
pub proof fn lemma_cell_counts(g: Seq<bool>, i: int, left: nat, top: nat, color: Color)
    ensures
        count(cell_instrs(g, i, left, top, color), Kind::Goto) == if i % 3 == 0 {
            1nat
        } else {
            0nat
        },
        count(cell_instrs(g, i, left, top, color), Kind::SetColor) == if run_starts_at(g, i) {
            1nat
        } else {
            0nat
        },
        count(cell_instrs(g, i, left, top, color), Kind::ResetStyle) == if run_ended_at(g, i) {
            1nat
        } else {
            0nat
        },
        count(cell_instrs(g, i, left, top, color), Kind::Text) == 1,
        count(cell_instrs(g, i, left, top, color), Kind::ClearScreen) == 0,
        cell_instrs(g, i, left, top, color).len() >= 1,
        cell_instrs(g, i, left, top, color).last() == Instr::Text(blank()),
{
    let goto = Instr::Goto { col: left, row: (top + i / 3) as nat };
    let place = if i % 3 == 0 {
        seq![goto]
    } else {
        Seq::<Instr>::empty()
    };
    let style = if run_starts_at(g, i) {
        seq![Instr::SetColor(color)]
    } else if run_ended_at(g, i) {
        seq![Instr::ResetStyle]
    } else {
        Seq::<Instr>::empty()
    };
    let cell = seq![Instr::Text(blank())];
    assert(cell_instrs(g, i, left, top, color) == place + style + cell);
    assert forall|kind: Kind|
        count(place + style + cell, kind) == count(place, kind) + count(style, kind) + count(
            cell,
            kind,
        ) by {
        lemma_count_concat(place, style, kind);
        lemma_count_concat(place + style, cell, kind);
    }
    assert forall|kind: Kind| #![auto]
        count(seq![goto], kind) == if kind == Kind::Goto {
            1nat
        } else {
            0nat
        } by {
        lemma_count_one(goto, kind);
    }
    assert forall|kind: Kind| #![auto]
        count(seq![Instr::SetColor(color)], kind) == if kind == Kind::SetColor {
            1nat
        } else {
            0nat
        } by {
        lemma_count_one(Instr::SetColor(color), kind);
    }
    assert forall|kind: Kind| #![auto]
        count(seq![Instr::ResetStyle], kind) == if kind == Kind::ResetStyle {
            1nat
        } else {
            0nat
        } by {
        lemma_count_one(Instr::ResetStyle, kind);
    }
    assert forall|kind: Kind| #![auto]
        count(cell, kind) == if kind == Kind::Text {
            1nat
        } else {
            0nat
        } by {
        lemma_count_one(Instr::Text(blank()), kind);
    }
    assert forall|kind: Kind| #![auto] count(Seq::<Instr>::empty(), kind) == 0 by {}
}

/// The counts over the first `n` cells of a grid: one cursor placement for
/// every row begun, one colour for every run begun, and two spaces for every
/// cell; the last instruction, if there is any, writes a cell.
pub proof fn lemma_cells_counts(g: Seq<bool>, n: nat, left: nat, top: nat, color: Color)
    ensures
        count(cells_instrs(g, n, left, top, color), Kind::Goto) == (n + 2) / 3,
        count(cells_instrs(g, n, left, top, color), Kind::SetColor) == runs(g, n),
        count(cells_instrs(g, n, left, top, color), Kind::Text) == n,
        count(cells_instrs(g, n, left, top, color), Kind::ClearScreen) == 0,
        n > 0 ==> cells_instrs(g, n, left, top, color).len() >= 1 && cells_instrs(
            g,
            n,
            left,
            top,
            color,
        ).last() == Instr::Text(blank()),
    decreases n,
{
    if n > 0 {
        let before = cells_instrs(g, (n - 1) as nat, left, top, color);
        let cell = cell_instrs(g, n - 1, left, top, color);
        lemma_cells_counts(g, (n - 1) as nat, left, top, color);
        lemma_cell_counts(g, n - 1, left, top, color);
        lemma_count_concat(before, cell, Kind::Goto);
        lemma_count_concat(before, cell, Kind::SetColor);
        lemma_count_concat(before, cell, Kind::Text);
        lemma_count_concat(before, cell, Kind::ClearScreen);
        assert((before + cell).last() == cell.last());
    }
}

/// The drawing of every digit places the cursor exactly five times, once
/// for each row; sets the colour exactly once for every maximal run of set
/// cells in the grid read row by row; never clears the screen; and ends in
/// exactly one reset of the style, which follows the two spaces of the last
/// cell.
pub proof fn lemma_digit_shape(d: int, left: nat, top: nat, color: Color)
    requires
        0 <= d < 10,
    ensures
        count(digit_instrs(d, left, top, color), Kind::Goto) == 5,
        count(digit_instrs(d, left, top, color), Kind::SetColor) == runs(glyph(d), 15),
        count(digit_instrs(d, left, top, color), Kind::ClearScreen) == 0,
        digit_instrs(d, left, top, color).len() >= 2,
        digit_instrs(d, left, top, color).last() == Instr::ResetStyle,
        digit_instrs(d, left, top, color)[digit_instrs(d, left, top, color).len() - 2]
            == Instr::Text(blank()),
{
    let cells = cells_instrs(glyph(d), 15, left, top, color);
    let end = seq![Instr::ResetStyle];
    lemma_cells_counts(glyph(d), 15, left, top, color);
    lemma_count_concat(cells, end, Kind::Goto);
    lemma_count_concat(cells, end, Kind::SetColor);
    lemma_count_concat(cells, end, Kind::ClearScreen);
    lemma_count_one(Instr::ResetStyle, Kind::Goto);
    lemma_count_one(Instr::ResetStyle, Kind::SetColor);
    lemma_count_one(Instr::ResetStyle, Kind::ClearScreen);
    assert((cells + end).last() == Instr::ResetStyle);
    assert((cells + end)[(cells + end).len() - 2] == cells.last());
}

/// The only text in the drawing of cells is the two spaces of a cell.
pub proof fn lemma_cells_text_is_blank(g: Seq<bool>, n: nat, left: nat, top: nat, color: Color)
    ensures
        forall|k: int|
            0 <= k < cells_instrs(g, n, left, top, color).len() && cells_instrs(
                g,
                n,
                left,
                top,
                color,
            )[k] is Text ==> #[trigger] cells_instrs(g, n, left, top, color)[k] == Instr::Text(
                blank(),
            ),
    decreases n,
{
    if n > 0 {
        lemma_cells_text_is_blank(g, (n - 1) as nat, left, top, color);
    }
}

/// In the text of every digit the letter `H`, which ends each placement of
/// the cursor, occurs exactly five times, and the text ends in the two
/// spaces of the last cell and one reset of the style.
pub proof fn lemma_digit_text_shape(d: int, left: nat, top: nat, color: Color)
    requires
        0 <= d < 10,
    ensures
        occurrences(digit_text(d, left, top, color), 'H') == 5,
        digit_text(d, left, top, color) == encode(
            digit_instrs(d, left, top, color).drop_last().drop_last(),
        ) + blank() + Instr::ResetStyle.text(),
{
    let instrs = digit_instrs(d, left, top, color);
    let cells = cells_instrs(glyph(d), 15, left, top, color);
    lemma_digit_shape(d, left, top, color);
    lemma_cells_text_is_blank(glyph(d), 15, left, top, color);
    lemma_occurrences_absent(blank(), 'H');
    assert forall|k: int| 0 <= k < instrs.len() && instrs[k] is Text implies occurrences(
        #[trigger] instrs[k].text(),
        'H',
    ) == 0 by {
        if k < cells.len() {
            assert(instrs[k] == cells[k]);
        }
    }
    lemma_cursor_marks(instrs);
    let body = instrs.drop_last();
    assert(body =~= cells);
    assert(body.last() == Instr::Text(blank()));
    assert(encode(instrs) == encode(body) + Instr::ResetStyle.text());
    assert(encode(body) == encode(body.drop_last()) + blank());
}

} // verus!

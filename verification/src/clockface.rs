//! The whole face of the clock: the Unix time in block numerals, and under
//! them the same instant as a calendar date and time of day.

use crate::ansi::{encode, lemma_encode_concat, lemma_encode_one, write_goto, Instr};
use crate::color::Color;
use crate::glyph::{digit_instrs, digit_text, format_number, NUMBER_HEIGHT, NUMBER_WIDTH};
use vstd::prelude::*;

verus! {

/// Column of the first numeral.
pub const LEFT_MARGIN: u16 = 0;

/// Row of the numerals' top edge.
pub const TOP_MARGIN: u16 = 1;

/// Columns from one numeral to the next: its width and a gap of one.
pub const STEP: u16 = NUMBER_WIDTH + 1;

/// Row of the label, one row below the numerals.
pub const LABEL_ROW: u16 = TOP_MARGIN + NUMBER_HEIGHT + 1;

/// Row on which the cursor is left, just below the label.
pub const REST_ROW: u16 = TOP_MARGIN + NUMBER_HEIGHT + 2;

/// The first second that has a calendar date: the start of the year
/// -262143.
pub const MIN_INSTANT: i64 = -8334601228800;

/// The last second that has a calendar date: the end of the year 262142.
pub const MAX_INSTANT: i64 = 8210266876799;

/// The decimal digits of `n`, most significant first; none at all where `n`
/// is zero or negative.
pub open spec fn digits_of(n: int) -> Seq<int>
    decreases n,
{
    if n <= 0 {
        Seq::empty()
    } else {
        digits_of(n / 10).push(n % 10)
    }
}

/// The instructions that draw the first `k` of `digits` side by side, from
/// the left margin on, each one step to the right of the one before.
pub open spec fn numerals_instrs(digits: Seq<int>, k: nat, color: Color) -> Seq<Instr>
    decreases k,
{
    if k == 0 {
        Seq::empty()
    } else {
        numerals_instrs(digits, (k - 1) as nat, color) + digit_instrs(
            digits[k - 1],
            (LEFT_MARGIN + (k - 1) * STEP) as nat,
            TOP_MARGIN as nat,
            color,
        )
    }
}

/// The column at which a label of `label_len` characters begins so that it
/// stands centred under `digit_count` numerals; the left margin where the
/// label is wider than the numerals.
pub open spec fn label_column(digit_count: nat, label_len: nat) -> nat {
    let width = digit_count * STEP;
    if label_len >= width {
        LEFT_MARGIN as nat
    } else {
        (LEFT_MARGIN + (width - label_len) / 2) as nat
    }
}

/// The instructions of one frame: the numerals of `unix_seconds`, the label
/// centred below them, and the cursor put at the start of the next row.
pub open spec fn clockface_instrs(unix_seconds: int, color: Color, label: Seq<char>) -> Seq<
    Instr,
> {
    let digits = digits_of(unix_seconds);
    numerals_instrs(digits, digits.len(), color) + seq![
        Instr::Goto { col: label_column(digits.len(), label.len()), row: LABEL_ROW as nat },
        Instr::Text(label),
        Instr::Goto { col: 0, row: REST_ROW as nat },
    ]
}

/// The text of one frame.
pub open spec fn clockface_text(unix_seconds: int, color: Color, label: Seq<char>) -> Seq<char> {
    encode(clockface_instrs(unix_seconds, color, label))
}

/// The date and time of day of the instant `unix_seconds` in UTC, written
/// as `chrono` writes it in the form of RFC 3339 with whole seconds and `Z`
/// for the zone.
pub uninterp spec fn utc_label(unix_seconds: int) -> Seq<char>;

/// Whether the instant `unix_seconds` has a calendar date.
pub open spec fn has_date(unix_seconds: int) -> bool {
    MIN_INSTANT <= unix_seconds <= MAX_INSTANT
}

/// Writes the instant `unix_seconds` as a date and time of day.
///
/// Calls `chrono::DateTime::from_timestamp` with no nanoseconds and, on the
/// date-time it gives, `to_rfc3339_opts` with `SecondsFormat::Secs` and `Z`
/// for UTC. Trusted: `from_timestamp` gives a date-time for every instant
/// from the start of chrono's first year to the end of its last, and the
/// text is a function of the instant alone.
#[verifier::external_body]
fn write_label(unix_seconds: i64) -> (label: Option<String>)
    ensures
        has_date(unix_seconds as int) ==> label is Some,
        label matches Some(text) ==> text@ == utc_label(unix_seconds as int),
{
    match chrono::DateTime::from_timestamp(unix_seconds, 0) {
        Some(instant) => Some(instant.to_rfc3339_opts(chrono::SecondsFormat::Secs, true)),
        None => None,
    }
}

/// One tick of the clock: an instant and the colour to draw it in.
#[derive(Clone, Copy, Debug)]
pub struct Clockface {
    unix_seconds: i64,
    color: Color,
}

impl Clockface {
    #[verifier::type_invariant]
    spec fn dated(self) -> bool {
        has_date(self.unix_seconds as int)
    }

    /// The instant, in seconds since the start of 1970 in UTC.
    pub closed spec fn instant(self) -> int {
        self.unix_seconds as int
    }

    /// The colour of the numerals.
    pub closed spec fn paint(self) -> Color {
        self.color
    }

    /// The face of the instant `unix_seconds` in `color`, if that instant has
    /// a calendar date.
    pub fn new(unix_seconds: i64, color: Color) -> (face: Option<Clockface>)
        ensures
            face is Some <==> has_date(unix_seconds as int),
            face matches Some(f) ==> f.instant() == unix_seconds && f.paint() == color,
    {
        if MIN_INSTANT <= unix_seconds && unix_seconds <= MAX_INSTANT {
            Some(Clockface { unix_seconds, color })
        } else {
            None
        }
    }

    /// The instant, in seconds since the start of 1970 in UTC.
    pub fn unix_seconds(&self) -> (s: i64)
        ensures
            s == self.instant(),
            has_date(s as int),
    {
        proof {
            use_type_invariant(self);
        }
        self.unix_seconds
    }

    /// The colour of the numerals.
    pub fn color(&self) -> (c: Color)
        ensures
            c == self.paint(),
    {
        self.color
    }
}

/// Ten to the power `k`.
pub open spec fn pow10(k: nat) -> nat
    decreases k,
{
    if k == 0 {
        1
    } else {
        10 * pow10((k - 1) as nat)
    }
}

/// A number below ten to the `k` has at most `k` digits, each from 0 to 9.
pub proof fn lemma_digits_bounded(n: int, k: nat)
    requires
        n < pow10(k),
    ensures
        digits_of(n).len() <= k,
        forall|i: int| 0 <= i < digits_of(n).len() ==> 0 <= #[trigger] digits_of(n)[i] < 10,
    decreases k,
{
    if n > 0 {
        if k == 0 {
            assert(pow10(0) == 1);
        } else {
            lemma_digits_bounded(n / 10, (k - 1) as nat);
        }
    }
}

/// A 64-bit instant has at most nineteen digits.
pub proof fn lemma_digits_of_i64(n: i64)
    ensures
        digits_of(n as int).len() <= 19,
        forall|i: int|
            0 <= i < digits_of(n as int).len() ==> 0 <= #[trigger] digits_of(n as int)[i] < 10,
{
    reveal_with_fuel(pow10, 20);
    assert(pow10(19) == 10_000_000_000_000_000_000);
    lemma_digits_bounded(n as int, 19);
}

/// The decimal digits of `n`, most significant first; none where `n` is
/// zero or negative.
pub fn decimal_digits(n: i64) -> (digits: Vec<u8>)
    ensures
        digits@.len() == digits_of(n as int).len(),
        forall|i: int| 0 <= i < digits@.len() ==> #[trigger] digits@[i] as int == digits_of(n as int)[i],
        digits@.len() <= 19,
        forall|i: int| 0 <= i < digits@.len() ==> #[trigger] digits@[i] < 10,
{
    let mut rest = n;
    let mut low_first: Vec<u8> = Vec::new();
    let ghost mut tail: Seq<int> = Seq::empty();
    proof {
        lemma_digits_of_i64(n);
        assert(digits_of(rest as int) + tail =~= digits_of(n as int));
    }
    while rest > 0
        invariant
            digits_of(n as int) == digits_of(rest as int) + tail,
            digits_of(n as int).len() <= 19,
            tail.len() == low_first@.len(),
            forall|j: int|
                0 <= j < tail.len() ==> #[trigger] tail[j] == low_first@[tail.len() - 1 - j] as int,
            forall|j: int| 0 <= j < low_first@.len() ==> #[trigger] low_first@[j] < 10,
        decreases rest,
    {
        let d = (rest % 10) as u8;
        proof {
            let shorter = digits_of(rest as int / 10);
            assert(digits_of(rest as int) == shorter.push(rest as int % 10));
            assert(shorter.push(d as int) + tail =~= shorter + (seq![d as int] + tail));
            let longer = seq![d as int] + tail;
            assert forall|j: int| 0 <= j < longer.len() implies #[trigger] longer[j]
                == low_first@.push(d)[longer.len() - 1 - j] as int by {
                if j > 0 {
                    assert(longer[j] == tail[j - 1]);
                }
            }
            tail = longer;
        }
        low_first.push(d);
        rest = rest / 10;
    }
    assert(digits_of(rest as int) + tail =~= tail);
    let count = low_first.len();
    let mut digits: Vec<u8> = Vec::new();
    let mut k: usize = 0;
    while k < count
        invariant
            count == low_first@.len(),
            count == tail.len(),
            k <= count,
            digits@.len() == k,
            forall|j: int|
                0 <= j < tail.len() ==> #[trigger] tail[j] == low_first@[tail.len() - 1 - j] as int,
            forall|j: int| 0 <= j < low_first@.len() ==> #[trigger] low_first@[j] < 10,
            forall|j: int| 0 <= j < k ==> #[trigger] digits@[j] as int == tail[j],
            forall|j: int| 0 <= j < k ==> #[trigger] digits@[j] < 10,
        decreases count - k,
    {
        digits.push(low_first[count - 1 - k]);
        k += 1;
    }
    digits
}

/// Drawing one more numeral appends its text.
proof fn lemma_numerals_step(digits: Seq<int>, k: nat, color: Color)
    requires
        k > 0,
    ensures
        encode(numerals_instrs(digits, k, color)) == encode(
            numerals_instrs(digits, (k - 1) as nat, color),
        ) + digit_text(
            digits[k - 1],
            (LEFT_MARGIN + (k - 1) * STEP) as nat,
            TOP_MARGIN as nat,
            color,
        ),
{
    lemma_encode_concat(
        numerals_instrs(digits, (k - 1) as nat, color),
        digit_instrs(digits[k - 1], (LEFT_MARGIN + (k - 1) * STEP) as nat, TOP_MARGIN as nat, color),
    );
}

/// The frame of the instant `unix_seconds` in `color`, with `label` as the
/// text under the numerals.
pub fn compose_clockface(unix_seconds: i64, color: Color, label: &str) -> (frame: String)
    ensures
        frame@ == clockface_text(unix_seconds as int, color, label@),
{
    let digits = decimal_digits(unix_seconds);
    let ghost spec_digits = digits_of(unix_seconds as int);
    let count = digits.len();
    let mut frame = String::new();
    let mut i: usize = 0;
    assert(frame@ =~= encode(numerals_instrs(spec_digits, 0, color)));
    while i < count
        invariant
            count == digits@.len(),
            count <= 19,
            i <= count,
            spec_digits == digits_of(unix_seconds as int),
            spec_digits.len() == count,
            forall|j: int| 0 <= j < count ==> #[trigger] digits@[j] as int == spec_digits[j],
            forall|j: int| 0 <= j < count ==> #[trigger] digits@[j] < 10,
            frame@ == encode(numerals_instrs(spec_digits, i as nat, color)),
        decreases count - i,
    {
        proof {
            lemma_numerals_step(spec_digits, (i + 1) as nat, color);
        }
        let left: u16 = LEFT_MARGIN + i as u16 * STEP;
        format_number(&mut frame, digits[i] as usize, left, TOP_MARGIN, color);
        i += 1;
    }
    let width: usize = count * STEP as usize;
    let label_len = label.unicode_len();
    let column: usize = if label_len >= width {
        LEFT_MARGIN as usize
    } else {
        LEFT_MARGIN as usize + (width - label_len) / 2
    };
    let ghost numerals = numerals_instrs(spec_digits, count as nat, color);
    let ghost to_label = Instr::Goto { col: column as nat, row: LABEL_ROW as nat };
    let ghost to_rest = Instr::Goto { col: 0, row: REST_ROW as nat };
    write_goto(&mut frame, column as u32, LABEL_ROW as u32);
    frame.append(label);
    write_goto(&mut frame, 0, REST_ROW as u32);
    proof {
        let tail = seq![to_label, Instr::Text(label@), to_rest];
        assert(column == label_column(count as nat, label@.len()));
        assert(clockface_instrs(unix_seconds as int, color, label@) == numerals + tail);
        lemma_encode_concat(numerals, tail);
        assert(tail =~= seq![to_label] + seq![Instr::Text(label@)] + seq![to_rest]);
        lemma_encode_concat(seq![to_label], seq![Instr::Text(label@)]);
        lemma_encode_concat(seq![to_label] + seq![Instr::Text(label@)], seq![to_rest]);
        lemma_encode_one(to_label);
        lemma_encode_one(Instr::Text(label@));
        lemma_encode_one(to_rest);
        assert(frame@ =~= encode(numerals) + encode(tail));
    }
    frame
}

/// The frame of `face`: its instant in numerals, and under them its date
/// and time of day.
pub fn render_clockface(face: &Clockface) -> (frame: String)
    ensures
        frame@ == clockface_text(face.instant(), face.paint(), utc_label(face.instant())),
{
    let unix_seconds = face.unix_seconds();
    let label = write_label(unix_seconds).unwrap();
    compose_clockface(unix_seconds, face.color(), label.as_str())
}

/// An instant at or before the start of 1970 has no numerals: its frame
/// is the label at the left margin and the cursor put below it.
pub proof fn lemma_no_numerals_before_epoch(unix_seconds: int, color: Color, label: Seq<char>)
    requires
        unix_seconds <= 0,
    ensures
        clockface_instrs(unix_seconds, color, label) == seq![
            Instr::Goto { col: 0, row: 7 },
            Instr::Text(label),
            Instr::Goto { col: 0, row: 8 },
        ],
        clockface_text(unix_seconds, color, label) == seq!['\u{1b}', '[', '8', ';', '1', 'H']
            + label + seq!['\u{1b}', '[', '9', ';', '1', 'H'],
{
    let to_label = Instr::Goto { col: 0, row: 7 };
    let to_rest = Instr::Goto { col: 0, row: 8 };
    let instrs = seq![to_label, Instr::Text(label), to_rest];
    assert(clockface_instrs(unix_seconds, color, label) =~= instrs);
    assert(instrs =~= seq![to_label] + seq![Instr::Text(label)] + seq![to_rest]);
    lemma_encode_concat(seq![to_label], seq![Instr::Text(label)]);
    lemma_encode_concat(seq![to_label] + seq![Instr::Text(label)], seq![to_rest]);
    lemma_encode_one(to_label);
    lemma_encode_one(Instr::Text(label));
    lemma_encode_one(to_rest);
    reveal_with_fuel(crate::text::decimal, 2);
    assert(to_label.text() =~= seq!['\u{1b}', '[', '8', ';', '1', 'H']);
    assert(to_rest.text() =~= seq!['\u{1b}', '[', '9', ';', '1', 'H']);
}

/// A label no wider than the numerals stands centred under them: the room
/// to its left and the room to its right differ by one column at most, the
/// odd column going to the right. A wider label begins at the left margin.
pub proof fn lemma_label_centred(digit_count: nat, label_len: nat)
    ensures
        label_len <= digit_count * STEP ==> {
            let left = label_column(digit_count, label_len);
            let right = digit_count * STEP - label_len - left;
            left <= right <= left + 1
        },
        label_len >= digit_count * STEP ==> label_column(digit_count, label_len) == 0,
{
}

} // verus!

//! Terminal background colours: the eight named ones and the 256-colour
//! palette, read from text and written as the parameter of an SGR escape.

use crate::text::{
    all_digits, all_whitespace, ascii_lower, decimal, decimal_value, folded, is_digit,
    is_whitespace, lemma_decimal_digits, lemma_decimal_len, lemma_decimal_round_trip,
    lemma_trimmed_padded, normalize, push_decimal, spells, trimmed,
};
use vstd::prelude::*;

verus! {

/// A terminal background colour.
#[derive(Clone, Copy, Debug, PartialEq, Eq, Structural)]
pub enum Color {
    Black,
    Red,
    Green,
    Yellow,
    Blue,
    Purple,
    Cyan,
    White,
    /// An index into the extended palette of 256 colours.
    Fixed(u8),
}

/// The message of a text that is neither a colour name nor a number.
pub open spec fn unknown_color() -> Seq<char> {
    "Unknown color"@
}

/// The message of a text that, once trimmed, holds nothing at all.
pub open spec fn empty_number() -> Seq<char> {
    "cannot parse integer from empty string"@
}

/// The message of a number above 255.
pub open spec fn number_too_large() -> Seq<char> {
    "number too large to fit in target type"@
}

impl Color {
    /// The SGR parameter that selects this colour as background: `40` to
    /// `47` for the named colours, `48;5;n` for palette entry `n`.
    pub open spec fn code(self) -> Seq<char> {
        match self {
            Color::Black => seq!['4', '0'],
            Color::Red => seq!['4', '1'],
            Color::Green => seq!['4', '2'],
            Color::Yellow => seq!['4', '3'],
            Color::Blue => seq!['4', '4'],
            Color::Purple => seq!['4', '5'],
            Color::Cyan => seq!['4', '6'],
            Color::White => seq!['4', '7'],
            Color::Fixed(n) => seq!['4', '8', ';', '5', ';'] + decimal(n as nat),
        }
    }

    /// The colour that the lower-case name `s` stands for, if it is one of
    /// the eight.
    pub open spec fn named(s: Seq<char>) -> Option<Color> {
        if s == "black"@ {
            Some(Color::Black)
        } else if s == "red"@ {
            Some(Color::Red)
        } else if s == "green"@ {
            Some(Color::Green)
        } else if s == "yellow"@ {
            Some(Color::Yellow)
        } else if s == "blue"@ {
            Some(Color::Blue)
        } else if s == "purple"@ {
            Some(Color::Purple)
        } else if s == "cyan"@ {
            Some(Color::Cyan)
        } else if s == "white"@ {
            Some(Color::White)
        } else {
            None
        }
    }

    /// What reading `text` as a colour gives. Surrounding whitespace and
    /// letter case are ignored. A name gives its colour; a string of digits
    /// gives the palette entry of that number, if it is at most 255; every
    /// other text gives the message that says why it is none.
    pub open spec fn parsed(text: Seq<char>) -> Result<Color, Seq<char>> {
        let s = folded(trimmed(text));
        match Color::named(s) {
            Some(c) => Ok(c),
            None => match number_of(s) {
                Number::Value(n) => Ok(Color::Fixed(n)),
                Number::Empty => Err(empty_number()),
                Number::TooLarge => Err(number_too_large()),
                Number::NotANumber => Err(unknown_color()),
            },
        }
    }

    /// Writes the colour as the parameter of an SGR escape.
    pub fn to_escape_fragment(&self) -> (s: String)
        ensures
            s@ == self.code(),
    {
        proof {
            reveal_strlit("40");
            reveal_strlit("41");
            reveal_strlit("42");
            reveal_strlit("43");
            reveal_strlit("44");
            reveal_strlit("45");
            reveal_strlit("46");
            reveal_strlit("47");
            reveal_strlit("48;5;");
        }
        let mut s = String::new();
        match self {
            Color::Black => s.append("40"),
            Color::Red => s.append("41"),
            Color::Green => s.append("42"),
            Color::Yellow => s.append("43"),
            Color::Blue => s.append("44"),
            Color::Purple => s.append("45"),
            Color::Cyan => s.append("46"),
            Color::White => s.append("47"),
            Color::Fixed(n) => {
                s.append("48;5;");
                push_decimal(&mut s, *n as u64);
            },
        }
        assert(s@ =~= self.code());
        s
    }

    /// Reads a colour from `text`.
    pub fn parse(text: &str) -> (r: Result<Color, String>)
        ensures
            match r {
                Ok(c) => Color::parsed(text@) == Ok::<Color, Seq<char>>(c),
                Err(e) => Color::parsed(text@) == Err::<Color, Seq<char>>(e@),
            },
    {
        let s = normalize(text);
        if spells(&s, "black") {
            return Ok(Color::Black);
        }
        if spells(&s, "red") {
            return Ok(Color::Red);
        }
        if spells(&s, "green") {
            return Ok(Color::Green);
        }
        if spells(&s, "yellow") {
            return Ok(Color::Yellow);
        }
        if spells(&s, "blue") {
            return Ok(Color::Blue);
        }
        if spells(&s, "purple") {
            return Ok(Color::Purple);
        }
        if spells(&s, "cyan") {
            return Ok(Color::Cyan);
        }
        if spells(&s, "white") {
            return Ok(Color::White);
        }
        match read_number(&s) {
            Number::Value(n) => Ok(Color::Fixed(n)),
            Number::Empty => Err("cannot parse integer from empty string".to_owned()),
            Number::TooLarge => Err("number too large to fit in target type".to_owned()),
            Number::NotANumber => Err("Unknown color".to_owned()),
        }
    }
}

/// What a text holds when it is read as a palette index.
#[derive(Clone, Copy, Debug, PartialEq, Eq)]
pub enum Number {
    /// Digits only, worth at most 255.
    Value(u8),
    /// Nothing at all.
    Empty,
    /// Digits only, worth more than 255.
    TooLarge,
    /// Some character that is no digit.
    NotANumber,
}

/// What the characters `s` hold when read as a palette index.
pub open spec fn number_of(s: Seq<char>) -> Number {
    if !all_digits(s) {
        Number::NotANumber
    } else if s.len() == 0 {
        Number::Empty
    } else if decimal_value(s) > 255 {
        Number::TooLarge
    } else {
        Number::Value(decimal_value(s) as u8)
    }
}

/// Reads `s` as a palette index.
pub fn read_number(s: &Vec<char>) -> (r: Number)
    ensures
        r == number_of(s@),
{
    let n = s.len();
    let mut i: usize = 0;
    while i < n
        invariant
            n == s@.len(),
            i <= n,
            all_digits(s@.take(i as int)),
        decreases n - i,
    {
        let c = s[i];
        if !('0' <= c && c <= '9') {
            assert(!is_digit(s@[i as int]));
            return Number::NotANumber;
        }
        assert forall|k: int| 0 <= k < i + 1 implies is_digit(#[trigger] s@.take(i + 1)[k]) by {
            if k < i {
                assert(s@.take(i as int)[k] == s@[k]);
            }
        }
        i += 1;
    }
    assert(s@.take(n as int) =~= s@);
    if n == 0 {
        return Number::Empty;
    }
    let mut acc: u32 = 0;
    let mut j: usize = 0;
    while j < n
        invariant
            n == s@.len(),
            j <= n,
            all_digits(s@),
            acc <= 256,
            acc == if decimal_value(s@.take(j as int)) > 255 {
                256
            } else {
                decimal_value(s@.take(j as int)) as int
            },
        decreases n - j,
    {
        let c = s[j];
        assert(is_digit(s@[j as int]));
        let d: u32 = c as u32 - '0' as u32;
        proof {
            let t = s@.take(j + 1);
            assert(t.drop_last() =~= s@.take(j as int));
            assert(t.last() == c);
        }
        acc = acc * 10 + d;
        if acc > 255 {
            acc = 256;
        }
        j += 1;
    }
    assert(s@.take(n as int) =~= s@);
    if acc > 255 {
        Number::TooLarge
    } else {
        Number::Value(acc as u8)
    }
}

impl std::str::FromStr for Color {
    type Err = String;

    /// Reads a colour from `s`, as [`Color::parse`] does.
    fn from_str(s: &str) -> (r: Result<Color, String>)
        ensures
            match r {
                Ok(c) => Color::parsed(s@) == Ok::<Color, Seq<char>>(c),
                Err(e) => Color::parsed(s@) == Err::<Color, Seq<char>>(e@),
            },
    {
        Color::parse(s)
    }
}

/// The views of the eight names, letter by letter.
proof fn reveal_names()
    ensures
        "black"@ == seq!['b', 'l', 'a', 'c', 'k'],
        "red"@ == seq!['r', 'e', 'd'],
        "green"@ == seq!['g', 'r', 'e', 'e', 'n'],
        "yellow"@ == seq!['y', 'e', 'l', 'l', 'o', 'w'],
        "blue"@ == seq!['b', 'l', 'u', 'e'],
        "purple"@ == seq!['p', 'u', 'r', 'p', 'l', 'e'],
        "cyan"@ == seq!['c', 'y', 'a', 'n'],
        "white"@ == seq!['w', 'h', 'i', 't', 'e'],
{
    reveal_strlit("black");
    reveal_strlit("red");
    reveal_strlit("green");
    reveal_strlit("yellow");
    reveal_strlit("blue");
    reveal_strlit("purple");
    reveal_strlit("cyan");
    reveal_strlit("white");
    assert("black"@ =~= seq!['b', 'l', 'a', 'c', 'k']);
    assert("red"@ =~= seq!['r', 'e', 'd']);
    assert("green"@ =~= seq!['g', 'r', 'e', 'e', 'n']);
    assert("yellow"@ =~= seq!['y', 'e', 'l', 'l', 'o', 'w']);
    assert("blue"@ =~= seq!['b', 'l', 'u', 'e']);
    assert("purple"@ =~= seq!['p', 'u', 'r', 'p', 'l', 'e']);
    assert("cyan"@ =~= seq!['c', 'y', 'a', 'n']);
    assert("white"@ =~= seq!['w', 'h', 'i', 't', 'e']);
}

/// A colour name reads as its colour in any letter case and with any
/// whitespace around it, and that colour is written as the name's fixed
/// code: whenever `core` spells a name up to the case of its letters, and
/// `left` and `right` hold only whitespace, `left + core + right` reads as
/// the colour of that name.
pub proof fn lemma_name_reads_as_its_color(
    left: Seq<char>,
    core: Seq<char>,
    right: Seq<char>,
    color: Color,
)
    requires
        all_whitespace(left),
        all_whitespace(right),
        Color::named(folded(core)) == Some(color),
    ensures
        Color::parsed(left + core + right) == Ok::<Color, Seq<char>>(color),
        folded(core) == "black"@ ==> color.code() == "40"@,
        folded(core) == "red"@ ==> color.code() == "41"@,
        folded(core) == "green"@ ==> color.code() == "42"@,
        folded(core) == "yellow"@ ==> color.code() == "43"@,
        folded(core) == "blue"@ ==> color.code() == "44"@,
        folded(core) == "purple"@ ==> color.code() == "45"@,
        folded(core) == "cyan"@ ==> color.code() == "46"@,
        folded(core) == "white"@ ==> color.code() == "47"@,
{
    reveal_names();
    let name = folded(core);
    assert(core.len() == name.len());
    assert(name.len() >= 3);
    assert(name[0] == ascii_lower(core[0]));
    assert(name[name.len() - 1] == ascii_lower(core[core.len() - 1]));
    assert(!is_whitespace(name[0]));
    assert(!is_whitespace(name[name.len() - 1]));
    assert(!is_whitespace(core.first()));
    assert(!is_whitespace(core.last()));
    lemma_trimmed_padded(left, core, right);
    reveal_strlit("40");
    reveal_strlit("41");
    reveal_strlit("42");
    reveal_strlit("43");
    reveal_strlit("44");
    reveal_strlit("45");
    reveal_strlit("46");
    reveal_strlit("47");
    assert("40"@ =~= seq!['4', '0']);
    assert("41"@ =~= seq!['4', '1']);
    assert("42"@ =~= seq!['4', '2']);
    assert("43"@ =~= seq!['4', '3']);
    assert("44"@ =~= seq!['4', '4']);
    assert("45"@ =~= seq!['4', '5']);
    assert("46"@ =~= seq!['4', '6']);
    assert("47"@ =~= seq!['4', '7']);
}

/// A string of digits is no colour name and is left as it is by trimming
/// and case folding.
pub proof fn lemma_digits_are_plain(s: Seq<char>)
    requires
        all_digits(s),
    ensures
        folded(trimmed(s)) == s,
        Color::named(s) is None,
{
    reveal_names();
    if s.len() > 0 {
        assert(is_digit(s[0]));
        assert(is_digit(s[s.len() - 1]));
    }
    lemma_trimmed_padded(Seq::<char>::empty(), s, Seq::<char>::empty());
    assert(Seq::<char>::empty() + s + Seq::<char>::empty() =~= s);
    assert forall|i: int| 0 <= i < s.len() implies ascii_lower(s[i]) == s[i] by {
        assert(is_digit(s[i]));
    }
    assert(folded(s) =~= s);
    if Color::named(s) is Some {
        assert(is_digit(s[0]));
    }
}

/// A non-empty string of digits that is worth at most 255 reads as the
/// palette entry of that number; one worth more is refused as too large; the
/// empty string is refused as empty.
pub proof fn lemma_digits_read_as_palette_entry(s: Seq<char>)
    requires
        all_digits(s),
    ensures
        s.len() > 0 && decimal_value(s) <= 255 ==> Color::parsed(s) == Ok::<Color, Seq<char>>(
            Color::Fixed(decimal_value(s) as u8),
        ),
        s.len() > 0 && decimal_value(s) > 255 ==> Color::parsed(s) == Err::<Color, Seq<char>>(
            number_too_large(),
        ),
        s.len() == 0 ==> Color::parsed(s) == Err::<Color, Seq<char>>(empty_number()),
{
    lemma_digits_are_plain(s);
}

/// The numeral of every palette index reads as that palette entry.
pub proof fn lemma_numeral_reads_as_palette_entry(n: u8)
    ensures
        Color::parsed(decimal(n as nat)) == Ok::<Color, Seq<char>>(Color::Fixed(n)),
{
    lemma_decimal_len(n as nat);
    lemma_decimal_digits(n as nat);
    lemma_decimal_round_trip(n as nat);
    lemma_digits_read_as_palette_entry(decimal(n as nat));
}

} // verus!

use uclock::color::{read_number, Number};
use uclock::text::{chars_of, lower, normalize, whitespace};
use uclock::Color;

fn named() -> Vec<(&'static str, Color, &'static str)> {
    vec![
        ("black", Color::Black, "40"),
        ("red", Color::Red, "41"),
        ("green", Color::Green, "42"),
        ("yellow", Color::Yellow, "43"),
        ("blue", Color::Blue, "44"),
        ("purple", Color::Purple, "45"),
        ("cyan", Color::Cyan, "46"),
        ("white", Color::White, "47"),
    ]
}

/// What the standard library makes of the same text, step by step.
fn by_std(text: &str) -> Result<Color, String> {
    let folded = text.trim().to_ascii_lowercase();
    for (name, color, _) in named() {
        if folded == name {
            return Ok(color);
        }
    }
    if folded.chars().all(|c| c.is_ascii_digit()) {
        return match folded.parse::<u8>() {
            Ok(n) => Ok(Color::Fixed(n)),
            Err(e) => Err(e.to_string()),
        };
    }
    Err("Unknown color".to_owned())
}

#[test]
fn names_parse_in_lower_case() {
    for (name, color, code) in named() {
        let parsed = Color::parse(name);
        assert_eq!(parsed, Ok(color));
        assert_eq!(color.to_escape_fragment(), code);
    }
}

#[test]
fn names_parse_in_any_case_with_padding() {
    for (name, color, code) in named() {
        let upper = name.to_uppercase();
        let mut mixed = String::new();
        for (i, c) in name.chars().enumerate() {
            if i % 2 == 0 {
                mixed.push(c.to_ascii_uppercase());
            } else {
                mixed.push(c);
            }
        }
        for variant in [name.to_owned(), upper, mixed] {
            for (left, right) in [("", ""), (" ", " "), ("\t\n", "\r\n"), ("\u{3000}", "\u{a0}\u{2003}")] {
                let text = format!("{}{}{}", left, variant, right);
                let parsed = Color::parse(&text).unwrap();
                assert_eq!(parsed, color);
                assert_eq!(parsed.to_escape_fragment(), code);
            }
        }
    }
}

#[test]
fn padded_red_round_trips_to_41() {
    assert_eq!(Color::parse(" Red ").unwrap().to_escape_fragment(), "41");
}

#[test]
fn every_palette_index_parses() {
    for n in 0..=255u8 {
        let text = format!("{}", n);
        assert_eq!(Color::parse(&text), Ok(Color::Fixed(n)));
        assert_eq!(Color::Fixed(n).to_escape_fragment(), format!("48;5;{}", n));
    }
}

#[test]
fn palette_index_with_leading_zeros_and_padding() {
    assert_eq!(Color::parse("007"), Ok(Color::Fixed(7)));
    assert_eq!(Color::parse("  0255\n"), Ok(Color::Fixed(255)));
    assert_eq!(Color::parse("0"), Ok(Color::Fixed(0)));
    assert_eq!(Color::parse("000000000000000000000000000000"), Ok(Color::Fixed(0)));
}

#[test]
fn number_above_255_is_too_large() {
    let message = "number too large to fit in target type".to_owned();
    assert_eq!(Color::parse("256"), Err(message.clone()));
    assert_eq!(Color::parse("0000256"), Err(message.clone()));
    assert_eq!(Color::parse("999"), Err(message.clone()));
    assert_eq!(Color::parse("2560"), Err(message.clone()));
    assert_eq!(Color::parse("99999999999999999999999999999999999999"), Err(message));
}

#[test]
fn empty_text_is_refused() {
    let message = "cannot parse integer from empty string".to_owned();
    assert_eq!(Color::parse(""), Err(message.clone()));
    assert_eq!(Color::parse("   "), Err(message.clone()));
    assert_eq!(Color::parse("\t\u{2028}\n"), Err(message));
}

#[test]
fn other_text_is_unknown() {
    let message = "Unknown color".to_owned();
    for text in ["-1", "abc", "+5", "1 2", "re d", "redd", "12a", "0x10", "\u{ff11}\u{ff12}", "1.5", "orange", "whit"] {
        assert_eq!(Color::parse(text), Err(message.clone()), "{:?}", text);
    }
}

#[test]
fn parse_agrees_with_the_standard_library() {
    let mut texts: Vec<String> = vec![
        "".into(), " ".into(), "red".into(), "RED".into(), " rEd\t".into(), "256".into(),
        "255".into(), "-0".into(), "00".into(), "black ".into(), "bl ack".into(),
        "\u{feff}red".into(), "\u{200b}red".into(), "\u{180e}red".into(), "\u{85}cyan\u{1680}".into(),
        "K".into(), "\u{212a}".into(), "purple\u{0}".into(), "٣".into(),
    ];
    for n in 0..=400u32 {
        texts.push(format!("{}", n));
        texts.push(format!(" 0{} ", n));
    }
    for text in texts {
        assert_eq!(Color::parse(&text), by_std(&text), "{:?}", text);
    }
}

#[test]
fn from_str_reads_as_parse_does() {
    assert_eq!("Cyan".parse::<Color>(), Ok(Color::Cyan));
    assert_eq!("17".parse::<Color>(), Ok(Color::Fixed(17)));
    assert_eq!("nope".parse::<Color>(), Err("Unknown color".to_owned()));
}

#[test]
fn whitespace_is_the_unicode_property() {
    for u in 0..=0x10ffffu32 {
        if let Some(c) = char::from_u32(u) {
            assert_eq!(whitespace(c), c.is_whitespace(), "U+{:04X}", u);
        }
    }
}

#[test]
fn lower_folds_ascii_capitals_only() {
    for u in 0..=0x10ffffu32 {
        if let Some(c) = char::from_u32(u) {
            assert_eq!(lower(c), c.to_ascii_lowercase(), "U+{:04X}", u);
        }
    }
}

#[test]
fn normalize_trims_and_folds() {
    let got: String = normalize(" \t YeLLoW\u{3000}\n").into_iter().collect();
    assert_eq!(got, "yellow");
    let inner: String = normalize("  A b  C ").into_iter().collect();
    assert_eq!(inner, "a b  c");
    assert!(normalize(" \n ").is_empty());
    assert_eq!(chars_of("aé\u{1f600}"), vec!['a', 'é', '\u{1f600}']);
}

#[test]
fn read_number_tells_the_four_cases() {
    assert_eq!(read_number(&chars_of("")), Number::Empty);
    assert_eq!(read_number(&chars_of("0")), Number::Value(0));
    assert_eq!(read_number(&chars_of("255")), Number::Value(255));
    assert_eq!(read_number(&chars_of("256")), Number::TooLarge);
    assert_eq!(read_number(&chars_of("25x")), Number::NotANumber);
    assert_eq!(read_number(&chars_of("999999x")), Number::NotANumber);
}

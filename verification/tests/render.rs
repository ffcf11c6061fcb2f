use uclock::glyph::{NUMBER_HEIGHT, NUMBER_TABLE, NUMBER_WIDTH};
use uclock::{format_number, render_digit, Color};

/// One escape for every cell: the plain way to draw the same picture, with
/// the run-length rule written out once more.
fn drawn(digit: usize, left: u32, top: u32, code: &str) -> String {
    let grid = NUMBER_TABLE[digit];
    let mut out = String::new();
    let mut on = false;
    for row in 0..5u32 {
        out.push_str(&format!("\u{1b}[{};{}H", top + row + 1, left + 1));
        for col in 0..3u32 {
            let set = grid[(row * 3 + col) as usize];
            if set && !on {
                out.push_str(&format!("\u{1b}[{}m", code));
            }
            if !set && on {
                out.push_str("\u{1b}[0m");
            }
            on = set;
            out.push_str("  ");
        }
    }
    out.push_str("\u{1b}[0m");
    out
}

fn occurrences(text: &str, part: &str) -> usize {
    text.matches(part).count()
}

fn runs(digit: usize) -> usize {
    let grid = NUMBER_TABLE[digit];
    let mut n = 0;
    for i in 0..15 {
        if grid[i] && (i == 0 || !grid[i - 1]) {
            n += 1;
        }
    }
    n
}

#[test]
fn digit_one_in_red_at_the_origin() {
    let expected = concat_all(&[
        "\u{1b}[1;1H", "  ", "  ", "\u{1b}[41m  ",
        "\u{1b}[2;1H", "\u{1b}[0m  ", "  ", "\u{1b}[41m  ",
        "\u{1b}[3;1H", "\u{1b}[0m  ", "  ", "\u{1b}[41m  ",
        "\u{1b}[4;1H", "\u{1b}[0m  ", "  ", "\u{1b}[41m  ",
        "\u{1b}[5;1H", "\u{1b}[0m  ", "  ", "\u{1b}[41m  ",
        "\u{1b}[0m",
    ]);
    assert_eq!(render_digit(1, 0, 0, Color::Red), expected);
}

fn concat_all(parts: &[&str]) -> String {
    let mut s = String::new();
    for p in parts {
        s.push_str(p);
    }
    s
}

#[test]
fn digit_zero_keeps_the_colour_across_rows() {
    let expected = concat_all(&[
        "\u{1b}[2;8H", "\u{1b}[48;5;200m  ", "  ", "  ",
        "\u{1b}[3;8H", "  ", "\u{1b}[0m  ", "\u{1b}[48;5;200m  ",
        "\u{1b}[4;8H", "  ", "\u{1b}[0m  ", "\u{1b}[48;5;200m  ",
        "\u{1b}[5;8H", "  ", "\u{1b}[0m  ", "\u{1b}[48;5;200m  ",
        "\u{1b}[6;8H", "  ", "  ", "  ",
        "\u{1b}[0m",
    ]);
    assert_eq!(render_digit(0, 7, 1, Color::Fixed(200)), expected);
}

#[test]
fn every_digit_is_drawn_by_the_run_length_rule() {
    for digit in 0..10usize {
        for (left, top) in [(0u16, 0u16), (7, 1), (63, 1), (300, 41), (65535, 65535)] {
            for color in [Color::Black, Color::White, Color::Fixed(0), Color::Fixed(255)] {
                let code = color.to_escape_fragment();
                assert_eq!(
                    render_digit(digit, left, top, color),
                    drawn(digit, left as u32, top as u32, &code)
                );
            }
        }
    }
}

#[test]
fn every_digit_places_the_cursor_five_times() {
    for digit in 0..10usize {
        let text = render_digit(digit, 3, 4, Color::Green);
        assert_eq!(occurrences(&text, "H"), 5);
        for row in 0..5 {
            assert_eq!(occurrences(&text, &format!("\u{1b}[{};4H", 4 + row + 1)), 1);
        }
    }
}

#[test]
fn every_digit_ends_in_one_reset() {
    for digit in 0..10usize {
        let text = render_digit(digit, 0, 0, Color::Blue);
        assert!(text.ends_with("  \u{1b}[0m"));
        assert!(!text.ends_with("\u{1b}[0m\u{1b}[0m"));
    }
}

#[test]
fn every_digit_sets_the_colour_once_a_run() {
    let expected = [4usize, 5, 3, 3, 5, 3, 3, 5, 3, 3];
    for digit in 0..10usize {
        let text = render_digit(digit, 0, 0, Color::Purple);
        assert_eq!(occurrences(&text, "\u{1b}[45m"), runs(digit));
        assert_eq!(runs(digit), expected[digit]);
    }
}

#[test]
fn every_digit_writes_fifteen_cells() {
    for digit in 0..10usize {
        let text = render_digit(digit, 0, 0, Color::Cyan);
        let spaces = text.chars().filter(|c| *c == ' ').count();
        assert_eq!(spaces, 30);
    }
}

#[test]
fn format_number_appends_to_what_is_there() {
    let mut out = String::from("before");
    format_number(&mut out, 8, 14, 1, Color::Yellow);
    assert_eq!(out, format!("before{}", render_digit(8, 14, 1, Color::Yellow)));
    format_number(&mut out, 2, 21, 1, Color::Yellow);
    assert!(out.ends_with(&render_digit(2, 21, 1, Color::Yellow)));
}

#[test]
fn positions_at_the_far_corner_do_not_wrap() {
    let text = render_digit(7, 65535, 65535, Color::White);
    assert!(text.starts_with("\u{1b}[65536;65536H"));
    assert_eq!(occurrences(&text, "\u{1b}[65540;65536H"), 1);
}

#[test]
fn a_digit_is_six_columns_by_five_rows() {
    assert_eq!(NUMBER_WIDTH, 6);
    assert_eq!(NUMBER_HEIGHT, 5);
    assert_eq!(NUMBER_TABLE.len(), 10);
    assert_eq!(NUMBER_TABLE[0].len(), 15);
}

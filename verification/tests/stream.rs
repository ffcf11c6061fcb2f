use uclock::{clock_stream, render_clockface, Clockface, Color};

fn label_of(frame: &str) -> chrono::DateTime<chrono::FixedOffset> {
    let end = frame.rfind("\u{1b}[9;1H").unwrap();
    let head = &frame[..end];
    let start = head.rfind('H').unwrap() + 1;
    chrono::DateTime::parse_from_rfc3339(&head[start..]).unwrap()
}

#[test]
fn first_frame_clears_the_screen_in_every_colour() {
    let mut colors = vec![
        Color::Black, Color::Red, Color::Green, Color::Yellow, Color::Blue, Color::Purple,
        Color::Cyan, Color::White,
    ];
    for n in 0..=255u8 {
        colors.push(Color::Fixed(n));
    }
    for color in colors {
        assert_eq!(clock_stream(color).next_frame(), "\u{1b}c");
        assert_eq!(clock_stream(color).frame_at(1_700_000_000), "\u{1b}c");
    }
}

#[test]
fn first_frame_is_due_at_once_and_later_ones_on_the_tick() {
    let mut stream = clock_stream(Color::Red);
    assert!(!stream.awaits_tick());
    stream.frame_at(0);
    assert!(stream.awaits_tick());
    stream.frame_at(1);
    assert!(stream.awaits_tick());
}

#[test]
fn later_frames_are_the_face_of_the_instant() {
    let mut stream = clock_stream(Color::Fixed(42));
    assert_eq!(stream.frame_at(1_700_000_000), "\u{1b}c");
    for now in [1_700_000_000i64, 1_700_000_001, 1_700_000_002, 0, -5] {
        let face = Clockface::new(now, Color::Fixed(42)).unwrap();
        assert_eq!(stream.frame_at(now), render_clockface(&face));
    }
}

#[test]
fn frames_a_second_apart_are_labelled_a_second_apart() {
    let mut stream = clock_stream(Color::White);
    stream.frame_at(1_699_999_999);
    let a = stream.frame_at(1_699_999_999);
    let b = stream.frame_at(1_700_000_000);
    assert_eq!((label_of(&b) - label_of(&a)).num_seconds(), 1);
    assert_eq!(label_of(&a).timestamp(), 1_699_999_999);
    assert_ne!(a, b);
}

#[test]
fn next_frame_reads_the_clock() {
    let mut stream = clock_stream(Color::Green);
    assert_eq!(stream.next_frame(), "\u{1b}c");
    let before = chrono::Utc::now().timestamp();
    let frame = stream.next_frame();
    let after = chrono::Utc::now().timestamp();
    let shown = label_of(&frame).timestamp();
    assert!(before <= shown && shown <= after);
    let face = Clockface::new(shown, Color::Green).unwrap();
    assert_eq!(frame, render_clockface(&face));
    let again = label_of(&stream.next_frame()).timestamp();
    assert!(shown <= again);
}

#[test]
fn streams_do_not_share_their_state() {
    let mut a = clock_stream(Color::Red);
    let mut b = clock_stream(Color::Blue);
    a.frame_at(10);
    assert!(a.awaits_tick());
    assert!(!b.awaits_tick());
    assert_eq!(b.frame_at(10), "\u{1b}c");
    assert!(a.frame_at(10).contains("\u{1b}[41m"));
    assert!(b.frame_at(10).contains("\u{1b}[44m"));
}

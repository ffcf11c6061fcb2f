use uclock::route::{STATUS_BAD_REQUEST, STATUS_OK};
use uclock::{clock_stream, route, Color, Reply};

#[test]
fn unknown_path_is_a_bad_request() {
    let reply = route("/notacolor123xyz");
    assert_eq!(reply.status(), 400);
    match reply {
        Reply::BadRequest(message) => {
            assert!(!message.is_empty());
            assert_eq!(message, "Unknown color");
        }
        Reply::Frames(_) => panic!("a colour was found"),
    }
}

#[test]
fn root_and_white_stream_in_white() {
    for path in ["/", "/white", "", "//", "/WHITE", "white"] {
        let reply = route(path);
        assert_eq!(reply.status(), 200);
        assert_eq!(reply, Reply::Frames(Color::White));
        if let Reply::Frames(color) = reply {
            assert!(clock_stream(color).next_frame().starts_with("\u{1b}c"));
        }
    }
}

#[test]
fn a_path_names_a_colour_or_a_palette_entry() {
    assert_eq!(route("/red"), Reply::Frames(Color::Red));
    assert_eq!(route("//Purple"), Reply::Frames(Color::Purple));
    assert_eq!(route("/200"), Reply::Frames(Color::Fixed(200)));
    assert_eq!(route("/ cyan "), Reply::Frames(Color::Cyan));
}

#[test]
fn refusals_carry_the_reason() {
    assert_eq!(
        route("/256"),
        Reply::BadRequest("number too large to fit in target type".to_owned())
    );
    assert_eq!(
        route("/ "),
        Reply::BadRequest("cannot parse integer from empty string".to_owned())
    );
    assert_eq!(route("/red/"), Reply::BadRequest("Unknown color".to_owned()));
    assert_eq!(route("/red/blue"), Reply::BadRequest("Unknown color".to_owned()));
    assert_eq!(route("/é"), Reply::BadRequest("Unknown color".to_owned()));
}

#[test]
fn status_codes_are_those_of_http() {
    assert_eq!(STATUS_OK, 200);
    assert_eq!(STATUS_BAD_REQUEST, 400);
    assert_eq!(Reply::Frames(Color::Black).status(), STATUS_OK);
    assert_eq!(Reply::BadRequest(String::new()).status(), STATUS_BAD_REQUEST);
}

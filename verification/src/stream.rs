//! The frames of one consumer: first the frame that clears the screen, then
//! the face of the clock as often as the consumer asks.
//!
//! A stream does not wait. Its consumer owns the timer: it takes the first
//! frame at once, and every later one when a second has passed.

use crate::ansi::{write_clear, Instr};
use crate::clockface::{clockface_text, has_date, render_clockface, utc_label, Clockface};
use crate::color::Color;
use vstd::prelude::*;

verus! {

/// The frames of one consumer, all in one colour.
#[derive(Debug)]
pub struct FrameStream {
    color: Color,
    started: bool,
}

impl FrameStream {
    /// The colour of every frame of this stream.
    pub closed spec fn paint(self) -> Color {
        self.color
    }

    /// Whether the first frame has been taken.
    pub closed spec fn started(self) -> bool {
        self.started
    }

    /// The stream in `color` of which no frame has been taken.
    pub closed spec fn starting(color: Color) -> FrameStream {
        FrameStream { color, started: false }
    }

    /// This stream after one more frame has been taken.
    pub closed spec fn advanced(self) -> FrameStream {
        FrameStream { color: self.color, started: true }
    }

    /// The frame that this stream gives when it is asked at the instant
    /// `now`: the clearing of the screen where it is the first, the face of
    /// the clock at that instant afterwards.
    pub open spec fn frame(self, now: int) -> Seq<char> {
        if self.started() {
            clockface_text(now, self.paint(), utc_label(now))
        } else {
            Instr::ClearScreen.text()
        }
    }

    /// Whether the next frame is due only when the timer has fired: not
    /// for the first frame, for every later one.
    pub fn awaits_tick(&self) -> (waits: bool)
        ensures
            waits == self.started(),
    {
        self.started
    }

    /// Takes the next frame, with `now` as the current time in seconds
    /// since the start of 1970 in UTC.
    pub fn frame_at(&mut self, now: i64) -> (frame: String)
        requires
            has_date(now as int),
        ensures
            frame@ == old(self).frame(now as int),
            *final(self) == old(self).advanced(),
            final(self).started(),
            final(self).paint() == old(self).paint(),
    {
        if self.started {
            let face = Clockface::new(now, self.color).unwrap();
            render_clockface(&face)
        } else {
            self.started = true;
            let mut frame = String::new();
            write_clear(&mut frame);
            assert(frame@ =~= Instr::ClearScreen.text());
            frame
        }
    }

    /// Takes the next frame, reading the current time from the system
    /// clock where the frame shows it.
    pub fn next_frame(&mut self) -> (frame: String)
        ensures
            *final(self) == old(self).advanced(),
            final(self).started(),
            final(self).paint() == old(self).paint(),
            !old(self).started() ==> frame@ == Instr::ClearScreen.text(),
            old(self).started() ==> exists|now: int|
                has_date(now) && frame@ == #[trigger] old(self).frame(now),
    {
        if self.started {
            let now = unix_now();
            self.frame_at(now)
        } else {
            self.frame_at(0)
        }
    }
}

/// Reads the system clock, in whole seconds since the start of 1970 in UTC.
///
/// Calls `chrono::Utc::now` and `timestamp` on what it gives. Trusted: the
/// instant has a calendar date, as has every date-time that chrono hands
/// out. `Utc::now` panics where the system clock stands before 1970.
#[verifier::external_body]
fn unix_now() -> (now: i64)
    ensures
        has_date(now as int),
{
    chrono::Utc::now().timestamp()
}

/// A new stream in `color`, of which no frame has been taken.
pub fn clock_stream(color: Color) -> (stream: FrameStream)
    ensures
        stream == FrameStream::starting(color),
        stream.paint() == color,
        !stream.started(),
{
    FrameStream { color, started: false }
}

/// The first frame of every stream clears the screen, whatever the colour
/// and whatever the time.
pub proof fn lemma_first_frame_clears(color: Color, now: int)
    ensures
        !FrameStream::starting(color).started(),
        FrameStream::starting(color).paint() == color,
        FrameStream::starting(color).frame(now) == seq!['\u{1b}', 'c'],
{
}

/// Once a frame has been taken, every frame is the face of the clock at
/// the instant it is asked for, in the colour that the stream had before.
pub proof fn lemma_later_frames_show_time(stream: FrameStream, now: int)
    ensures
        stream.advanced().started(),
        stream.advanced().paint() == stream.paint(),
        stream.advanced().frame(now) == clockface_text(now, stream.paint(), utc_label(now)),
{
}

} // verus!

//! From the path of a request to the colour of the stream that answers it.

use crate::color::Color;
use crate::text::{chars_of, strip_leading};
use vstd::prelude::*;

verus! {

/// The status of an answer that streams frames.
pub const STATUS_OK: u16 = 200;

/// The status of an answer that refuses the path.
pub const STATUS_BAD_REQUEST: u16 = 400;

/// The answer to a request.
#[derive(Debug, PartialEq, Eq)]
pub enum Reply {
    /// Stream the frames of a clock in this colour.
    Frames(Color),
    /// Refuse the request with this message as the body.
    BadRequest(String),
}

/// What the path `path` selects. The path without its leading slashes is
/// read as a colour; nothing at all selects white; a text that is no
/// colour gives the message that says why.
pub open spec fn routed(path: Seq<char>) -> Result<Color, Seq<char>> {
    let selector = strip_leading(path, '/');
    if selector.len() == 0 {
        Ok(Color::White)
    } else {
        Color::parsed(selector)
    }
}

impl Reply {
    /// The status code of this answer.
    pub fn status(&self) -> (code: u16)
        ensures
            code == if self is Frames {
                STATUS_OK
            } else {
                STATUS_BAD_REQUEST
            },
    {
        match self {
            Reply::Frames(_) => STATUS_OK,
            Reply::BadRequest(_) => STATUS_BAD_REQUEST,
        }
    }
}

/// Skipping leading slashes one at a time reaches the same text.
proof fn lemma_strip_step(s: Seq<char>, k: int)
    requires
        0 <= k < s.len(),
        s[k] == '/',
    ensures
        strip_leading(s.subrange(k, s.len() as int), '/') == strip_leading(
            s.subrange(k + 1, s.len() as int),
            '/',
        ),
{
    let t = s.subrange(k, s.len() as int);
    assert(t.drop_first() =~= s.subrange(k + 1, s.len() as int));
}

/// Decides the answer to a request for `path`.
pub fn route(path: &str) -> (reply: Reply)
    ensures
        match reply {
            Reply::Frames(color) => routed(path@) == Ok::<Color, Seq<char>>(color),
            Reply::BadRequest(message) => routed(path@) == Err::<Color, Seq<char>>(message@),
        },
{
    let chars = chars_of(path);
    let n = chars.len();
    let mut k: usize = 0;
    assert(chars@.subrange(0, n as int) =~= chars@);
    while k < n && chars[k] == '/'
        invariant
            n == chars@.len(),
            k <= n,
            strip_leading(chars@, '/') == strip_leading(chars@.subrange(k as int, n as int), '/'),
        decreases n - k,
    {
        proof {
            lemma_strip_step(chars@, k as int);
        }
        k += 1;
    }
    proof {
        let t = chars@.subrange(k as int, n as int);
        assert(k < n ==> t.first() == chars@[k as int]);
        assert(strip_leading(t, '/') == t);
    }
    if k == n {
        return Reply::Frames(Color::White);
    }
    let selector = path.substring_char(k, n);
    match Color::parse(selector) {
        Ok(color) => Reply::Frames(color),
        Err(message) => Reply::BadRequest(message),
    }
}

} // verus!

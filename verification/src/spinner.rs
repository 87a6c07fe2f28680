use vstd::prelude::*;

verus! {

/// The frames of the spinner, in turn.
pub open spec fn spinner_char(frame: int) -> char {
    if frame == 0 {
        '|'
    } else if frame == 1 {
        '/'
    } else if frame == 2 {
        '-'
    } else {
        '\\'
    }
}

/// One tick of the spinner shown while Maven runs, at `frame` (one of the four) and
/// `secs_since_joke` seconds after the last joke: whether a joke is due (jokes are on
/// and the interval has passed), the frame's character to show (the first frame again
/// after a joke), and the frame of the next tick.
pub fn spinner_step(frame: usize, secs_since_joke: u64, show_jokes: bool, interval: u64) -> (r: (
    bool,
    char,
    usize,
))
    requires
        frame < 4,
    ensures
        r.0 == (show_jokes && secs_since_joke >= interval),
        r.1 == spinner_char(if r.0 {
            0
        } else {
            frame as int
        }),
        r.2 == (if r.0 {
            0
        } else {
            frame as int
        } + 1) % 4,
{
    let fetch_joke = show_jokes && secs_since_joke >= interval;
    let shown = if fetch_joke {
        0
    } else {
        frame
    };
    let c = if shown == 0 {
        '|'
    } else if shown == 1 {
        '/'
    } else if shown == 2 {
        '-'
    } else {
        '\\'
    };
    (fetch_joke, c, (shown + 1) % 4)
}

} // verus!

//! The size and the layout of the help overlay.

use vstd::prelude::*;

verus! {

/// The width of the overlay where there is room for it.
pub const HELP_WIDTH: u16 = 60;

/// The height of the overlay where there is room for it.
pub const HELP_HEIGHT: u16 = 22;

/// The size of the overlay on a screen of the given size: as wide and as
/// high as it likes to be, but leaving two columns free on each side and a
/// row above and below.
pub fn overlay_size(screen_width: u16, screen_height: u16) -> (r: (u16, u16))
    ensures
        r.0 == if screen_width >= HELP_WIDTH + 4 {
            HELP_WIDTH as int
        } else if screen_width >= 4 {
            screen_width - 4
        } else {
            0
        },
        r.1 == if screen_height >= HELP_HEIGHT + 2 {
            HELP_HEIGHT as int
        } else if screen_height >= 2 {
            screen_height - 2
        } else {
            0
        },
{
    let room_wide: u16 = if screen_width >= 4 {
        screen_width - 4
    } else {
        0
    };
    let room_high: u16 = if screen_height >= 2 {
        screen_height - 2
    } else {
        0
    };
    (
        if room_wide < HELP_WIDTH {
            room_wide
        } else {
            HELP_WIDTH
        },
        if room_high < HELP_HEIGHT {
            room_high
        } else {
            HELP_HEIGHT
        },
    )
}

/// The margin before something of size `inner` that is centred in a space
/// of size `outer`: half of what is left over, and none where it does not
/// fit.
pub fn centered_margin(outer: usize, inner: usize) -> (r: usize)
    ensures
        r == if outer >= inner {
            (outer - inner) / 2
        } else {
            0
        },
{
    if outer >= inner {
        (outer - inner) / 2
    } else {
        0
    }
}

} // verus!

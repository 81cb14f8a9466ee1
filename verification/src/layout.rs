//! Geometry of the centred popup.
use vstd::prelude::*;

verus! {

/// The three percentages that split a side into a centred part of
/// `percent` and two equal margins: `(100 - percent) / 2` on each side.
pub fn centered_split(percent: u16) -> (r: (u16, u16, u16))
    requires
        percent <= 100,
    ensures
        r.0 == (100 - percent) / 2,
        r.1 == percent,
        r.2 == (100 - percent) / 2,
        r.0 + r.1 + r.2 <= 100,
{
    let margin = (100 - percent) / 2;
    (margin, percent, margin)
}

/// The splits of a centred rectangle of `percent_x` by `percent_y`: first
/// the vertical split, then the horizontal one of its middle band.
pub fn centered_rect(percent_x: u16, percent_y: u16) -> (r: ((u16, u16, u16), (u16, u16, u16)))
    requires
        percent_x <= 100,
        percent_y <= 100,
    ensures
        r.0.0 == (100 - percent_y) / 2 && r.0.1 == percent_y && r.0.2 == (100 - percent_y) / 2,
        r.1.0 == (100 - percent_x) / 2 && r.1.1 == percent_x && r.1.2 == (100 - percent_x) / 2,
{
    (centered_split(percent_y), centered_split(percent_x))
}

} // verus!

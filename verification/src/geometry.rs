//! Page geometry.
//!
//! The output page size is derived solely from a page's rendered pixel size
//! and the DPI the caller chose — never from the source document's page
//! size.  The output unit is the PostScript point, 72 per inch, so a page
//! measures `pixels / dpi * 72` points on each axis, rounded to the nearest
//! whole point.

use vstd::prelude::*;

verus! {

/// The physical size in points of an axis of `px` pixels at resolution
/// `dpi`: `px / dpi * 72`, rounded to the nearest whole point (half rounded
/// by the parity of `dpi`).
pub open spec fn points_of(px: int, dpi: int) -> int {
    (px * 72 + dpi / 2) / dpi
}

/// The physical page size in whole points of an axis of `px` pixels
/// rendered at resolution `dpi`.
pub fn page_points(px: u32, dpi: u32) -> (r: u64)
    requires
        1 <= dpi,
    ensures
        r as int == points_of(px as int, dpi as int),
{
    (px as u64 * 72 + dpi as u64 / 2) / (dpi as u64)
}

/// Round-trip geometry: for an axis of `px` pixels at resolution `dpi`,
/// the output size in points differs from the exact physical size
/// `px / dpi * 72` by less than one point — `points_of(px, dpi) * dpi` is
/// within `dpi` of `px * 72`.
pub proof fn lemma_geometry_round_trip(px: int, dpi: int)
    requires
        0 <= px,
        1 <= dpi,
    ensures
        points_of(px, dpi) * dpi <= px * 72 + dpi,
        px * 72 <= points_of(px, dpi) * dpi + dpi,
{
    let t = px * 72 + dpi / 2;
    assert(t / dpi * dpi <= t < t / dpi * dpi + dpi) by (nonlinear_arith)
        requires
            0 <= t && 1 <= dpi,
    ;
}

} // verus!

//! Difficulty-value conversions for the surrounding renderer, on scaled
//! integer inputs: approach rate is given in tenths, circle size in
//! hundredths, and the computed osu!pixel value in ten-thousandths, so
//! every conversion is exact.

use vstd::prelude::*;

verus! {

/// Milliseconds of approach time for an approach rate given in tenths:
/// `450 + (10 - ar) * 150` from rate five upward, else
/// `1200 + (5 - ar) * 120`.
pub fn ar_to_ms(ar_tenths: i32) -> (ms: i32)
    requires
        -100_000 <= ar_tenths <= 100_000,
    ensures
        ms == if ar_tenths >= 50 {
            450 + (100 - ar_tenths) * 15
        } else {
            1200 + (50 - ar_tenths) * 12
        },
{
    if ar_tenths >= 50 {
        450 + (100 - ar_tenths) * 15
    } else {
        1200 + (50 - ar_tenths) * 12
    }
}

/// Radius in ten-thousandths of an osu!pixel for a circle size given in
/// hundredths: `54.4 - 4.48 * cs`, exactly.
pub fn cs_to_osupixels(cs_hundredths: i32) -> (px: i64)
    requires
        -1_000_000 <= cs_hundredths <= 1_000_000,
    ensures
        px == 544_000 - 448 * cs_hundredths,
{
    544_000 - 448 * (cs_hundredths as i64)
}

} // verus!

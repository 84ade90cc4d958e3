//! Tests of the difficulty-value conversions, on their scaled integer
//! representations: approach rate in tenths, circle size in hundredths,
//! osu!pixels in ten-thousandths.

use slider_path::helper::{ar_to_ms, cs_to_osupixels};

#[test]
fn test_ar_to_ms() {
    assert_eq!(ar_to_ms(110), 300);
    assert_eq!(ar_to_ms(100), 450);
    assert_eq!(ar_to_ms(93), 555);
    assert_eq!(ar_to_ms(90), 600);
    assert_eq!(ar_to_ms(50), 1200);
    assert_eq!(ar_to_ms(40), 1320);
    assert_eq!(ar_to_ms(0), 1800);
}

#[test]
fn test_cs_to_osupixels() {
    assert_eq!(cs_to_osupixels(700), 230_400);
    assert_eq!(cs_to_osupixels(600), 275_200);
    assert_eq!(cs_to_osupixels(400), 364_800);
}

use screenmix::common::{Pixel, SortKey};
use screenmix::sortfns::{
    b_r, chroma, g_b, hue, hue_sat, luma, luma_sat, max_rgb, min_rgb, r_g, sat, sort_key_value,
    wrapped_hue,
};

fn px(r: u8, g: u8, b: u8) -> Pixel {
    Pixel { r, g, b, a: 255 }
}

#[test]
fn luma_weighted_average() {
    assert_eq!(luma(px(100, 200, 50)), 167);
    assert_eq!(luma(px(0, 0, 0)), 0);
    assert_eq!(luma(px(255, 255, 255)), 255);
    // grays keep their value exactly
    for v in [1u8, 50, 100, 200, 254] {
        assert_eq!(luma(px(v, v, v)), v as i32);
    }
}

#[test]
fn hue_primary_colors() {
    assert_eq!(hue(px(255, 0, 0)), 0);
    assert_eq!(hue(px(0, 255, 0)), 85);
    assert_eq!(hue(px(0, 0, 255)), 170);
    assert_eq!(hue(px(128, 128, 128)), 0);
    assert_eq!(hue(px(100, 200, 50)), 70);
}

#[test]
fn sat_extremes() {
    assert_eq!(sat(px(0, 255, 0)), 255);
    assert_eq!(sat(px(128, 128, 128)), 0);
    assert_eq!(sat(px(100, 200, 50)), 153);
}

#[test]
fn channel_keys() {
    let c = px(20, 200, 90);
    assert_eq!(max_rgb(c), 200);
    assert_eq!(min_rgb(c), 20);
    assert_eq!(chroma(c), 180);
    assert_eq!(r_g(c), -180);
    assert_eq!(g_b(c), 110);
    assert_eq!(b_r(c), 70);
}

#[test]
fn all_keys_stay_in_documented_ranges() {
    let samples: [u8; 5] = [0, 1, 127, 200, 255];
    for &r in &samples {
        for &g in &samples {
            for &b in &samples {
                let c = px(r, g, b);
                for k in [luma(c), hue(c), sat(c), max_rgb(c), min_rgb(c), chroma(c)] {
                    assert!(0 <= k && k <= 255);
                }
                for k in [r_g(c), g_b(c), b_r(c)] {
                    assert!(-255 <= k && k <= 255);
                }
                let w = wrapped_hue(c);
                assert!(0 <= w && w <= 127);
                for k in [hue_sat(c), luma_sat(c)] {
                    assert!(0 <= k && k <= 65025);
                }
            }
        }
    }
}

#[test]
fn key_dispatch_matches_key_functions() {
    let c = px(100, 200, 50);
    assert_eq!(sort_key_value(SortKey::Lightness, c), luma(c));
    assert_eq!(sort_key_value(SortKey::Hue, c), hue(c));
    assert_eq!(sort_key_value(SortKey::Saturation, c), sat(c));
}

#[test]
fn wrapped_hue_folds_the_circle() {
    // blue sits at two thirds of the circle, so it folds to one third
    assert_eq!(wrapped_hue(px(0, 0, 255)), 85);
    assert_eq!(wrapped_hue(px(255, 0, 0)), 0);
}

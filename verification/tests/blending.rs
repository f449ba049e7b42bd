use screenmix::blend::blend;
use screenmix::common::{BlendMode, Pixel};

fn px(r: u8, g: u8, b: u8, a: u8) -> Pixel {
    Pixel { r, g, b, a }
}

const WHITE: Pixel = Pixel { r: 255, g: 255, b: 255, a: 255 };
const BLACK: Pixel = Pixel { r: 0, g: 0, b: 0, a: 255 };

#[test]
fn normal_full_opacity_is_identity() {
    // blending a pixel over itself at full opacity changes nothing beyond
    // the rounding of the gamma decode/encode round trip
    for c in [
        BLACK,
        WHITE,
        px(10, 20, 30, 255),
        px(128, 64, 32, 255),
        px(200, 150, 100, 255),
        px(1, 254, 77, 255),
    ] {
        let r = blend(c, c, BlendMode::Normal);
        assert_eq!(r.a, c.a);
        assert!((r.r as i32 - c.r as i32).abs() <= 1);
        assert!((r.g as i32 - c.g as i32).abs() <= 1);
        assert!((r.b as i32 - c.b as i32).abs() <= 1);
    }
}

#[test]
fn normal_transparent_source_shows_destination() {
    let r = blend(px(0, 0, 0, 0), WHITE, BlendMode::Normal);
    assert_eq!(r, WHITE);
}

#[test]
fn multiply_white_by_black_is_black() {
    assert_eq!(blend(WHITE, BLACK, BlendMode::Multiply), BLACK);
    assert_eq!(blend(WHITE, WHITE, BlendMode::Multiply), WHITE);
}

#[test]
fn screen_black_with_white_is_white() {
    assert_eq!(blend(BLACK, WHITE, BlendMode::Screen), WHITE);
    assert_eq!(blend(BLACK, BLACK, BlendMode::Screen), BLACK);
}

#[test]
fn overlay_of_black_on_white_is_white() {
    // overlay keys on the destination: a white destination screens
    assert_eq!(blend(BLACK, WHITE, BlendMode::Overlay), WHITE);
    assert_eq!(blend(WHITE, BLACK, BlendMode::Overlay), BLACK);
}

#[test]
fn darken_takes_the_darker_channel() {
    assert_eq!(blend(WHITE, BLACK, BlendMode::Darken), BLACK);
    assert_eq!(
        blend(px(255, 0, 255, 255), px(0, 255, 255, 255), BlendMode::Darken),
        px(0, 0, 255, 255)
    );
}

#[test]
fn lighten_takes_the_lighter_channel() {
    assert_eq!(blend(BLACK, WHITE, BlendMode::Lighten), WHITE);
    assert_eq!(
        blend(px(255, 0, 0, 255), px(0, 255, 0, 255), BlendMode::Lighten),
        px(255, 255, 0, 255)
    );
}

#[test]
fn dodge_brightens_to_white() {
    assert_eq!(blend(BLACK, WHITE, BlendMode::Dodge), WHITE);
}

#[test]
fn burn_darkens_to_black() {
    assert_eq!(blend(WHITE, BLACK, BlendMode::Burn), BLACK);
}

#[test]
fn hard_light_multiplies_under_a_dark_source() {
    let r = blend(px(128, 128, 128, 255), px(255, 0, 0, 255), BlendMode::HardLight);
    assert_eq!(r.a, 255);
    assert_eq!((r.g, r.b), (0, 0));
    // a mid-gray source multiplies the red channel down, so the result is
    // strictly between black and full red and differs from both inputs
    assert!(0 < r.r && r.r < 255);
}

#[test]
fn soft_light_of_white_lightens_gray() {
    let c = px(128, 128, 128, 255);
    let r = blend(WHITE, c, BlendMode::SoftLight);
    assert_eq!(r.a, 255);
    assert!(r.r > c.r && r.g > c.g && r.b > c.b);
    // the lightening is partial, not a plain replacement by the source
    assert_ne!(r, WHITE);
    assert_eq!(blend(WHITE, WHITE, BlendMode::SoftLight), WHITE);
}

#[test]
fn difference_is_the_absolute_channel_distance() {
    assert_eq!(blend(BLACK, WHITE, BlendMode::Difference), WHITE);
    assert_eq!(blend(WHITE, WHITE, BlendMode::Difference), BLACK);
}

#[test]
fn exclusion_of_black_and_white_is_white() {
    assert_eq!(blend(BLACK, WHITE, BlendMode::Exclusion), WHITE);
    assert_eq!(blend(WHITE, WHITE, BlendMode::Exclusion), BLACK);
}

use screenmix::blend::blend;
use screenmix::common::{BlendMode, Pixel, Raster, SortBy, SortKey, SortOrder};
use screenmix::compose::{
    blend_images, composite, divide_images, mix_images, unpremultiply_image, CompositeOp,
    RenderError,
};
use screenmix::matrix::Matrix;
use screenmix::warp::warp_sample;

fn solid(width: usize, height: usize, p: Pixel) -> Raster {
    Matrix { width, height, data: vec![p; width * height] }
}

const RED: Pixel = Pixel { r: 255, g: 0, b: 0, a: 255 };
const BLUE: Pixel = Pixel { r: 0, g: 0, b: 255, a: 255 };
const MAGENTA: Pixel = Pixel { r: 255, g: 0, b: 255, a: 255 };

#[test]
fn screen_of_red_and_blue_is_magenta_everywhere() {
    // in linear space, screen(1,0)=1 per channel: red and blue combine to
    // magenta at every position
    let a = solid(4, 4, RED);
    let b = solid(4, 4, BLUE);
    let out = composite(&a, &b, CompositeOp::Blend(BlendMode::Screen)).unwrap();
    assert_eq!(out.width, 4);
    assert_eq!(out.height, 4);
    for p in &out.data {
        assert_eq!(*p, MAGENTA);
    }
}

#[test]
fn divide_with_all_false_mask_is_image_two() {
    // a cutoff above every noise value lets no pixel through to image 1
    let a = solid(4, 4, RED);
    let b = solid(4, 4, BLUE);
    let mask = Matrix::fill(4, 4, false);
    let out = composite(&a, &b, CompositeOp::Divide(mask)).unwrap();
    assert_eq!(out.data, b.data);
}

#[test]
fn divide_with_all_true_mask_is_image_one() {
    let a = solid(4, 4, RED);
    let b = solid(4, 4, BLUE);
    let mask = Matrix::fill(4, 4, true);
    let out = composite(&a, &b, CompositeOp::Divide(mask)).unwrap();
    assert_eq!(out.data, a.data);
}

#[test]
fn divide_selects_per_pixel() {
    let a = solid(2, 1, RED);
    let b = solid(2, 1, BLUE);
    let mask = Matrix { width: 2, height: 1, data: vec![true, false] };
    let out = divide_images(&a, &b, &mask);
    assert_eq!(out.data, vec![RED, BLUE]);
}

#[test]
fn mix_switches_blend_direction() {
    let a = solid(2, 1, Pixel { r: 200, g: 40, b: 10, a: 255 });
    let b = solid(2, 1, Pixel { r: 5, g: 90, b: 250, a: 255 });
    let mask = Matrix { width: 2, height: 1, data: vec![true, false] };
    let out = mix_images(&a, &b, &mask, BlendMode::SoftLight);
    assert_eq!(out.data[0], blend(a.data[0], b.data[0], BlendMode::SoftLight));
    assert_eq!(out.data[1], blend(b.data[1], a.data[1], BlendMode::SoftLight));
}

#[test]
fn blend_images_applies_the_operator_pointwise() {
    let a = solid(3, 2, RED);
    let b = solid(3, 2, BLUE);
    let out = blend_images(&a, &b, BlendMode::Multiply);
    let expect = blend(RED, BLUE, BlendMode::Multiply);
    for p in &out.data {
        assert_eq!(*p, expect);
    }
}

#[test]
fn warp_reflects_at_every_edge() {
    // 2x2 image with distinct corners; coordinates are in units of a
    // 4096th of a pixel
    let p00 = Pixel { r: 1, g: 0, b: 0, a: 255 };
    let p10 = Pixel { r: 2, g: 0, b: 0, a: 255 };
    let p01 = Pixel { r: 3, g: 0, b: 0, a: 255 };
    let p11 = Pixel { r: 4, g: 0, b: 0, a: 255 };
    let img = Matrix { width: 2, height: 2, data: vec![p00, p10, p01, p11] };
    let coords = Matrix {
        width: 2,
        height: 2,
        data: vec![
            (0, 0),                   // exactly on the near corner
            (4096, 4096),             // exactly on the far corner
            (-4096, 0),               // one pixel past the near edge: mirrors to column 1
            (3 * 4096, 100 * 4096),   // far overshoots: mirror then clamp
        ],
    };
    let out = warp_sample(&img, &coords);
    assert_eq!(out.data[0], p00);
    assert_eq!(out.data[1], p11);
    assert_eq!(out.data[2], p10);
    // x: 3 px past a 2 px axis mirrors to 2*2-3 = 1; y: the mirror of a
    // far overshoot lands before the near edge and is clamped to row 0
    assert_eq!(out.data[3], p10);
}

#[test]
fn warp_identity_coordinates_copy_the_image() {
    let img = solid(3, 2, RED);
    let coords = Matrix {
        width: 3,
        height: 2,
        data: (0..6).map(|i| (((i % 3) as i64) * 4096, ((i / 3) as i64) * 4096)).collect(),
    };
    let out = composite(&img, &solid(3, 2, BLUE), CompositeOp::Warp(coords)).unwrap();
    assert_eq!(out.data, img.data);
}

#[test]
fn empty_output_is_rejected() {
    let a = Matrix { width: 0, height: 0, data: Vec::new() };
    let b = Matrix { width: 0, height: 0, data: Vec::new() };
    let r = composite(&a, &b, CompositeOp::Blend(BlendMode::Normal));
    assert_eq!(r, Err(RenderError::EmptyOutput));
}

#[test]
fn mismatched_images_are_rejected() {
    let a = solid(2, 2, RED);
    let b = solid(3, 2, BLUE);
    let r = composite(&a, &b, CompositeOp::Blend(BlendMode::Normal));
    assert_eq!(r, Err(RenderError::DimensionMismatch));
}

#[test]
fn mismatched_mask_is_rejected() {
    let a = solid(2, 2, RED);
    let b = solid(2, 2, BLUE);
    let mask = Matrix::fill(2, 1, true);
    let r = composite(&a, &b, CompositeOp::Divide(mask));
    assert_eq!(r, Err(RenderError::DimensionMismatch));
}

#[test]
fn composite_unsort_mode_runs_the_engine() {
    let gray = |v: u8| Pixel { r: v, g: v, b: v, a: 255 };
    let a = Matrix { width: 3, height: 1, data: vec![gray(200), gray(50), gray(100)] };
    let b = Matrix { width: 3, height: 1, data: vec![gray(7), gray(8), gray(9)] };
    let out = composite(
        &a,
        &b,
        CompositeOp::Unsort(SortKey::Lightness, SortBy::Row, SortOrder::Ascending, SortOrder::Ascending),
    )
        .unwrap();
    assert_eq!(out.data, vec![gray(9), gray(7), gray(8)]);
}

#[test]
fn unpremultiply_restores_straight_alpha() {
    let bytes: Vec<u8> = vec![
        128, 64, 32, 128, // half-covered pixel
        0, 0, 0, 0, // fully transparent pixel
        10, 20, 30, 255, // opaque pixel stays as it is (255/255)
    ];
    let out = unpremultiply_image(&bytes, 3, 1);
    assert_eq!(out.data[0], Pixel { r: 255, g: 127, b: 63, a: 128 });
    assert_eq!(out.data[1], Pixel { r: 0, g: 0, b: 0, a: 0 });
    assert_eq!(out.data[2], Pixel { r: 10, g: 20, b: 30, a: 255 });
}

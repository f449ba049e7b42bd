use screenmix::common::Pixel;
use screenmix::compose::prepare_image;
use screenmix::matrix::Matrix;

const RED: Pixel = Pixel { r: 255, g: 0, b: 0, a: 255 };

#[test]
fn prepare_resizes_to_the_target_dimensions() {
    let img = Matrix { width: 1, height: 1, data: vec![RED] };
    let out = prepare_image(&img, 0, 3, 2);
    assert_eq!(out.width, 3);
    assert_eq!(out.height, 2);
    assert_eq!(out.data.len(), 6);
    // resampling a constant image keeps the constant
    for p in &out.data {
        assert_eq!(*p, RED);
    }
}

#[test]
fn prepare_rotates_the_hue() {
    let img = Matrix { width: 2, height: 2, data: vec![RED; 4] };
    let out = prepare_image(&img, 180, 2, 2);
    assert_eq!(out.width, 2);
    assert_eq!(out.height, 2);
    // a half-turn moves red away from the red channel; alpha is untouched
    let p = out.data[0];
    assert_ne!(p, RED);
    assert_eq!(p.a, 255);
    assert!(p.g > p.r && p.b > p.r);
}

#[test]
fn prepare_with_zero_rotation_and_same_size_keeps_gray() {
    let gray = Pixel { r: 90, g: 90, b: 90, a: 255 };
    let img = Matrix { width: 2, height: 2, data: vec![gray; 4] };
    let out = prepare_image(&img, 0, 2, 2);
    assert_eq!(out.data, vec![gray; 4]);
}

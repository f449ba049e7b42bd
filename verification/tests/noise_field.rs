use screenmix::common::Pixel;
use screenmix::compose::{composite, CompositeOp};
use screenmix::matrix::Matrix;
use wassily::prelude::noise2d;
use wassily::prelude::Fbm;
use wassily::prelude::MultiFractal;
use wassily::prelude::NoiseOpts;
use wassily::prelude::Perlin;
use wassily::prelude::Seedable;

// The noise field behind the Divide and Mix masks lives outside the
// library (it is floating-point work), but the masks the library consumes
// are only reproducible if the field itself is: the same seed, octave
// count, scale factors and coordinates must give bit-identical values.
#[test]
fn noise_field_is_deterministic() {
    let mk = |seed: u32, octaves: usize| Fbm::<Perlin>::default().set_seed(seed).set_octaves(octaves);
    for (seed, octaves) in [(13u32, 2usize), (23, 4), (99, 8)] {
        let nf1 = mk(seed, octaves);
        let nf2 = mk(seed, octaves);
        let opts1 = NoiseOpts::default().scales(5.0).width(64.0).height(48.0);
        let opts2 = NoiseOpts::default().scales(5.0).width(64.0).height(48.0);
        for (x, y) in [(0.0f32, 0.0f32), (10.5, 20.25), (63.0, 47.0), (31.0, 7.0)] {
            let a = noise2d(&nf1, &opts1, x, y);
            let b = noise2d(&nf2, &opts2, x, y);
            assert_eq!(a.to_bits(), b.to_bits());
        }
    }
}

// The mask a caller derives from the field is then reproducible too: the
// exact pixel selection of a Divide composite repeats across renders.
#[test]
fn noise_mask_repeats_across_renders() {
    let build_mask = || {
        let nf = Fbm::<Perlin>::default().set_seed(13).set_octaves(2);
        let opts = NoiseOpts::default().scales(5.0).width(4.0).height(4.0);
        let mut data = Vec::new();
        for y in 0..4u32 {
            for x in 0..4u32 {
                data.push(noise2d(&nf, &opts, x as f32, y as f32) > 0.0);
            }
        }
        Matrix { width: 4, height: 4, data }
    };
    let red = Pixel { r: 255, g: 0, b: 0, a: 255 };
    let blue = Pixel { r: 0, g: 0, b: 255, a: 255 };
    let a = Matrix { width: 4, height: 4, data: vec![red; 16] };
    let b = Matrix { width: 4, height: 4, data: vec![blue; 16] };
    let out1 = composite(&a, &b, CompositeOp::Divide(build_mask())).unwrap();
    let out2 = composite(&a, &b, CompositeOp::Divide(build_mask())).unwrap();
    assert_eq!(out1.data, out2.data);
}

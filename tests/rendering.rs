use raytracer::rendering::{
    black, white, Color, HdrColor, Material, Pixel, PixelSize, RenderOpts, Rgb, Sampling,
};

#[test]
fn uniform_samples_average_to_the_same_color() {
    let c = Color::new(17, 200, 255);
    for n in 1..20 {
        let mut hdr = HdrColor::new();
        for _ in 0..n {
            hdr.add_color(c);
        }
        assert_eq!(c, hdr.to_color());
    }
}

#[test]
fn black_and_white_average_to_truncated_gray() {
    let mut hdr = HdrColor::new();
    hdr.add_color(black());
    hdr.add_color(white());
    assert_eq!(Color::new(127, 127, 127), hdr.to_color());
}

#[test]
fn mean_is_truncated_per_channel() {
    let mut hdr = HdrColor::new();
    hdr.add_color(Color::new(1, 10, 0));
    hdr.add_color(Color::new(2, 11, 0));
    hdr.add_color(Color::new(2, 11, 1));
    assert_eq!(3, hdr.samples);
    assert_eq!(Color::new(1, 10, 0), hdr.to_color());
}

#[test]
fn no_samples_convert_to_black() {
    assert_eq!(black(), HdrColor::new().to_color());
}

#[test]
fn small_value_types() {
    let m = Material::from_diffuse(Color::new(1, 2, 3));
    assert_eq!(Color::new(1, 2, 3), m.diffuse_color());
    assert_eq!(Sampling::Disabled, RenderOpts::new().samples);
    assert_eq!(Sampling::Samples16, RenderOpts::new().with_samples(Sampling::Samples16).samples);
    assert_eq!(PixelSize { width: 3, height: 4 }, PixelSize::new(3, 4));
    assert_eq!(Pixel { x: 5, y: 6 }, Pixel::new(5, 6));
    assert_eq!(Rgb { r: 255, g: 0, b: 0 }, Rgb::red());
    assert_eq!(Rgb { r: 0, g: 255, b: 0 }, Rgb::green());
    assert_eq!(Rgb { r: 50, g: 50, b: 50 }, Rgb::gray());
    assert_eq!(Rgb { r: 1, g: 2, b: 3 }, Rgb::new(1, 2, 3));
}

use mandelbrot::fixed::Fixed;
use mandelbrot::pixel::{IntoPixel, Pixel, PixelError};

/// The fixed-point value nearest to `x`.
fn fx(x: f64) -> Fixed {
    Fixed { raw: (x * 4294967296.0).round() as i64 }
}

#[test]
fn pixel_iterator() {
    let px = Pixel::new(9u8, 234, 5);

    let mut iter = IntoPixel::new(&px);

    while let Some(i) = iter.next() {
        println!("{:?}", i);
    }
}

fn test_hsb_to_rgb(h: f64, s: f64, v: f64, r: u8, g: u8, b: u8) {
    assert_eq!((r, g, b, 255u8), Pixel::from_hsb(fx(h), fx(s), fx(v)).unwrap().get_tuple())
}

#[test]
fn from_hsb() {
    test_hsb_to_rgb(360.0, 1.0, 1.0, 255, 0, 0);
    test_hsb_to_rgb(250.0, 1.0, 1.0, 43, 0, 255);
    test_hsb_to_rgb(360.0, 0.5, 0.5, 128, 64, 64);
    test_hsb_to_rgb(200.0, 0.5, 0.5, 64, 106, 128);
    test_hsb_to_rgb(0.0, 0.5, 0.5, 128, 64, 64);
    test_hsb_to_rgb(0.0, 0.0, 0.5, 128, 128, 128);
    test_hsb_to_rgb(0.0, 0.5, 0.0, 0, 0, 0);
    test_hsb_to_rgb(0.0, 0.0, 0.0, 0, 0, 0);
}

#[test]
fn from_hsb_rejects_invalid() {
    assert_eq!(
        Pixel::from_hsb(fx(10.0), fx(1.5), fx(0.5)),
        Err(PixelError::InvalidColorParameters)
    );
    assert_eq!(
        Pixel::from_hsb(fx(10.0), fx(0.5), fx(1.0001)),
        Err(PixelError::InvalidColorParameters)
    );
    // The boundary itself is accepted.
    assert!(Pixel::from_hsb(fx(10.0), fx(1.0), fx(1.0)).is_ok());
}

#[test]
fn from_hsb_negative_hue_wraps() {
    // -30 degrees lands in the same sector as 330 degrees.
    assert_eq!(
        Pixel::from_hsb(fx(-30.0), fx(1.0), fx(1.0)).unwrap().get_tuple(),
        Pixel::from_hsb(fx(330.0), fx(1.0), fx(1.0)).unwrap().get_tuple()
    );
}

#[test]
fn pixel_iterator_yields_channels_in_order() {
    let px = Pixel::new_rgba(1, 2, 3, 4);
    let mut iter = IntoPixel::new(&px);
    assert_eq!(iter.next(), Some(1));
    assert_eq!(iter.next(), Some(2));
    assert_eq!(iter.next(), Some(3));
    assert_eq!(iter.next(), Some(4));
    assert_eq!(iter.next(), None);
    assert_eq!(iter.next(), None);
}

#[test]
fn constructors_and_accessors() {
    let px = Pixel::new(1, 2, 3);
    assert_eq!(px.get_tuple(), (1, 2, 3, 255));
    let px = Pixel::new_rgba(1, 2, 3, 4);
    assert_eq!(px.get_tuple(), (1, 2, 3, 4));
    assert_eq!(px.get_vector(), vec![1, 2, 3, 4]);
    assert_eq!(px.get_slice(), [1, 2, 3, 4]);
    let px: Pixel = Default::default();
    assert_eq!(px.get_tuple(), (0, 0, 0, 255));
}

#[test]
fn setters_mutate_in_place() {
    let mut px = Pixel::new(0, 0, 0);
    px.set_r(10);
    px.set_g(20);
    px.set_b(30);
    px.set_alpha(40);
    assert_eq!(px.get_tuple(), (10, 20, 30, 40));
    px.set_rgb(1, 2, 3);
    assert_eq!(px.get_tuple(), (1, 2, 3, 40));
    px.set_rgba(5, 6, 7, 8);
    assert_eq!(px.get_tuple(), (5, 6, 7, 8));
}

#[test]
fn to_hex_fixed_width() {
    assert_eq!(Pixel::new(9, 234, 5).to_hex(), "0x09EA05FF");
    assert_eq!(Pixel::new_rgba(0x12, 0xAB, 0x00, 0xFF).to_hex(), "0x12AB00FF");
    assert_eq!(Pixel::new_rgba(0, 0, 0, 0).to_hex(), "0x00000000");
}

#[test]
fn from_hsb_continuous_across_wrap() {
    // A hue one raw unit below 360 degrees rounds onto the wrap; it colors
    // like hue 0, not like a stray sector.
    let just_below_360 = Fixed { raw: 360 * 4294967296 - 1 };
    assert_eq!(
        Pixel::from_hsb(just_below_360, fx(1.0), fx(1.0)).unwrap().get_tuple(),
        (255, 0, 0, 255)
    );
}

use mandelbrot::color_scale::{
    ColorFn, ContinuousColorScale, DiscreteColorScale, SimpleColorScale,
};
use mandelbrot::complex_number::ComplexNumber;
use mandelbrot::fixed::Fixed;

/// The fixed-point value nearest to `x`.
fn fx(x: f64) -> Fixed {
    Fixed { raw: (x * 4294967296.0).round() as i64 }
}

fn cn(r: f64, i: f64) -> ComplexNumber {
    ComplexNumber::new(fx(r), fx(i))
}

#[test]
fn simple_scale_binary_threshold() {
    let z = cn(0.0, 0.0);
    assert_eq!(SimpleColorScale::pixel_color(50, z, 50).get_tuple(), (255, 0, 0, 255));
    assert_eq!(SimpleColorScale::pixel_color(10, z, 50).get_tuple(), (0, 0, 0, 255));
}

#[test]
fn discrete_scale_bucketing() {
    let z = cn(0.0, 0.0);
    // Ratio 10/100 = 0.10 < 0.15: the first palette entry.
    assert_eq!(DiscreteColorScale::pixel_color(10, z, 100).get_tuple(), (255, 0, 0, 255));
    // Ratio 50/100 = 0.50 falls in the bucket below 0.60: the fourth entry.
    assert_eq!(DiscreteColorScale::pixel_color(50, z, 100).get_tuple(), (255, 255, 255, 255));
}

#[test]
fn discrete_scale_edges() {
    let z = cn(0.0, 0.0);
    // Exactly 0.15 leaves the first bucket.
    assert_eq!(DiscreteColorScale::pixel_color(15, z, 100).get_tuple(), (255, 255, 0, 255));
    // At the ceiling: the last entry.
    assert_eq!(DiscreteColorScale::pixel_color(100, z, 100).get_tuple(), (0, 0, 0, 255));
    // A zero ceiling matches no bucket: the last entry.
    assert_eq!(DiscreteColorScale::pixel_color(0, z, 0).get_tuple(), (0, 0, 0, 255));
}

#[test]
fn continuous_scale_in_set_is_black() {
    let z = cn(0.3, 0.1);
    assert_eq!(ContinuousColorScale::pixel_color(50, z, 50).get_tuple(), (0, 0, 0, 255));
}

#[test]
fn continuous_scale_escaped_point() {
    // An escaped iterate with the default parameters; channels computed on
    // the fixed-point grid.
    let z = cn(2.5, 1.5);
    assert_eq!(ContinuousColorScale::pixel_color(3, z, 50).get_tuple(), (92, 51, 255, 255));
}

#[test]
fn continuous_scale_gen_escaped_point() {
    let z = cn(4.0, 0.0);
    let px = ContinuousColorScale::pixel_color_gen(
        0,
        z,
        10,
        Fixed { raw: 863073678131 },
        Fixed { raw: 3435973837 },
        Fixed { raw: 4294967296 },
        Fixed { raw: 42949672960 },
    );
    assert_eq!(px.get_tuple(), (51, 125, 255, 255));
}

#[test]
fn get_color_fn_binds_parameters() {
    let cf = ContinuousColorScale::get_color_fn(fx(140.0), fx(1.0), fx(1.0));
    assert_eq!(
        cf,
        ColorFn::Continuous { hue: fx(140.0), sat: fx(1.0), val: fx(1.0), scale: fx(10.0) }
    );
    let boxed = ContinuousColorScale::get_color_fn_boxed(fx(140.0), fx(1.0), fx(1.0));
    assert_eq!(*boxed, cf);
}

use mandelbrot::color_scale::ColorFn;
use mandelbrot::complex_number::ComplexNumber;
use mandelbrot::fixed::Fixed;
use mandelbrot::mandelbrot::{iterate_coordinate, Mandelbrot, MandelbrotConfig, Viewport};

/// The fixed-point value nearest to `x`.
fn fx(x: f64) -> Fixed {
    Fixed { raw: (x * 4294967296.0).round() as i64 }
}

fn cn(r: f64, i: f64) -> ComplexNumber {
    ComplexNumber::new(fx(r), fx(i))
}

/// A small configuration over a region around the set.
fn small_config(color_fn: ColorFn) -> MandelbrotConfig {
    MandelbrotConfig {
        dimensions: (8, 6),
        viewport: Viewport { top_left: cn(-2.0, 1.5), width: fx(3.0), height: fx(3.0) },
        color_fn,
    }
}

#[test]
fn altogether_now() {
    let dimensions = (1920, 1080);
    let viewport = Viewport { top_left: cn(-3.0, 1.15), width: fx(4.0), height: fx(2.25) };

    let config = MandelbrotConfig { dimensions, viewport, color_fn: ColorFn::Simple };

    let mut mandelbrot = Mandelbrot::new(config);
    mandelbrot.run_iterations(50);
    let data = mandelbrot.get_pixels();

    assert_eq!(data.len(), 1080);
    assert_eq!(data[0].len(), 1920);
}

#[test]
fn simple_scale_small_grid() {
    let config = MandelbrotConfig {
        dimensions: (3, 3),
        viewport: Viewport { top_left: cn(-2.0, 1.5), width: fx(3.0), height: fx(3.0) },
        color_fn: ColorFn::Simple,
    };
    let mut engine = Mandelbrot::new(config);
    engine.run_iterations(5);
    let data = engine.get_pixels();
    let red = (255u8, 0u8, 0u8, 255u8);
    let black = (0u8, 0u8, 0u8, 255u8);
    let expected = [
        [black, black, black],
        [black, red, red],
        [black, red, red],
    ];
    for r in 0..3 {
        for c in 0..3 {
            assert_eq!(data[r][c].get_tuple(), expected[r][c]);
        }
    }
}

#[test]
fn resumability_split_budget() {
    // advance(3) then advance(4) must equal advance(7) in one call.
    let mut once = Mandelbrot::new(small_config(ColorFn::Discrete));
    once.run_iterations(7);

    let mut split = Mandelbrot::new(small_config(ColorFn::Discrete));
    split.run_iterations(3);
    split.run_iterations(4);

    assert_eq!(once.get_pixels(), split.get_pixels());
}

#[test]
fn reset_restores_fresh_grid() {
    let mut engine = Mandelbrot::new(small_config(ColorFn::Simple));
    engine.run_iterations(10);
    engine.reset();

    let fresh = Mandelbrot::new(small_config(ColorFn::Simple));
    assert_eq!(engine.get_pixels(), fresh.get_pixels());
}

#[test]
fn iterate_coordinate_accumulates_monotonically() {
    let c = cn(0.4, 0.4);
    let start = (0u32, cn(0.0, 0.0));

    let first = iterate_coordinate(start, c, 5);
    let second = iterate_coordinate(first, c, 3);

    // The completed count never shrinks and stays within the budget.
    assert!(first.0 <= 5);
    assert!(second.0 >= first.0);
    assert!(second.0 <= 8);

    // Resuming matches a single run with the whole budget.
    let whole = iterate_coordinate(start, c, 8);
    assert_eq!(second.0, whole.0);
    assert_eq!((second.1.r, second.1.i), (whole.1.r, whole.1.i));
}

#[test]
fn continuous_scale_full_frame() {
    // The continuous strategy as a configuration value over a small frame.
    let cf = ColorFn::Continuous {
        hue: fx(140.0),
        sat: fx(1.0),
        val: fx(1.0),
        scale: fx(10.0),
    };
    let mut engine = Mandelbrot::new(small_config(cf));
    engine.run_iterations(25);
    let data = engine.get_pixels();
    assert_eq!(data.len(), 6);
    for row in data {
        assert_eq!(row.len(), 8);
        for px in row {
            // Every pixel is fully opaque.
            assert_eq!(px.get_tuple().3, 255);
        }
    }
}

#[test]
fn zero_sized_grid() {
    let config = MandelbrotConfig {
        dimensions: (0, 0),
        viewport: Viewport { top_left: cn(0.0, 0.0), width: fx(1.0), height: fx(1.0) },
        color_fn: ColorFn::Simple,
    };
    let mut engine = Mandelbrot::new(config);
    engine.run_iterations(10);
    assert_eq!(engine.get_pixels().len(), 0);
}

#[test]
fn zero_iteration_budget_recolors_only() {
    // A zero budget leaves every count at zero, so the frame ceiling is
    // zero and the binary scale paints everything red (nothing escaped its
    // zero-step budget).
    let mut engine = Mandelbrot::new(small_config(ColorFn::Simple));
    engine.run_iterations(0);
    for row in engine.get_pixels() {
        for px in row {
            assert_eq!(px.get_tuple(), (255, 0, 0, 255));
        }
    }
}

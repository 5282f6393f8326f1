//! Coloring strategies: from per-pixel escape results to pixels.
//!
//! Each strategy maps `(escape_count, final_z, max_escape_in_frame)` to a
//! [`Pixel`].  Three strategies exist: a binary threshold, a discrete
//! bucketing of the escape ratio, and a continuous (smooth) coloring that
//! feeds a logarithmically smoothed count into HSB conversion.  The engine's
//! configuration carries the chosen strategy as a [`ColorFn`] value, so one
//! escape-time computation can be recolored cheaply under different
//! strategies.

use crate::complex_number::{cabs, cnorm_sqr, ComplexNumber};
use crate::fixed::{f_from_int, fadd, flog10, flog2, fmul, fsub, Fixed, SCALE};
use crate::pixel::{hsb_pixel, Pixel};
use vstd::prelude::*;

verus! {

/// Raw fixed-point value of the default continuous hue, 200.95 degrees.
pub const DEFAULT_HUE_RAW: i64 = 863073678131;

/// Raw fixed-point value of the default continuous saturation, 0.8.
pub const DEFAULT_SAT_RAW: i64 = 3435973837;

/// Raw fixed-point value of the default continuous brightness, 1.0.
pub const DEFAULT_VAL_RAW: i64 = 4294967296;

/// Raw fixed-point value of the default hue scale, 10.0.
pub const DEFAULT_SCALE_RAW: i64 = 42949672960;

/// A coloring strategy as a configuration value: the binary threshold, the
/// discrete buckets, or continuous coloring with its bound hue, saturation,
/// brightness and hue scale.
#[derive(Clone, Copy, Debug, PartialEq, Eq, Structural)]
pub enum ColorFn {
    /// Binary threshold coloring ([`SimpleColorScale`]).
    Simple,
    /// Discrete bucketed coloring ([`DiscreteColorScale`]).
    Discrete,
    /// Continuous smooth coloring ([`ContinuousColorScale`]) with bound
    /// parameters.
    Continuous {
        /// The base hue in degrees.
        hue: Fixed,
        /// The saturation, at most 1.
        sat: Fixed,
        /// The brightness, at most 1.
        val: Fixed,
        /// The factor applied to the smoothed count before it joins the hue.
        scale: Fixed,
    },
}

/// Whether a strategy value can color every cell without failing: the
/// continuous parameters must not exceed 1, since HSB conversion rejects
/// saturation or brightness above 1.
pub open spec fn color_fn_valid(cf: ColorFn) -> bool {
    match cf {
        ColorFn::Continuous { hue, sat, val, scale } => sat.raw <= SCALE && val.raw <= SCALE,
        _ => true,
    }
}

/// Binary coloring: opaque red for cells that never escaped within the
/// frame ceiling, opaque black for the rest.
pub open spec fn simple_color(iters: u32, max: u32) -> Pixel {
    if iters == max {
        Pixel { r: 255, g: 0, b: 0, a: 255 }
    } else {
        Pixel { r: 0, g: 0, b: 0, a: 255 }
    }
}

/// Discrete coloring: the ratio `iters / max` is bucketed into eight fixed
/// ranges (below 0.15, 0.30, 0.45, 0.60, 0.75, 0.80, 0.95, and the rest),
/// each mapped to a fixed palette entry built from full and empty channels.
/// The comparisons are exact on the rational ratio; when `max` is zero no
/// bucket matches and the last palette entry is used.
pub open spec fn discrete_color(iters: u32, max: u32) -> Pixel {
    if max > 0 && 20 * iters < 3 * max {
        Pixel { r: 255, g: 0, b: 0, a: 255 }
    } else if max > 0 && 10 * iters < 3 * max {
        Pixel { r: 255, g: 255, b: 0, a: 255 }
    } else if max > 0 && 20 * iters < 9 * max {
        Pixel { r: 0, g: 255, b: 0, a: 255 }
    } else if max > 0 && 5 * iters < 3 * max {
        Pixel { r: 255, g: 255, b: 255, a: 255 }
    } else if max > 0 && 4 * iters < 3 * max {
        Pixel { r: 255, g: 0, b: 255, a: 255 }
    } else if max > 0 && 5 * iters < 4 * max {
        Pixel { r: 255, g: 0, b: 255, a: 255 }
    } else if max > 0 && 20 * iters < 19 * max {
        Pixel { r: 255, g: 255, b: 255, a: 255 }
    } else {
        Pixel { r: 0, g: 0, b: 0, a: 255 }
    }
}

/// The smoothed escape count of the continuous strategy:
/// `iters + 1 - log2(log10(|z|))` on the fixed-point grid.
pub open spec fn smooth_count(iters: u32, z: ComplexNumber) -> Fixed {
    fsub(fadd(f_from_int(iters as int), f_from_int(1)), flog2(flog10(cabs(z))))
}

/// Continuous coloring: cells at the frame ceiling are pure black (inside
/// the set); the rest get `hue + scale * smooth` fed into HSB conversion
/// with the bound saturation and brightness.
pub open spec fn continuous_color(
    iters: u32,
    z: ComplexNumber,
    max: u32,
    hue: Fixed,
    sat: Fixed,
    val: Fixed,
    scale: Fixed,
) -> Pixel {
    if iters == max {
        Pixel { r: 0, g: 0, b: 0, a: 255 }
    } else {
        hsb_pixel(fadd(hue, fmul(scale, smooth_count(iters, z))), sat, val)
    }
}

/// The pixel a strategy value produces for a cell.
pub open spec fn color_at(cf: ColorFn, iters: u32, z: ComplexNumber, max: u32) -> Pixel {
    match cf {
        ColorFn::Simple => simple_color(iters, max),
        ColorFn::Discrete => discrete_color(iters, max),
        ColorFn::Continuous { hue, sat, val, scale } => continuous_color(
            iters,
            z,
            max,
            hue,
            sat,
            val,
            scale,
        ),
    }
}

/// The binary threshold strategy.
pub struct SimpleColorScale {}

impl SimpleColorScale {
    /// Opaque red when the cell sat at the frame ceiling (did not escape),
    /// opaque black otherwise.  The final iterate is ignored.
    pub fn pixel_color(
        iters_to_escape: u32,
        _ending_point: ComplexNumber,
        max_iterations: u32,
    ) -> (px: Pixel)
        ensures
            px == simple_color(iters_to_escape, max_iterations),
    {
        if iters_to_escape == max_iterations {
            Pixel::new(255, 0, 0)
        } else {
            Pixel::new(0, 0, 0)
        }
    }
}

/// The discrete bucketing strategy.
pub struct DiscreteColorScale {}

impl DiscreteColorScale {
    /// The palette entry of the bucket holding `iters_to_escape /
    /// max_iterations`; the comparisons are exact on the rational ratio.
    /// The final iterate is ignored.
    pub fn pixel_color(
        iters_to_escape: u32,
        _ending_point: ComplexNumber,
        max_iterations: u32,
    ) -> (px: Pixel)
        ensures
            px == discrete_color(iters_to_escape, max_iterations),
    {
        let e: u64 = iters_to_escape as u64;
        let m: u64 = max_iterations as u64;
        if m > 0 && 20 * e < 3 * m {
            Pixel::new(255, 0, 0)
        } else if m > 0 && 10 * e < 3 * m {
            Pixel::new(255, 255, 0)
        } else if m > 0 && 20 * e < 9 * m {
            Pixel::new(0, 255, 0)
        } else if m > 0 && 5 * e < 3 * m {
            Pixel::new(255, 255, 255)
        } else if m > 0 && 4 * e < 3 * m {
            Pixel::new(255, 0, 255)
        } else if m > 0 && 5 * e < 4 * m {
            Pixel::new(255, 0, 255)
        } else if m > 0 && 20 * e < 19 * m {
            Pixel::new(255, 255, 255)
        } else {
            Pixel::new(0, 0, 0)
        }
    }
}

/// The continuous (smooth) coloring strategy.
pub struct ContinuousColorScale {}

impl ContinuousColorScale {
    /// Smooth coloring with explicit parameters.  Cells at the frame
    /// ceiling are pure black whatever the parameters; for the rest, the
    /// smoothed count `iters + 1 - log2(log10(|z|))` scales the hue fed to
    /// HSB conversion.  Below the ceiling, the saturation and brightness
    /// must not exceed 1 (HSB conversion rejects more, and the cell would
    /// have no color), and the cell must have escaped, so that the
    /// logarithms are taken of positive values.
    pub fn pixel_color_gen(
        iters_to_escape: u32,
        ending_point: ComplexNumber,
        num_iterations: u32,
        hue: Fixed,
        sat: Fixed,
        val: Fixed,
        scale: Fixed,
    ) -> (px: Pixel)
        requires
            iters_to_escape == num_iterations || (sat.raw <= SCALE && val.raw <= SCALE
                && cnorm_sqr(ending_point).raw >= 4 * SCALE),
        ensures
            px == continuous_color(
                iters_to_escape,
                ending_point,
                num_iterations,
                hue,
                sat,
                val,
                scale,
            ),
    {
        if iters_to_escape == num_iterations {
            return Pixel::new(0, 0, 0);
        }
        let ns: Fixed = ending_point.norm_sqr();
        let a: Fixed = ns.sqrt();
        proof {
            if a.raw < 2 * SCALE {
                assert((a.raw + 1) * (a.raw + 1) <= (2 * (SCALE as int)) * (2 * (SCALE as int)))
                    by (nonlinear_arith)
                    requires
                        0 <= a.raw + 1 <= 2 * (SCALE as int),
                ;
                assert((2 * (SCALE as int)) * (2 * (SCALE as int)) <= ns.raw * (SCALE as int))
                    by (nonlinear_arith)
                    requires
                        ns.raw >= 4 * (SCALE as int) && SCALE as int == 4294967296,
                ;
                assert(false);
            }
        }
        let l10: Fixed = a.log10();
        let l2: Fixed = l10.log2();
        let smooth: Fixed = Fixed::from_u32(iters_to_escape).add(Fixed::from_int(1)).sub(l2);
        let h: Fixed = hue.add(scale.mul(smooth));
        let res: Result<Pixel, crate::pixel::PixelError> = Pixel::from_hsb(h, sat, val);
        proof {
            assert(res is Ok);
        }
        match res {
            Ok(p) => p,
            Err(_) => Pixel::new(0, 0, 0),
        }
    }

    /// Smooth coloring with the default parameters: hue 200.95, saturation
    /// 0.8, brightness 1.0, hue scale 10.
    pub fn pixel_color(
        iters_to_escape: u32,
        ending_point: ComplexNumber,
        num_iterations: u32,
    ) -> (px: Pixel)
        requires
            iters_to_escape == num_iterations || cnorm_sqr(ending_point).raw >= 4 * SCALE,
        ensures
            px == continuous_color(
                iters_to_escape,
                ending_point,
                num_iterations,
                Fixed { raw: DEFAULT_HUE_RAW },
                Fixed { raw: DEFAULT_SAT_RAW },
                Fixed { raw: DEFAULT_VAL_RAW },
                Fixed { raw: DEFAULT_SCALE_RAW },
            ),
    {
        ContinuousColorScale::pixel_color_gen(
            iters_to_escape,
            ending_point,
            num_iterations,
            Fixed { raw: DEFAULT_HUE_RAW },
            Fixed { raw: DEFAULT_SAT_RAW },
            Fixed { raw: DEFAULT_VAL_RAW },
            Fixed { raw: DEFAULT_SCALE_RAW },
        )
    }

    /// Binds hue, saturation and brightness (with the default hue scale of
    /// 10) into a reusable strategy value for a configuration.
    pub fn get_color_fn(hue: Fixed, sat: Fixed, val: Fixed) -> (cf: ColorFn)
        ensures
            cf == (ColorFn::Continuous { hue, sat, val, scale: Fixed { raw: DEFAULT_SCALE_RAW } }),
    {
        ColorFn::Continuous { hue, sat, val, scale: Fixed { raw: DEFAULT_SCALE_RAW } }
    }

    /// As [`ContinuousColorScale::get_color_fn`], boxed.
    pub fn get_color_fn_boxed(hue: Fixed, sat: Fixed, val: Fixed) -> (cf: Box<ColorFn>)
        ensures
            *cf == (ColorFn::Continuous { hue, sat, val, scale: Fixed { raw: DEFAULT_SCALE_RAW } }),
    {
        Box::new(ContinuousColorScale::get_color_fn(hue, sat, val))
    }
}

/// The pixel that the strategy `cf` gives a cell with escape count `iters`
/// and final iterate `z`, under the frame ceiling `max`.  A cell below the
/// ceiling must have escaped (the engine's iteration guarantees it), so the
/// continuous strategy's logarithms are taken of positive values.
pub fn apply_color(cf: &ColorFn, iters: u32, z: ComplexNumber, max: u32) -> (px: Pixel)
    requires
        color_fn_valid(*cf),
        iters == max || cnorm_sqr(z).raw >= 4 * SCALE,
    ensures
        px == color_at(*cf, iters, z, max),
{
    match cf {
        ColorFn::Simple => SimpleColorScale::pixel_color(iters, z, max),
        ColorFn::Discrete => DiscreteColorScale::pixel_color(iters, z, max),
        ColorFn::Continuous { hue, sat, val, scale } => ContinuousColorScale::pixel_color_gen(
            iters,
            z,
            max,
            *hue,
            *sat,
            *val,
            *scale,
        ),
    }
}

} // verus!

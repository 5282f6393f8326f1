use mandelbrot::fixed::Fixed;

/// The fixed-point value nearest to `x`.
fn fx(x: f64) -> Fixed {
    Fixed { raw: (x * 4294967296.0).round() as i64 }
}

#[test]
fn arithmetic_exact_on_representable_values() {
    assert_eq!(fx(2.5).add(fx(0.25)), fx(2.75));
    assert_eq!(fx(2.5).sub(fx(0.25)), fx(2.25));
    assert_eq!(fx(1.5).mul(fx(2.0)), fx(3.0));
    assert_eq!(fx(3.0).div(fx(2.0)), fx(1.5));
    assert_eq!(Fixed::from_int(-7), fx(-7.0));
    assert_eq!(Fixed::from_u32(7), fx(7.0));
}

#[test]
fn division_rounds_to_nearest() {
    // 1/3 rounded to the nearest representable value.
    assert_eq!(fx(1.0).div(fx(3.0)).raw, 1431655765);
    assert_eq!(fx(-1.0).div(fx(3.0)).raw, -1431655765);
}

#[test]
fn saturation_at_the_rim() {
    assert_eq!(Fixed { raw: i64::MAX }.add(fx(1.0)).raw, i64::MAX);
    assert_eq!(Fixed { raw: i64::MIN }.sub(fx(1.0)).raw, i64::MIN);
    assert_eq!(Fixed { raw: i64::MAX }.mul(fx(4.0)).raw, i64::MAX);
}

#[test]
fn division_by_zero_saturates() {
    assert_eq!(fx(1.0).div(fx(0.0)).raw, i64::MAX);
    assert_eq!(fx(-1.0).div(fx(0.0)).raw, i64::MIN);
    assert_eq!(fx(0.0).div(fx(0.0)).raw, 0);
}

#[test]
fn sqrt_rounds_down_on_the_grid() {
    assert_eq!(fx(25.0).sqrt(), fx(5.0));
    assert_eq!(fx(0.0).sqrt(), fx(0.0));
    assert_eq!(fx(2.0).sqrt().raw, 6074000999);
}

#[test]
fn log2_exact_on_powers_of_two() {
    assert_eq!(fx(1.0).log2(), fx(0.0));
    assert_eq!(fx(8.0).log2(), fx(3.0));
    assert_eq!(fx(0.25).log2(), fx(-2.0));
}

#[test]
fn log10_of_a_round_power() {
    assert_eq!(fx(100.0).log10(), fx(2.0));
    // log2(10) on the grid is the crate's own conversion constant.
    assert_eq!(fx(10.0).log2().raw, 14267572527);
}

#[test]
fn rem_euclid_wraps_into_range() {
    assert_eq!(fx(725.0).rem_euclid_u32(360), fx(5.0));
    assert_eq!(fx(-30.0).rem_euclid_u32(360), fx(330.0));
    assert_eq!(fx(330.0).rem_euclid_u32(360), fx(330.0));
}

#[test]
fn from_u32_saturates_large_values() {
    assert_eq!(Fixed::from_u32(4000000000).raw, i64::MAX);
    assert_eq!(Fixed::from_u32(2147483647).raw, 2147483647i64 * 4294967296);
}

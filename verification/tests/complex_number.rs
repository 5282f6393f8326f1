use mandelbrot::complex_number::ComplexNumber;
use mandelbrot::fixed::Fixed;

/// The fixed-point value nearest to `x`.
fn fx(x: f64) -> Fixed {
    Fixed { raw: (x * 4294967296.0).round() as i64 }
}

fn cn(r: f64, i: f64) -> ComplexNumber {
    ComplexNumber::new(fx(r), fx(i))
}

#[test]
fn complex_addition() {
    let a = cn(4.0, 5.0);
    let b = cn(5.6, 9.0);

    let c = a.add(b);

    assert_eq!(c.r, fx(9.6));
    assert_eq!(c.i, fx(14.0));

    assert_eq!(a.r, fx(4.0));
    assert_eq!(b.r, fx(5.6));
}

#[test]
fn complex_addition2() {
    let a = cn(4.0, 5.0);
    let b = cn(5.5, 9.0);

    let c = a.add_scalar(Fixed::from_int(5));
    assert_eq!(c.r, fx(9.0));

    let c = b.add_scalar(fx(-5.0));
    assert_eq!(c.r, fx(0.5));
}

#[test]
fn complex_multiplication() {
    let a = cn(1.0, 1.0);
    let b = cn(5.0, 3.0);

    let c = a.mul(b);
    assert_eq!(c.r, fx(2.0));
    assert_eq!(c.i, fx(8.0));
}

#[test]
fn complex_multiplication2() {
    let a = cn(1.0, 3.0);

    let c = a.mul_scalar(Fixed::from_int(2));

    assert_eq!(c.r, fx(2.0));
    assert_eq!(c.i, fx(6.0));
}

#[test]
fn complex_division() {
    let a = cn(2.0, 2.0);

    let c = a.div(fx(2.0));
    assert_eq!(c.r, fx(1.0));
    assert_eq!(c.i, fx(1.0));
}

#[test]
fn complex_abs() {
    assert_eq!(cn(3.0, 4.0).abs(), fx(5.0));
    assert_eq!(cn(-3.0, 4.0).abs(), fx(5.0));
    assert_eq!(cn(3.0, -4.0).abs(), fx(5.0));
    assert_eq!(cn(-3.0, -4.0).abs(), fx(5.0));

    assert_eq!(cn(5.0, 0.0).abs(), fx(5.0));
    assert_eq!(cn(0.0, 5.0).abs(), fx(5.0));
}

#[test]
fn complex_eq() {
    let a = cn(2.0, 2.0);
    let b = cn(2.0, 2.0);
    assert_eq!(a, b);

    let a = cn(3.0, 2.0);
    assert_ne!(a, b);

    // Equality compares magnitudes only: a different phase with the same
    // magnitude still compares equal.
    let a = cn(-2.0, 2.0);
    assert_eq!(a, b);
}

#[test]
fn complex_cmp() {
    let a = cn(2.0, 2.0);

    assert!(a > cn(2.0, 0.0));
    assert!(a == cn(2.0, 2.0));
}

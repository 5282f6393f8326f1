//! A four-channel RGBA pixel with 8-bit channels.
//!
//! Besides construction and per-channel mutation, the module offers HSB
//! construction ([`Pixel::from_hsb`]) over the fixed-point scalar,
//! fixed-width uppercase hex formatting, and a sequential channel extractor
//! ([`IntoPixel`]) that yields exactly the four channels in R, G, B, A
//! order.

use crate::fixed::{f_from_int, fdiv, fmod_int, fmul, fsub, rnd_away, Fixed, SCALE};
use vstd::prelude::*;
use vstd::string::StringExecFns;

verus! {

/// An RGBA color value with 8-bit channels.
#[derive(Clone, Copy, Debug, PartialEq, Eq, Structural)]
pub struct Pixel {
    /// The red channel.
    pub r: u8,
    /// The green channel.
    pub g: u8,
    /// The blue channel.
    pub b: u8,
    /// The alpha channel.
    pub a: u8,
}

/// The error of HSB construction: saturation or brightness above 1.
#[derive(Clone, Copy, Debug, PartialEq, Eq, Structural)]
pub enum PixelError {
    /// Saturation or brightness exceeded 1.
    InvalidColorParameters,
}

/// A unit channel value scaled to the 8-bit range: `x * 255` rounded to the
/// nearest integer and clamped to `[0, 255]`.
pub open spec fn scale_channel(x: Fixed) -> int {
    let v = rnd_away(x.raw * 255, SCALE as int);
    if v < 0 {
        0
    } else if v > 255 {
        255
    } else {
        v
    }
}

/// The R, G, B channels of the canonical HSB sector decomposition, already
/// scaled to the 8-bit range.  The hue is first reduced to `[0, 360)`
/// degrees and divided by 60; the integer part, taken modulo 6, selects the
/// sector and the fractional part `ff` drives the three ramps `p`, `q`,
/// `t`.  (The rounded division can land exactly on 6 for hues just below a
/// multiple of 360 degrees; modulo 6 that is the first sector, with
/// `ff = 0`, keeping the wheel continuous across the wrap.)  A nonpositive
/// saturation gives the achromatic gray `(v, v, v)`.
pub open spec fn hsb_channels(hue: Fixed, s: Fixed, v: Fixed) -> (int, int, int) {
    if s.raw <= 0 {
        (scale_channel(v), scale_channel(v), scale_channel(v))
    } else {
        let hh = fdiv(fmod_int(hue, 360), f_from_int(60));
        let sector = (hh.raw as int) / (SCALE as int);
        let ff = Fixed { raw: ((hh.raw as int) % (SCALE as int)) as i64 };
        let one = f_from_int(1);
        let p = fmul(v, fsub(one, s));
        let q = fmul(v, fsub(one, fmul(s, ff)));
        let t = fmul(v, fsub(one, fmul(s, fsub(one, ff))));
        let rgb = if sector == 1 {
            (q, v, p)
        } else if sector == 2 {
            (p, v, t)
        } else if sector == 3 {
            (p, q, v)
        } else if sector == 4 {
            (t, p, v)
        } else if sector == 5 {
            (v, p, q)
        } else {
            (v, t, p)
        };
        (scale_channel(rgb.0), scale_channel(rgb.1), scale_channel(rgb.2))
    }
}

/// The opaque pixel whose channels are the HSB decomposition of the given
/// hue, saturation and brightness.
pub open spec fn hsb_pixel(hue: Fixed, s: Fixed, v: Fixed) -> Pixel {
    let c = hsb_channels(hue, s, v);
    Pixel { r: c.0 as u8, g: c.1 as u8, b: c.2 as u8, a: 255 }
}

/// The uppercase hex digit of a nibble.
pub open spec fn hex_digit(n: int) -> char {
    if n == 0 {
        '0'
    } else if n == 1 {
        '1'
    } else if n == 2 {
        '2'
    } else if n == 3 {
        '3'
    } else if n == 4 {
        '4'
    } else if n == 5 {
        '5'
    } else if n == 6 {
        '6'
    } else if n == 7 {
        '7'
    } else if n == 8 {
        '8'
    } else if n == 9 {
        '9'
    } else if n == 10 {
        'A'
    } else if n == 11 {
        'B'
    } else if n == 12 {
        'C'
    } else if n == 13 {
        'D'
    } else if n == 14 {
        'E'
    } else {
        'F'
    }
}

/// The two-digit uppercase hex rendering of a byte: high nibble first, the
/// low value zero-padded.
pub open spec fn hex_of_byte(v: int) -> Seq<char> {
    seq![hex_digit(v / 16), hex_digit(v % 16)]
}

/// The uppercase hex digit of a nibble, as a one-character string slice.
fn hex_digit_str(n: u8) -> (s: &'static str)
    requires
        n < 16,
    ensures
        s@ == seq![hex_digit(n as int)],
{
    let s: &'static str = match n {
        0 => "0",
        1 => "1",
        2 => "2",
        3 => "3",
        4 => "4",
        5 => "5",
        6 => "6",
        7 => "7",
        8 => "8",
        9 => "9",
        10 => "A",
        11 => "B",
        12 => "C",
        13 => "D",
        14 => "E",
        _ => "F",
    };
    proof {
        reveal_strlit("0");
        reveal_strlit("1");
        reveal_strlit("2");
        reveal_strlit("3");
        reveal_strlit("4");
        reveal_strlit("5");
        reveal_strlit("6");
        reveal_strlit("7");
        reveal_strlit("8");
        reveal_strlit("9");
        reveal_strlit("A");
        reveal_strlit("B");
        reveal_strlit("C");
        reveal_strlit("D");
        reveal_strlit("E");
        reveal_strlit("F");
    }
    assert(s@ =~= seq![hex_digit(n as int)]);
    s
}

/// Appends the two-digit uppercase hex rendering of `v`.
fn push_hex(s: &mut String, v: u8)
    ensures
        final(s)@ == old(s)@ + hex_of_byte(v as int),
{
    s.append(hex_digit_str(v / 16));
    s.append(hex_digit_str(v % 16));
    assert(final(s)@ =~= old(s)@ + hex_of_byte(v as int));
}

/// A unit channel value scaled to the 8-bit range, as an executable step.
fn scale_to_channel(x: Fixed) -> (c: u8)
    ensures
        c as int == scale_channel(x),
{
    if x.raw <= 0 {
        proof {
            if x.raw < 0 {
                let n: int = x.raw * 255;
                let d: int = SCALE as int;
                vstd::arithmetic::div_mod::lemma_div_pos_is_pos(2 * (-n) + d, 2 * d);
            }
        }
        0
    } else {
        let num: u128 = (x.raw as u128) * 255;
        let q: u128 = (2 * num + 4294967296) / (2 * 4294967296);
        if q > 255 {
            255
        } else {
            q as u8
        }
    }
}

impl Pixel {
    /// A pixel from R, G, B channels, fully opaque.
    pub fn new(r: u8, g: u8, b: u8) -> (px: Pixel)
        ensures
            px == (Pixel { r, g, b, a: 255u8 }),
    {
        Pixel::new_rgba(r, g, b, 255)
    }

    /// A pixel from all four channels.
    pub fn new_rgba(r: u8, g: u8, b: u8, a: u8) -> (px: Pixel)
        ensures
            px == (Pixel { r, g, b, a }),
    {
        Pixel { r, g, b, a }
    }

    /// A pixel from hue (degrees), saturation and brightness (both in
    /// `[0, 1]`).  Fails exactly when saturation or brightness exceeds 1;
    /// a nonpositive saturation gives the achromatic gray scaled from the
    /// brightness.
    pub fn from_hsb(hue: Fixed, saturation: Fixed, brightness: Fixed) -> (res: Result<
        Pixel,
        PixelError,
    >)
        ensures
            (res is Err) <==> (saturation.raw > SCALE || brightness.raw > SCALE),
            (res is Err) ==> res == Result::<Pixel, PixelError>::Err(
                PixelError::InvalidColorParameters,
            ),
            (res is Ok) ==> res == Result::<Pixel, PixelError>::Ok(
                hsb_pixel(hue, saturation, brightness),
            ),
            (saturation.raw <= 0 && res is Ok) ==> (res->Ok_0.r == scale_channel(brightness)
                && res->Ok_0.g == scale_channel(brightness) && res->Ok_0.b == scale_channel(
                brightness,
            )),
    {
        if saturation.raw > SCALE || brightness.raw > SCALE {
            return Err(PixelError::InvalidColorParameters);
        }
        let rgb: (Fixed, Fixed, Fixed) = if saturation.raw <= 0 {
            (brightness, brightness, brightness)
        } else {
            let m: Fixed = hue.rem_euclid_u32(360);
            let hh: Fixed = m.div(Fixed::from_int(60));
            proof {
                vstd::arithmetic::div_mod::lemma_div_pos_is_pos(
                    2 * (m.raw * SCALE) + (60 * SCALE),
                    2 * (60 * SCALE),
                );
            }
            let sector: u64 = (hh.raw as u64) / 4294967296u64;
            let ffu: u64 = (hh.raw as u64) % 4294967296u64;
            let ff = Fixed { raw: ffu as i64 };
            let one = Fixed::from_int(1);
            let p: Fixed = brightness.mul(one.sub(saturation));
            let q: Fixed = brightness.mul(one.sub(saturation.mul(ff)));
            let t: Fixed = brightness.mul(one.sub(saturation.mul(one.sub(ff))));
            if sector == 1 {
                (q, brightness, p)
            } else if sector == 2 {
                (p, brightness, t)
            } else if sector == 3 {
                (p, q, brightness)
            } else if sector == 4 {
                (t, p, brightness)
            } else if sector == 5 {
                (brightness, p, q)
            } else {
                (brightness, t, p)
            }
        };
        Ok(Pixel::new(scale_to_channel(rgb.0), scale_to_channel(rgb.1), scale_to_channel(rgb.2)))
    }

    /// Sets the alpha channel in place.
    pub fn set_alpha(&mut self, a: u8)
        ensures
            *final(self) == (Pixel { a, ..*old(self) }),
    {
        self.a = a;
    }

    /// Sets the red channel in place.
    pub fn set_r(&mut self, r: u8)
        ensures
            *final(self) == (Pixel { r, ..*old(self) }),
    {
        self.r = r;
    }

    /// Sets the green channel in place.
    pub fn set_g(&mut self, g: u8)
        ensures
            *final(self) == (Pixel { g, ..*old(self) }),
    {
        self.g = g;
    }

    /// Sets the blue channel in place.
    pub fn set_b(&mut self, b: u8)
        ensures
            *final(self) == (Pixel { b, ..*old(self) }),
    {
        self.b = b;
    }

    /// Sets the three color channels in place; alpha stays.
    pub fn set_rgb(&mut self, r: u8, g: u8, b: u8)
        ensures
            *final(self) == (Pixel { r, g, b, a: old(self).a }),
    {
        self.r = r;
        self.g = g;
        self.b = b;
    }

    /// Sets all four channels in place.
    pub fn set_rgba(&mut self, r: u8, g: u8, b: u8, a: u8)
        ensures
            *final(self) == (Pixel { r, g, b, a }),
    {
        self.set_rgb(r, g, b);
        self.a = a;
    }

    /// The four channels in R, G, B, A order, as a tuple.
    pub fn get_tuple(&self) -> (t: (u8, u8, u8, u8))
        ensures
            t == (self.r, self.g, self.b, self.a),
    {
        (self.r, self.g, self.b, self.a)
    }

    /// The four channels in R, G, B, A order, as a vector.
    pub fn get_vector(&self) -> (v: Vec<u8>)
        ensures
            v@ == seq![self.r, self.g, self.b, self.a],
    {
        let mut v: Vec<u8> = Vec::new();
        v.push(self.r);
        v.push(self.g);
        v.push(self.b);
        v.push(self.a);
        assert(v@ =~= seq![self.r, self.g, self.b, self.a]);
        v
    }

    /// The four channels in R, G, B, A order, as an array.
    pub fn get_slice(&self) -> (s: [u8; 4])
        ensures
            s@ == seq![self.r, self.g, self.b, self.a],
    {
        let s: [u8; 4] = [self.r, self.g, self.b, self.a];
        assert(s@ =~= seq![self.r, self.g, self.b, self.a]);
        s
    }

    /// The channels as a fixed-width uppercase hex string: `0x`, then R,
    /// G, B, A as two hex digits each (`0xRRGGBBAA`).
    pub fn to_hex(&self) -> (s: String)
        ensures
            s@ == seq!['0', 'x'] + hex_of_byte(self.r as int) + hex_of_byte(self.g as int)
                + hex_of_byte(self.b as int) + hex_of_byte(self.a as int),
    {
        let mut s: String = String::from_str("0x");
        proof {
            reveal_strlit("0x");
        }
        assert(s@ =~= seq!['0', 'x']);
        push_hex(&mut s, self.r);
        push_hex(&mut s, self.g);
        push_hex(&mut s, self.b);
        push_hex(&mut s, self.a);
        assert(s@ =~= seq!['0', 'x'] + hex_of_byte(self.r as int) + hex_of_byte(self.g as int)
            + hex_of_byte(self.b as int) + hex_of_byte(self.a as int));
        s
    }
}

impl Default for Pixel {
    /// The default pixel: black, fully opaque, as the three-channel
    /// constructor makes it.
    fn default() -> (px: Pixel)
        ensures
            px == (Pixel { r: 0u8, g: 0u8, b: 0u8, a: 255u8 }),
    {
        Pixel::new(0, 0, 0)
    }
}

/// The channel that a pull of [`IntoPixel::next`] yields at a given
/// countdown state: the countdown starts at 5 and the four channels come
/// out at 5, 4, 3, 2 in R, G, B, A order.
pub open spec fn pixel_item(px: Pixel, remaining: u8) -> Option<u8> {
    if remaining == 5 {
        Some(px.r)
    } else if remaining == 4 {
        Some(px.g)
    } else if remaining == 3 {
        Some(px.b)
    } else if remaining == 2 {
        Some(px.a)
    } else {
        None
    }
}

/// A sequential extractor over the channels of a pixel: yields exactly the
/// four channels in R, G, B, A order, then stays exhausted.
pub struct IntoPixel {
    /// The pixel whose channels are handed out.
    pub px: Pixel,
    /// Countdown state; see [`pixel_item`].
    pub remaining: u8,
}

impl IntoPixel {
    /// A fresh extractor over the channels of `px`.
    pub fn new(px: &Pixel) -> (it: IntoPixel)
        ensures
            it.px == *px,
            it.remaining == 5,
    {
        IntoPixel { px: *px, remaining: 5 }
    }

    /// The next channel, or `None` once all four are out.
    pub fn next(&mut self) -> (item: Option<u8>)
        ensures
            final(self).px == old(self).px,
            item == pixel_item(old(self).px, old(self).remaining),
            old(self).remaining >= 1 ==> final(self).remaining == old(self).remaining - 1,
            old(self).remaining == 0 ==> final(self).remaining == 0,
    {
        if self.remaining == 0 {
            return None;
        }
        self.remaining = self.remaining - 1;
        match self.remaining {
            4 => Some(self.px.r),
            3 => Some(self.px.g),
            2 => Some(self.px.b),
            1 => Some(self.px.a),
            _ => None,
        }
    }
}

} // verus!

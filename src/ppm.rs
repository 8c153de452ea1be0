//! Plain-text PPM encoding: an ASCII header and one decimal line per pixel.

use vstd::prelude::*;

verus! {

/// The decimal digits of `n`, most significant first, as ASCII.
pub open spec fn digits(n: nat) -> Seq<u8>
    decreases n,
{
    if n < 10 {
        seq![(0x30 + n) as u8]
    } else {
        digits(n / 10) + seq![(0x30 + n % 10) as u8]
    }
}

/// `n` in decimal ASCII, with a leading minus sign when negative.
pub open spec fn decimal(n: int) -> Seq<u8> {
    if n < 0 {
        seq![0x2du8] + digits((-n) as nat)
    } else {
        digits(n as nat)
    }
}

/// The header of a plain-text PPM image: magic, size, and the largest
/// channel value.
pub open spec fn ppm_header_text(width: i32, height: i32) -> Seq<u8> {
    seq![0x50u8, 0x33u8, 0x0au8] + decimal(width as int) + seq![0x20u8] + decimal(height as int)
        + seq![0x0au8, 0x32u8, 0x35u8, 0x35u8, 0x0au8]
}

/// One pixel of a plain-text PPM image, on a line of its own.
pub open spec fn ppm_pixel_text(red: i32, green: i32, blue: i32) -> Seq<u8> {
    decimal(red as int) + seq![0x20u8] + decimal(green as int) + seq![0x20u8] + decimal(
        blue as int,
    ) + seq![0x0au8]
}

fn push_digits(out: &mut Vec<u8>, n: u32)
    ensures
        final(out)@ == old(out)@ + digits(n as nat),
    decreases n,
{
    if n >= 10 {
        push_digits(out, n / 10);
    }
    out.push((0x30 + n % 10) as u8);
    assert(out@ =~= old(out)@ + digits(n as nat));
}

fn push_decimal(out: &mut Vec<u8>, n: i32)
    ensures
        final(out)@ == old(out)@ + decimal(n as int),
{
    if n < 0 {
        out.push(0x2d);
        let magnitude = (-(n as i64)) as u32;
        push_digits(out, magnitude);
        assert(out@ =~= old(out)@ + decimal(n as int));
    } else {
        push_digits(out, n as u32);
    }
}

/// The header of a plain-text PPM image of the given size.
pub fn ppm_header(width: i32, height: i32) -> (r: Vec<u8>)
    ensures
        r@ == ppm_header_text(width, height),
{
    let mut out: Vec<u8> = Vec::new();
    out.push(0x50);
    out.push(0x33);
    out.push(0x0a);
    push_decimal(&mut out, width);
    out.push(0x20);
    push_decimal(&mut out, height);
    out.push(0x0a);
    out.push(0x32);
    out.push(0x35);
    out.push(0x35);
    out.push(0x0a);
    assert(out@ =~= ppm_header_text(width, height));
    out
}

/// The line that records one pixel of a plain-text PPM image.
pub fn ppm_pixel(red: i32, green: i32, blue: i32) -> (r: Vec<u8>)
    ensures
        r@ == ppm_pixel_text(red, green, blue),
{
    let mut out: Vec<u8> = Vec::new();
    push_decimal(&mut out, red);
    out.push(0x20);
    push_decimal(&mut out, green);
    out.push(0x20);
    push_decimal(&mut out, blue);
    out.push(0x0a);
    assert(out@ =~= ppm_pixel_text(red, green, blue));
    out
}

} // verus!

//! Plain-text PPM ("P3") encoding of a pixel buffer.
use vstd::prelude::*;

verus! {

/// The decimal digit `d` (`d < 10`) as a character.
pub open spec fn digit_char(d: nat) -> char {
    seq!['0', '1', '2', '3', '4', '5', '6', '7', '8', '9'][d as int]
}

/// The decimal representation of `n`, without leading zeros.
pub open spec fn decimal(n: nat) -> Seq<char>
    decreases n,
{
    if n < 10 {
        seq![digit_char(n)]
    } else {
        decimal(n / 10).push(digit_char(n % 10))
    }
}

/// Appends the decimal representation of `n` to `out`.
fn push_decimal(out: &mut String, n: u32)
    ensures
        final(out)@ == old(out)@ + decimal(n as nat),
    decreases n,
{
    if n >= 10 {
        push_decimal(out, n / 10);
    }
    let digits = "0123456789";
    proof {
        reveal_strlit("0123456789");
    }
    let d: usize = (n % 10) as usize;
    out.append(digits.substring_char(d, d + 1));
    assert(digits@.subrange(d as int, d + 1) =~= seq![digit_char(d as nat)]);
    assert(out@ =~= old(out)@ + decimal(n as nat));
}

/// The text line of one pixel: its three channels in decimal, separated by spaces.
pub open spec fn pixel_line(p: (u32, u32, u32)) -> Seq<char> {
    decimal(p.0 as nat) + seq![' '] + decimal(p.1 as nat) + seq![' '] + decimal(p.2 as nat)
}

/// The lines of all pixels, in order, each preceded by a newline.
pub open spec fn pixel_lines(ps: Seq<(u32, u32, u32)>) -> Seq<char>
    decreases ps.len(),
{
    if ps.len() == 0 {
        Seq::empty()
    } else {
        pixel_lines(ps.drop_last()) + seq!['\n'] + pixel_line(ps.last())
    }
}

/// The header line: `P3 <width> <height> <max_value>`.
pub open spec fn ppm_header(width: u32, height: u32, max_value: u32) -> Seq<char> {
    seq!['P', '3', ' '] + decimal(width as nat) + seq![' '] + decimal(height as nat) + seq![' ']
        + decimal(max_value as nat)
}

/// A whole image: the header line and the pixel lines, joined by newlines. Without
/// pixels it is the header line alone.
pub open spec fn ppm_text(
    width: u32,
    height: u32,
    max_value: u32,
    pixels: Seq<(u32, u32, u32)>,
) -> Seq<char> {
    ppm_header(width, height, max_value) + pixel_lines(pixels)
}

/// Appends a space to `out`.
fn push_space(out: &mut String)
    ensures
        final(out)@ == old(out)@ + seq![' '],
{
    let sp = " ";
    proof {
        reveal_strlit(" ");
    }
    out.append(sp);
}

/// Appends a newline to `out`.
fn push_newline(out: &mut String)
    ensures
        final(out)@ == old(out)@ + seq!['\n'],
{
    let nl = "\n";
    proof {
        reveal_strlit("\n");
    }
    out.append(nl);
}

/// Encodes a pixel buffer as plain-text PPM: the header `P3 <width> <height> <max_value>`,
/// then one `R G B` line per pixel, all joined by newlines. The resolution is written as
/// given; it is not checked against the number of pixels.
pub fn generate_ppm(resolution: (u32, u32), max_value: u32, pixels: Vec<(u32, u32, u32)>) -> (r:
    String)
    ensures
        r@ == ppm_text(resolution.0, resolution.1, max_value, pixels@),
{
    let (width, height) = resolution;
    let p3 = "P3 ";
    proof {
        reveal_strlit("P3 ");
    }
    let mut out = String::from_str(p3);
    push_decimal(&mut out, width);
    push_space(&mut out);
    push_decimal(&mut out, height);
    push_space(&mut out);
    push_decimal(&mut out, max_value);
    assert(out@ =~= ppm_header(width, height, max_value));
    let ghost head = out@;
    let mut i: usize = 0;
    while i < pixels.len()
        invariant
            0 <= i <= pixels@.len(),
            out@ == head + pixel_lines(pixels@.subrange(0, i as int)),
        decreases pixels@.len() - i,
    {
        push_newline(&mut out);
        let (red, green, blue) = pixels[i];
        push_decimal(&mut out, red);
        push_space(&mut out);
        push_decimal(&mut out, green);
        push_space(&mut out);
        push_decimal(&mut out, blue);
        proof {
            let s = pixels@.subrange(0, i + 1);
            assert(s.drop_last() =~= pixels@.subrange(0, i as int));
            assert(out@ =~= head + pixel_lines(s));
        }
        i = i + 1;
    }
    assert(pixels@.subrange(0, pixels@.len() as int) =~= pixels@);
    out
}


} // verus!

use vstd::prelude::*;

verus! {

/// ASCII `'P'`, first byte of the P3 magic number.
pub const LETTER_P: u8 = 80;

/// ASCII space, the separator between numbers on one line.
pub const SPACE: u8 = 32;

/// ASCII line feed, the end of every line.
pub const NEWLINE: u8 = 10;

/// Largest channel value, announced in the header.
pub const MAX_CHANNEL: u32 = 255;

/// A pixel quantized to one byte per channel.
#[derive(Debug, Clone, Copy, PartialEq, Eq, Structural)]
pub struct Rgb8 {
    pub r: u8,
    pub g: u8,
    pub b: u8,
}

/// The ASCII byte of decimal digit `d`.
pub open spec fn digit_byte(d: nat) -> u8
    recommends
        d < 10,
{
    (48 + d) as u8
}

/// `n` written in decimal, most significant digit first, without sign or
/// leading zeros.
pub open spec fn decimal(n: nat) -> Seq<u8>
    decreases n,
{
    if n < 10 {
        seq![digit_byte(n)]
    } else {
        decimal(n / 10).push(digit_byte(n % 10))
    }
}

/// The header of a P3 image: magic number, dimensions, maximum channel value.
pub open spec fn ppm_header(width: nat, height: nat) -> Seq<u8> {
    seq![LETTER_P, digit_byte(3), NEWLINE] + decimal(width) + seq![SPACE] + decimal(height)
        + seq![NEWLINE] + decimal(MAX_CHANNEL as nat) + seq![NEWLINE]
}

/// One pixel of a P3 image: `"<r> <g> <b>\n"`.
pub open spec fn pixel_line(c: Rgb8) -> Seq<u8> {
    decimal(c.r as nat) + seq![SPACE] + decimal(c.g as nat) + seq![SPACE] + decimal(c.b as nat)
        + seq![NEWLINE]
}

/// The pixel lines of `pixels`, in the order given.
pub open spec fn pixel_lines(pixels: Seq<Rgb8>) -> Seq<u8>
    decreases pixels.len(),
{
    if pixels.len() == 0 {
        Seq::empty()
    } else {
        pixel_lines(pixels.drop_last()) + pixel_line(pixels.last())
    }
}

/// A whole P3 image: its header, then one line per pixel.
pub open spec fn ppm_text(width: nat, height: nat, pixels: Seq<Rgb8>) -> Seq<u8> {
    ppm_header(width, height) + pixel_lines(pixels)
}

/// Number of line feeds in `s`.
pub open spec fn line_count(s: Seq<u8>) -> nat
    decreases s.len(),
{
    if s.len() == 0 {
        0
    } else {
        line_count(s.drop_last()) + if s.last() == NEWLINE {
            1nat
        } else {
            0nat
        }
    }
}

/// Line feeds of joined texts add up.
pub proof fn lemma_line_count_concat(a: Seq<u8>, b: Seq<u8>)
    ensures
        line_count(a + b) == line_count(a) + line_count(b),
    decreases b.len(),
{
    if b.len() == 0 {
        assert(a + b =~= a);
    } else {
        lemma_line_count_concat(a, b.drop_last());
        assert((a + b).drop_last() =~= a + b.drop_last());
    }
}

/// A decimal number is made of ASCII digits only, so it holds no line feed.
pub proof fn lemma_decimal_digits(n: nat)
    ensures
        forall|k: int| 0 <= k < decimal(n).len() ==> 48 <= #[trigger] decimal(n)[k] <= 57,
        line_count(decimal(n)) == 0,
    decreases n,
{
    if n >= 10 {
        lemma_decimal_digits(n / 10);
        lemma_line_count_push(decimal(n / 10), digit_byte(n % 10));
        assert(decimal(n / 10) + seq![digit_byte(n % 10)] =~= decimal(n));
    } else {
        lemma_line_count_push(Seq::empty(), digit_byte(n));
        assert(Seq::<u8>::empty() + seq![digit_byte(n)] =~= decimal(n));
    }
}

/// Three header lines, then exactly one line per pixel.
pub proof fn lemma_one_line_per_pixel(width: nat, height: nat, pixels: Seq<Rgb8>)
    ensures
        line_count(ppm_text(width, height, pixels)) == 3 + pixels.len(),
{
    lemma_header_lines(width, height);
    lemma_pixel_lines_count(pixels);
    lemma_line_count_concat(ppm_header(width, height), pixel_lines(pixels));
}

/// Line feeds of `prefix` followed by the byte `b`.
proof fn lemma_line_count_push(prefix: Seq<u8>, b: u8)
    ensures
        line_count(prefix + seq![b]) == line_count(prefix) + if b == NEWLINE {
            1nat
        } else {
            0nat
        },
{
    assert((prefix + seq![b]).drop_last() =~= prefix);
    assert(line_count(Seq::<u8>::empty()) == 0);
}

/// The header spans three lines.
proof fn lemma_header_lines(width: nat, height: nat)
    ensures
        line_count(ppm_header(width, height)) == 3,
{
    let magic = seq![LETTER_P, digit_byte(3), NEWLINE];
    assert(line_count(magic) == 1) by {
        lemma_line_count_push(Seq::empty(), LETTER_P);
        lemma_line_count_push(seq![LETTER_P], digit_byte(3));
        lemma_line_count_push(seq![LETTER_P, digit_byte(3)], NEWLINE);
        assert(Seq::<u8>::empty() + seq![LETTER_P] =~= seq![LETTER_P]);
        assert(seq![LETTER_P] + seq![digit_byte(3)] =~= seq![LETTER_P, digit_byte(3)]);
        assert(seq![LETTER_P, digit_byte(3)] + seq![NEWLINE] =~= magic);
    }
    lemma_decimal_digits(width);
    lemma_decimal_digits(height);
    lemma_decimal_digits(MAX_CHANNEL as nat);
    let s1 = magic + decimal(width);
    lemma_line_count_concat(magic, decimal(width));
    lemma_line_count_push(s1, SPACE);
    let s2 = s1 + seq![SPACE];
    lemma_line_count_concat(s2, decimal(height));
    let s3 = s2 + decimal(height);
    lemma_line_count_push(s3, NEWLINE);
    let s4 = s3 + seq![NEWLINE];
    lemma_line_count_concat(s4, decimal(MAX_CHANNEL as nat));
    let s5 = s4 + decimal(MAX_CHANNEL as nat);
    lemma_line_count_push(s5, NEWLINE);
}

/// A pixel spans one line.
proof fn lemma_pixel_line_lines(c: Rgb8)
    ensures
        line_count(pixel_line(c)) == 1,
{
    lemma_decimal_digits(c.r as nat);
    lemma_decimal_digits(c.g as nat);
    lemma_decimal_digits(c.b as nat);
    let s1 = decimal(c.r as nat);
    lemma_line_count_push(s1, SPACE);
    let s2 = s1 + seq![SPACE];
    lemma_line_count_concat(s2, decimal(c.g as nat));
    let s3 = s2 + decimal(c.g as nat);
    lemma_line_count_push(s3, SPACE);
    let s4 = s3 + seq![SPACE];
    lemma_line_count_concat(s4, decimal(c.b as nat));
    let s5 = s4 + decimal(c.b as nat);
    lemma_line_count_push(s5, NEWLINE);
}

/// The pixel lines of `pixels` span one line each.
proof fn lemma_pixel_lines_count(pixels: Seq<Rgb8>)
    ensures
        line_count(pixel_lines(pixels)) == pixels.len(),
    decreases pixels.len(),
{
    if pixels.len() > 0 {
        lemma_pixel_lines_count(pixels.drop_last());
        lemma_pixel_line_lines(pixels.last());
        lemma_line_count_concat(pixel_lines(pixels.drop_last()), pixel_line(pixels.last()));
    }
}

/// Writing pixels in pieces gives the same text as writing them at once, so
/// an image may be emitted row by row as it is rendered.
pub proof fn lemma_pixel_lines_split(front: Seq<Rgb8>, back: Seq<Rgb8>)
    ensures
        pixel_lines(front + back) == pixel_lines(front) + pixel_lines(back),
    decreases back.len(),
{
    if back.len() == 0 {
        assert(front + back =~= front);
        assert(pixel_lines(front) + pixel_lines(back) =~= pixel_lines(front));
    } else {
        lemma_pixel_lines_split(front, back.drop_last());
        assert((front + back).drop_last() =~= front + back.drop_last());
        assert((front + back).last() == back.last());
        assert(pixel_lines(front + back) =~= pixel_lines(front) + pixel_lines(back));
    }
}

/// Appends `n` in decimal.
pub fn push_decimal(out: &mut Vec<u8>, n: u32)
    ensures
        final(out)@ == old(out)@ + decimal(n as nat),
    decreases n,
{
    if n >= 10 {
        push_decimal(out, n / 10);
    }
    out.push(48u8 + (n % 10) as u8);
}

/// Appends the header of a P3 image of `width` by `height` pixels.
pub fn push_header(out: &mut Vec<u8>, width: u32, height: u32)
    ensures
        final(out)@ == old(out)@ + ppm_header(width as nat, height as nat),
{
    out.push(LETTER_P);
    out.push(48u8 + 3);
    out.push(NEWLINE);
    push_decimal(out, width);
    out.push(SPACE);
    push_decimal(out, height);
    out.push(NEWLINE);
    push_decimal(out, MAX_CHANNEL);
    out.push(NEWLINE);
}

/// Appends the line of one pixel.
pub fn push_pixel(out: &mut Vec<u8>, c: Rgb8)
    ensures
        final(out)@ == old(out)@ + pixel_line(c),
{
    push_decimal(out, c.r as u32);
    out.push(SPACE);
    push_decimal(out, c.g as u32);
    out.push(SPACE);
    push_decimal(out, c.b as u32);
    out.push(NEWLINE);
}

} // verus!

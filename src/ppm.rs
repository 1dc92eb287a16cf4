use vstd::prelude::*;

use crate::canvas::Canvas;
use crate::two_dimensional::TwoDimensional;

verus! {

/// The byte of a line break.
pub const NEWLINE: u8 = 10;

/// The byte that separates two numbers on a line.
pub const SPACE: u8 = 32;

/// The byte of the digit zero.
pub const DIGIT_ZERO: u8 = 48;

/// The longest line, in bytes, of the pixel data.
pub const MAX_LINE_LEN: usize = 70;

/// The decimal digits of `n`, most significant first, with no leading zeros.
pub open spec fn decimal(n: nat) -> Seq<u8>
    decreases n,
{
    if n < 10 {
        seq![(DIGIT_ZERO + n) as u8]
    } else {
        decimal(n / 10).push((DIGIT_ZERO + n % 10) as u8)
    }
}

/// The header of a plain-text (P3) image: the magic number, the size, and the
/// largest channel value, each on a line of its own.
pub open spec fn ppm_header(width: nat, height: nat) -> Seq<u8> {
    seq![80u8, 51u8, NEWLINE] + decimal(width) + seq![SPACE] + decimal(height) + seq![NEWLINE]
        + seq![50u8, 53u8, 53u8, NEWLINE]
}

/// The red, green and blue channels of each pixel in turn; the fourth channel
/// (alpha) is left out.
pub open spec fn rgb_channels(pixels: Seq<[u8; 4]>) -> Seq<u8> {
    Seq::new(3 * pixels.len(), |i: int| pixels[i / 3]@[i % 3])
}

/// Whether channel `i` is the first channel of a pixel that starts an image row,
/// other than the first row, in an image `width` pixels wide.
pub open spec fn starts_row(i: int, width: nat) -> bool {
    width > 0 && i > 0 && i % 3 == 0 && (i / 3) % (width as int) == 0
}

/// Places one number after `text`, whose last line holds `col` bytes. The number
/// opens a new line when it starts an image row, or when a space and the number
/// would carry the line past `MAX_LINE_LEN` bytes; else a space separates it from
/// the number before it on the line. Returns the new text and its last line's length.
pub open spec fn place_number(text: Seq<u8>, col: nat, num: Seq<u8>, new_row: bool) -> (
    Seq<u8>,
    nat,
) {
    if new_row || (col > 0 && col + 1 + num.len() > MAX_LINE_LEN) {
        (text + seq![NEWLINE] + num, num.len())
    } else if col == 0 {
        (text + num, num.len())
    } else {
        (text + seq![SPACE] + num, col + 1 + num.len())
    }
}

/// The pixel data for the channels `chans` of an image `width` pixels wide, and the
/// length of its last line: each channel in decimal, laid out by `place_number`.
pub open spec fn pixel_text(chans: Seq<u8>, width: nat) -> (Seq<u8>, nat)
    decreases chans.len(),
{
    if chans.len() == 0 {
        (Seq::empty(), 0)
    } else {
        let prev = pixel_text(chans.drop_last(), width);
        place_number(
            prev.0,
            prev.1,
            decimal(chans.last() as nat),
            starts_row(chans.len() - 1, width),
        )
    }
}

/// A whole plain-text image: the header, the pixel data, and a closing line break.
pub open spec fn ppm_image(width: nat, height: nat, pixels: Seq<[u8; 4]>) -> Seq<u8> {
    ppm_header(width, height) + pixel_text(rgb_channels(pixels), width).0 + seq![NEWLINE]
}

/// A number below 1000 has at most three digits.
proof fn lemma_decimal_len(n: nat)
    requires
        n < 1000,
    ensures
        1 <= decimal(n).len() <= 3,
    decreases n,
{
    if n >= 10 {
        lemma_decimal_len(n / 10);
        if n / 10 >= 10 {
            lemma_decimal_len(n / 100);
            assert(n / 10 / 10 == n / 100);
        }
    }
}

/// Appends the decimal digits of `n` to `out`.
pub fn push_decimal(n: usize, out: &mut Vec<u8>)
    ensures
        final(out)@ == old(out)@ + decimal(n as nat),
    decreases n,
{
    if n >= 10 {
        push_decimal(n / 10, out);
    }
    let digit: u8 = (n % 10) as u8;
    out.push(DIGIT_ZERO + digit);
    proof {
        if n >= 10 {
            assert(decimal(n as nat) == decimal((n / 10) as nat).push((DIGIT_ZERO + n % 10) as u8));
        }
    }
    assert(final(out)@ =~= old(out)@ + decimal(n as nat));
}

/// A value that can be written as a plain-text (P3) image.
pub trait ToPPM: TwoDimensional {
    /// The image header, for this value's width and height.
    fn header(&self) -> (r: Vec<u8>)
        ensures
            r@ == ppm_header(self.spec_width(), self.spec_height()),
    {
        let mut header: Vec<u8> = Vec::new();
        header.push(80u8);
        header.push(51u8);
        header.push(NEWLINE);
        push_decimal(self.width(), &mut header);
        header.push(SPACE);
        push_decimal(self.height(), &mut header);
        header.push(NEWLINE);
        header.push(50u8);
        header.push(53u8);
        header.push(53u8);
        header.push(NEWLINE);
        assert(header@ =~= ppm_header(self.spec_width(), self.spec_height()));
        header
    }

    /// The whole image.
    fn to_ppm(&self) -> Vec<u8>;
}

impl ToPPM for Canvas<[u8; 4]> {
    /// The whole image, from the red, green and blue bytes of each pixel, row by row.
    fn to_ppm(&self) -> (r: Vec<u8>)
        ensures
            r@ == ppm_image(self.width as nat, self.height as nat, self.pixels@),
    {
        let mut out = self.header();
        let ghost head = out@;
        let ghost chans = rgb_channels(self.pixels@);
        let ghost w = self.width as nat;
        let n = self.pixels.len();
        let mut col: usize = 0;
        let mut k: usize = 0;
        while k < n
            invariant
                n == self.pixels@.len(),
                chans == rgb_channels(self.pixels@),
                w == self.width,
                k <= n,
                col <= MAX_LINE_LEN,
                out@ == head + pixel_text(chans.take(3 * k), w).0,
                col == pixel_text(chans.take(3 * k), w).1,
            decreases n - k,
        {
            let px: [u8; 4] = self.pixels[k];
            let mut c: usize = 0;
            while c < 3
                invariant
                    n == self.pixels@.len(),
                    chans == rgb_channels(self.pixels@),
                    w == self.width,
                    k < n,
                    c <= 3,
                    px == self.pixels@[k as int],
                    col <= MAX_LINE_LEN,
                    out@ == head + pixel_text(chans.take(3 * k + c), w).0,
                    col == pixel_text(chans.take(3 * k + c), w).1,
                decreases 3 - c,
            {
                let ghost i: int = 3 * k + c;
                let ghost prev = out@;
                let mut num: Vec<u8> = Vec::new();
                push_decimal(px[c] as usize, &mut num);
                let len = num.len();
                let new_row = c == 0 && k > 0 && self.width > 0 && k % self.width == 0;
                proof {
                    lemma_decimal_len(px@[c as int] as nat);
                    assert(chans[i] == px@[c as int]) by {
                        assert(i / 3 == k && i % 3 == c);
                    }
                    assert(chans.take(i + 1).drop_last() =~= chans.take(i));
                    assert(chans.take(i + 1).last() == chans[i]);
                    assert(new_row == starts_row(i, w)) by {
                        assert(i / 3 == k && i % 3 == c);
                    }
                }
                if new_row || (col > 0 && col + 1 + len > MAX_LINE_LEN) {
                    out.push(NEWLINE);
                    out.append(&mut num);
                    col = len;
                } else if col == 0 {
                    out.append(&mut num);
                    col = len;
                } else {
                    out.push(SPACE);
                    out.append(&mut num);
                    col = col + 1 + len;
                }
                proof {
                    let p = pixel_text(chans.take(i), w);
                    assert(prev == head + p.0);
                    let q = place_number(p.0, p.1, decimal(px@[c as int] as nat), new_row);
                    assert(pixel_text(chans.take(i + 1), w) == q);
                    assert(out@ =~= head + q.0);
                }
                c = c + 1;
            }
            k = k + 1;
        }
        out.push(NEWLINE);
        proof {
            assert(chans.take(3 * n) =~= chans);
            assert(out@ =~= ppm_image(self.width as nat, self.height as nat, self.pixels@));
        }
        out
    }
}

} // verus!

//! The image: a row-major buffer of colours, and its encoding in eight bits
//! per channel.

use vstd::prelude::*;
use vstd::arithmetic::power2::*;
use vstd::arithmetic::div_mod::*;
use crate::scalar::{
    lemma_size_increases, lemma_size_positive, size_of, Scalar, HIDDEN_BIT, INFINITY_BITS,
    ONE_BITS, SIGN_BIT, ZERO_BITS,
};

verus! {

/// A colour: red, green and blue, each a number that is meant to lie between
/// zero and one and is not held to it.
#[derive(Clone, Copy, Debug, PartialEq, Eq)]
pub struct Color {
    pub r: Scalar,
    pub g: Scalar,
    pub b: Scalar,
}

impl Color {
    /// The background colour: all three channels zero.
    pub open spec fn is_black(self) -> bool {
        self.r.bits == ZERO_BITS && self.g.bits == ZERO_BITS && self.b.bits == ZERO_BITS
    }

    /// Channel 0 is red, 1 is green, anything else is blue.
    pub open spec fn channel(self, c: int) -> Scalar {
        if c == 0 {
            self.r
        } else if c == 1 {
            self.g
        } else {
            self.b
        }
    }

    /// The colour with the given channels.
    pub fn new(r: Scalar, g: Scalar, b: Scalar) -> (color: Color)
        ensures
            color.r == r,
            color.g == g,
            color.b == b,
    {
        Color { r, g, b }
    }

    /// The background colour.
    pub fn black() -> (color: Color)
        ensures
            color.is_black(),
    {
        Color {
            r: Scalar { bits: ZERO_BITS },
            g: Scalar { bits: ZERO_BITS },
            b: Scalar { bits: ZERO_BITS },
        }
    }
}

/// The eight-bit level of a channel: the channel is held to the range from
/// zero to one, scaled by 255 and rounded to the nearest whole number, a half
/// going up. With `v = units / 2^149` that is the floor of
/// `(510 * units + 2^149) / 2^150`. A channel that holds no number has
/// level 0.
pub open spec fn level(channel: Scalar) -> int {
    if channel.nan() || channel.units() <= 0 {
        0
    } else if channel.units() >= pow2(149) {
        255
    } else {
        (510 * channel.units() + pow2(149)) / (pow2(150) as int)
    }
}

/// The bytes of an image in eight bits per channel: three for each pixel, red
/// first, pixel after pixel.
pub open spec fn rgb8(pixels: Seq<Color>) -> Seq<u8> {
    Seq::new(3 * pixels.len(), |i: int| level(pixels[i / 3].channel(i % 3)) as u8)
}

/// One is 2^149 units.
proof fn lemma_one_is_unit()
    ensures
        size_of(ONE_BITS as nat) == pow2(149),
{
    lemma2_to64();
    lemma_pow2_adds(23, 126);
    assert(ONE_BITS as nat / (HIDDEN_BIT as nat) == 127);
    assert(ONE_BITS as nat % (HIDDEN_BIT as nat) == 0);
}

/// Rounding `255 * mantissa / 2^shift` to the nearest whole number is the
/// level of the number `mantissa * 2^(scale - 150)`, where
/// `shift == 150 - scale`.
proof fn lemma_level_scaled(mantissa: int, scale: nat, shift: nat)
    requires
        0 <= mantissa,
        1 <= scale,
        shift + scale == 150,
    ensures
        (510 * (mantissa * (pow2((scale - 1) as nat) as int)) + (pow2(149) as int)) / (pow2(
            150,
        ) as int) == (510 * mantissa + (pow2(shift) as int)) / (2 * (pow2(shift) as int)),
{
    let x = pow2((scale - 1) as nat) as int;
    let p = pow2(shift) as int;
    let a = 510 * mantissa + p;
    let d = 2 * p;
    lemma_pow2_pos((scale - 1) as nat);
    lemma_pow2_pos(shift);
    lemma_pow2_adds(shift, (scale - 1) as nat);
    lemma_pow2_unfold(150);
    assert(pow2(149) as int == p * x);
    assert(x * a == 510 * (mantissa * x) + p * x) by (nonlinear_arith)
        requires
            a == 510 * mantissa + p,
    ;
    assert(x * d == 2 * (p * x)) by (nonlinear_arith)
        requires
            d == 2 * p,
    ;
    lemma_div_multiples_vanish_quotient(x, a, d);
}

/// Two to the power `n`.
fn power_of_two(n: u32) -> (r: u64)
    requires
        n < 64,
    ensures
        r == pow2(n as nat),
{
    let mut r: u64 = 1;
    let mut i: u32 = 0;
    proof {
        lemma2_to64();
    }
    while i < n
        invariant
            i <= n,
            n < 64,
            r == pow2(i as nat),
        decreases n - i,
    {
        proof {
            lemma_pow2_unfold((i + 1) as nat);
            if i + 1 < 63 {
                lemma_pow2_strictly_increases((i + 1) as nat, 63);
            }
            lemma2_to64_rest();
        }
        r = 2 * r;
        i += 1;
    }
    r
}

/// The eight-bit level of a channel: `round(clamp(channel, 0, 1) * 255)`,
/// computed on the encoding without rounding in between.
pub fn channel_level(channel: Scalar) -> (q: u8)
    ensures
        q == level(channel),
{
    let magnitude: u32 = channel.bits % SIGN_BIT;
    proof {
        lemma_one_is_unit();
        lemma_size_positive(magnitude as nat);
        if magnitude > ONE_BITS {
            lemma_size_increases(ONE_BITS as nat, magnitude as nat);
        }
        if magnitude < ONE_BITS {
            lemma_size_increases(magnitude as nat, ONE_BITS as nat);
        }
    }
    if channel.bits >= SIGN_BIT || magnitude == 0 || magnitude > INFINITY_BITS {
        return 0;
    }
    if magnitude >= ONE_BITS {
        return 255;
    }
    let exponent: u32 = magnitude / HIDDEN_BIT;
    let fraction: u32 = magnitude % HIDDEN_BIT;
    let mantissa: u64 = if exponent == 0 {
        fraction as u64
    } else {
        (HIDDEN_BIT + fraction) as u64
    };
    let scale: u32 = if exponent == 0 {
        1
    } else {
        exponent
    };
    let shift: u32 = 150 - scale;
    proof {
        lemma_level_scaled(mantissa as int, scale as nat, shift as nat);
        lemma2_to64();
        lemma2_to64_rest();
        assert(mantissa * pow2(0) == mantissa) by (nonlinear_arith)
            requires
                pow2(0) == 1,
        ;
        assert(channel.units() == mantissa * pow2((scale - 1) as nat));
    }
    if shift > 33 {
        proof {
            lemma_pow2_strictly_increases(33, shift as nat);
            lemma_fundamental_div_mod_converse(
                510 * (mantissa as int) + (pow2(shift as nat) as int),
                2 * (pow2(shift as nat) as int),
                0,
                510 * (mantissa as int) + (pow2(shift as nat) as int),
            );
        }
        return 0;
    }
    let half: u64 = power_of_two(shift);
    proof {
        if shift < 33 {
            lemma_pow2_strictly_increases(shift as nat, 33);
        }
        if 24 < shift {
            lemma_pow2_strictly_increases(24, shift as nat);
        }
        assert((510 * mantissa + half) / ((2 * half) as int) <= 255) by (nonlinear_arith)
            requires
                mantissa < 0x100_0000,
                half >= 0x100_0000,
        ;
    }
    ((510 * mantissa + half) / (2 * half)) as u8
}

#[verifier::external_type_specification]
#[verifier::external_body]
pub struct ExDynamicImage(image::DynamicImage);

/// The whole buffer of samples that an encodable image owns. For eight-bit
/// RGB the first three for each pixel, row after row, are the picture; what
/// the buffer holds beyond them belongs to no pixel.
pub uninterp spec fn image_samples(image: image::DynamicImage) -> Seq<u8>;

/// The width and the height of an encodable image.
pub uninterp spec fn image_size(image: image::DynamicImage) -> (int, int);

/// `image::ImageBuffer::from_raw` for eight-bit RGB, its result held as an
/// `image::DynamicImage`. The outside function counts the samples it needs
/// in the machine's word, three times the width first and that times the
/// height, and gives up where either product does not fit. It makes an image
/// exactly when the samples of one row fit the word and `bytes` holds at
/// least three samples for each pixel; the image then owns `bytes` unchanged
/// and has the size asked for.
#[verifier::external_body]
fn rgb_image_from_raw(width: u32, height: u32, bytes: Vec<u8>) -> (r: Option<
    image::DynamicImage,
>)
    ensures
        r is Some <==> (3 * width <= usize::MAX && 3 * width * height <= bytes.len()),
        r matches Some(image) ==> image_samples(image) == bytes@ && image_size(image) == (
            width as int,
            height as int,
        ),
{
    image::RgbImage::from_raw(width, height, bytes).map(image::DynamicImage::ImageRgb8)
}

/// Why an image cannot be handed to the encoder.
#[derive(Clone, Copy, Debug, PartialEq, Eq)]
pub enum EncodeError {
    /// The width or the height is above what the encoder can hold in 32 bits,
    /// or the three samples for each pixel of one row are more than the
    /// machine's word can count.
    TooLarge,
    /// The buffer holds fewer colours than `width * height`.
    MissingPixels,
}

/// The number of pixels in an image of the given size.
pub open spec fn pixel_count(width: int, height: int) -> int {
    width * height
}

/// The column and the row of the pixel at `index` of a row-major buffer whose
/// rows are `width` pixels long. Whatever the number of rows, an index below
/// the pixel count lies in one of them.
pub fn pixel_coords(width: usize, index: usize) -> (r: (usize, usize))
    requires
        width > 0,
    ensures
        r.0 == index % width,
        r.1 == index / width,
        r.0 < width,
        r.1 * width + r.0 == index,
        forall|height: int| index < #[trigger] pixel_count(width as int, height) ==> r.1 < height,
{
    proof {
        let w = width as int;
        let y = index as int / w;
        let x = index as int % w;
        lemma_fundamental_div_mod(index as int, w);
        assert(w * y == y * w) by (nonlinear_arith);
        assert forall|height: int| index < #[trigger] pixel_count(w, height) implies y
            < height by {
            assert(y < height) by (nonlinear_arith)
                requires
                    index == w * y + x,
                    0 <= x < w,
                    index < w * height,
            ;
        }
    }
    (index % width, index / width)
}

/// An image: `width * height` colours, row after row from the top.
pub struct Img {
    pub width: usize,
    pub height: usize,
    pub pixels: Vec<Color>,
}

impl Img {
    /// The buffer holds exactly one colour for each pixel.
    pub open spec fn wf(&self) -> bool {
        self.pixels.len() == pixel_count(self.width as int, self.height as int)
    }

    /// An image of the given size with every pixel at the background colour.
    pub fn new(width: usize, height: usize) -> (img: Img)
        requires
            width * height <= usize::MAX,
        ensures
            img.wf(),
            img.width == width,
            img.height == height,
            forall|i: int| 0 <= i < img.pixels.len() ==> (#[trigger] img.pixels[i]).is_black(),
    {
        let count: usize = width * height;
        let mut pixels: Vec<Color> = Vec::new();
        let mut i: usize = 0;
        while i < count
            invariant
                i <= count,
                pixels.len() == i,
                forall|j: int| 0 <= j < pixels.len() ==> (#[trigger] pixels[j]).is_black(),
            decreases count - i,
        {
            pixels.push(Color::black());
            i += 1;
        }
        Img { width, height, pixels }
    }

    /// The pixels in eight bits per channel, three bytes for each.
    pub fn to_rgb8(&self) -> (bytes: Vec<u8>)
        ensures
            bytes@ == rgb8(self.pixels@),
    {
        let mut bytes: Vec<u8> = Vec::new();
        let mut i: usize = 0;
        while i < self.pixels.len()
            invariant
                i <= self.pixels.len(),
                bytes@ == rgb8(self.pixels@.take(i as int)),
            decreases self.pixels.len() - i,
        {
            let pixel = self.pixels[i];
            let ghost before = bytes@;
            bytes.push(channel_level(pixel.r));
            bytes.push(channel_level(pixel.g));
            bytes.push(channel_level(pixel.b));
            proof {
                let now = rgb8(self.pixels@.take(i + 1));
                assert(bytes@.len() == now.len());
                assert forall|j: int| 0 <= j < now.len() implies bytes@[j] == now[j] by {
                    if j < 3 * i {
                        assert(bytes@[j] == before[j]);
                        assert(self.pixels@.take(i + 1)[j / 3] == self.pixels@.take(i as int)[j
                            / 3]);
                    } else {
                        assert(j / 3 == i);
                        assert(self.pixels@.take(i + 1)[j / 3] == pixel);
                    }
                }
            }
            i += 1;
        }
        proof {
            assert(self.pixels@.take(self.pixels.len() as int) == self.pixels@);
        }
        bytes
    }

    /// The image as the encoder takes it: of the same size, its buffer the
    /// eight-bit levels of the pixels. Writing it out is the caller's part.
    pub fn to_rgb_image(&self) -> (r: Result<image::DynamicImage, EncodeError>)
        ensures
            match r {
                Ok(image) => {
                    &&& self.width <= u32::MAX
                    &&& self.height <= u32::MAX
                    &&& 3 * self.width <= usize::MAX
                    &&& self.width * self.height <= self.pixels.len()
                    &&& image_samples(image) == rgb8(self.pixels@)
                    &&& image_size(image) == (self.width as int, self.height as int)
                },
                Err(EncodeError::TooLarge) => {
                    ||| self.width > u32::MAX
                    ||| self.height > u32::MAX
                    ||| 3 * self.width > usize::MAX
                },
                Err(EncodeError::MissingPixels) => {
                    &&& self.width <= u32::MAX
                    &&& self.height <= u32::MAX
                    &&& 3 * self.width <= usize::MAX
                    &&& self.width * self.height > self.pixels.len()
                },
            },
    {
        if self.width > u32::MAX as usize || self.height > u32::MAX as usize || self.width
            > usize::MAX / 3 {
            return Err(EncodeError::TooLarge);
        }
        let bytes = self.to_rgb8();
        proof {
            let w = self.width as int;
            let h = self.height as int;
            assert(3 * w * h == 3 * (w * h)) by (nonlinear_arith);
        }
        match rgb_image_from_raw(self.width as u32, self.height as u32, bytes) {
            Some(image) => Ok(image),
            None => Err(EncodeError::MissingPixels),
        }
    }
}

} // verus!

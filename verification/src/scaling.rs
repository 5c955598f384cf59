//! How large a thumbnail is, and which images can be scaled without a sum that is
//! too large for the machine.
//!
//! An image is cut into blocks, one for each pixel of the thumbnail, and the pixels
//! of a block are summed in 32 bits. Lengths are divided with the precision of a
//! 32-bit floating point number, so a block is at most a little longer than it would
//! be with exact numbers.

use vstd::prelude::*;

use crate::thumbnail::THUMB_SIDE;

verus! {

/// The most pixels of 16 bits a channel that can be summed and rounded.
pub const WIDE_BLOCK: u64 = 65536;

/// The most pixels of 8 bits a channel that can be summed and rounded.
pub const BYTE_BLOCK: u64 = 16810048;

/// What is known of an image before it is decoded: its width and its height, and
/// the bytes and the channels of a pixel.
pub type Shape = (u32, u32, u8, u8);

/// The channels of a pixel in an image that was decoded, with a byte for each.
#[derive(Debug, Clone, Copy, PartialEq, Eq, Structural)]
pub enum Channels {
    Grey,
    GreyAlpha,
    Rgb,
    Rgba,
}

impl Channels {
    /// How many channels these are.
    pub open spec fn count(self) -> nat {
        match self {
            Channels::Grey => 1,
            Channels::GreyAlpha => 2,
            Channels::Rgb => 3,
            Channels::Rgba => 4,
        }
    }

    /// How many channels these are.
    pub fn number(self) -> (number: u8)
        ensures
            number == self.count(),
    {
        match self {
            Channels::Grey => 1,
            Channels::GreyAlpha => 2,
            Channels::Rgb => 3,
            Channels::Rgba => 4,
        }
    }
}

/// The longer of two sides.
pub open spec fn longer_side(width: u32, height: u32) -> nat {
    if width >= height {
        width as nat
    } else {
        height as nat
    }
}

/// Whether a side of an image becomes that long when the longer side becomes that
/// of a thumbnail: the length nearest to the one that keeps the shape, and one where
/// that is shorter than a half.
pub open spec fn is_scaled_side(scaled: nat, side: nat, longer: nat) -> bool {
    &&& scaled >= 1
    &&& {
        ||| (2 * scaled - 1) * longer <= 2 * THUMB_SIDE * side <= (2 * scaled + 1) * longer
        ||| scaled == 1 && 2 * THUMB_SIDE * side <= longer
    }
}

/// Whether a thumbnail of the one size keeps the shape of an image of the other.
pub open spec fn is_scaled(width: u32, height: u32, scaled_width: u32, scaled_height: u32) -> bool {
    let longer = longer_side(width, height);
    &&& is_scaled_side(scaled_width as nat, width as nat, longer)
    &&& is_scaled_side(scaled_height as nat, height as nat, longer)
}

/// The least length that a side can get when the longer side becomes that of a
/// thumbnail.
pub open spec fn least_side(side: nat, longer: nat) -> nat {
    let nearest = (2 * THUMB_SIDE * side + longer - 1) / (2 * longer as int);
    if nearest < 1 {
        1
    } else {
        nearest as nat
    }
}

/// The most pixels of a side that become one.
pub open spec fn span(side: nat, longer: nat) -> nat {
    let n = least_side(side, longer);
    let most = (side + n - 1) as nat / n + 1 + side / 4194304;
    if most < side {
        most
    } else {
        side
    }
}

/// The most pixels of an image that become one.
pub open spec fn block_size(width: u32, height: u32) -> nat {
    let longer = longer_side(width, height);
    span(width as nat, longer) * span(height as nat, longer)
}

/// Whether the pixels that become one can be summed.
pub open spec fn sums_fit(shape: Shape) -> bool {
    if shape.0 == 0 || shape.1 == 0 {
        true
    } else if shape.2 == 2 * shape.3 {
        block_size(shape.0, shape.1) <= WIDE_BLOCK
    } else {
        block_size(shape.0, shape.1) <= BYTE_BLOCK
    }
}

fn find_span(side: u32, longer: u32) -> (out: u64)
    requires
        0 < side <= longer,
    ensures
        out == span(side as nat, longer as nat),
        out <= side,
{
    let nearest: u64 = (400 * side as u64 + longer as u64 - 1) / (2 * longer as u64);
    let n: u64 = if nearest < 1 {
        1
    } else {
        nearest
    };
    proof {
        let all = 400 * side + longer - 1;
        assert(all / (2 * longer as int) <= all) by (nonlinear_arith)
            requires
                all >= 0,
                longer > 0,
        ;
        assert(n == least_side(side as nat, longer as nat));
        assert((side + n - 1) / n as int <= side + n - 1) by (nonlinear_arith)
            requires
                side > 0,
                n >= 1,
        ;
    }
    let most: u64 = (side as u64 + n - 1) / n + 1 + side as u64 / 4194304;
    if most < side as u64 {
        most
    } else {
        side as u64
    }
}

/// Whether the pixels that become one can be summed.
pub fn can_sum(shape: Shape) -> (fits: bool)
    ensures
        fits == sums_fit(shape),
{
    let (width, height, bytes, channels) = shape;
    if width == 0 || height == 0 {
        return true;
    }
    let longer: u32 = if width >= height {
        width
    } else {
        height
    };
    let across: u64 = find_span(width, longer);
    let down: u64 = find_span(height, longer);
    assert(across * down <= 0xffff_ffff * 0xffff_ffff) by (nonlinear_arith)
        requires
            across <= 0xffff_ffff,
            down <= 0xffff_ffff,
    ;
    let block: u64 = across * down;
    if bytes as u32 == 2 * channels as u32 {
        block <= WIDE_BLOCK
    } else {
        block <= BYTE_BLOCK
    }
}

/// The longer side of a thumbnail has the length of thumbnails, and the other side is
/// no longer than that.
pub proof fn lemma_thumbnail_fits_square(
    width: u32,
    height: u32,
    scaled_width: u32,
    scaled_height: u32,
)
    requires
        width > 0,
        height > 0,
        is_scaled(width, height, scaled_width, scaled_height),
    ensures
        width >= height ==> scaled_width == THUMB_SIDE,
        height >= width ==> scaled_height == THUMB_SIDE,
        1 <= scaled_width <= THUMB_SIDE,
        1 <= scaled_height <= THUMB_SIDE,
{
    let longer = longer_side(width, height);
    lemma_scaled_side(scaled_width as nat, width as nat, longer);
    lemma_scaled_side(scaled_height as nat, height as nat, longer);
}

proof fn lemma_scaled_side(scaled: nat, side: nat, longer: nat)
    requires
        0 < side <= longer,
        is_scaled_side(scaled, side, longer),
    ensures
        1 <= scaled <= THUMB_SIDE,
        side == longer ==> scaled == THUMB_SIDE,
{
    assert(scaled <= 200) by (nonlinear_arith)
        requires
            0 < side <= longer,
            scaled == 1 || (2 * scaled - 1) * longer <= 400 * side,
    ;
    if side == longer {
        assert(scaled >= 200) by (nonlinear_arith)
            requires
                longer > 0,
                400 * longer <= (2 * scaled + 1) * longer || 400 * longer <= longer,
        ;
    }
}

/// Every image with 8 bits a channel and sides up to 32,768 can be summed.
pub proof fn lemma_pictures_can_be_summed(width: u32, height: u32, channels: u8)
    requires
        width <= 32768,
        height <= 32768,
        channels > 0,
    ensures
        sums_fit((width, height, channels, channels)),
{
    if width > 0 && height > 0 {
        let longer = longer_side(width, height);
        let nearest = (400 * longer + longer - 1) / (2 * longer as int);
        assert(nearest == 200) by (nonlinear_arith)
            requires
                longer > 0,
                nearest == (400 * longer + longer - 1) / (2 * longer as int),
        ;
        assert(least_side(longer, longer) == 200);
        assert(span(longer, longer) <= 165);
        let across = span(width as nat, longer);
        let down = span(height as nat, longer);
        assert(across * down <= 165 * 32768) by (nonlinear_arith)
            requires
                across <= 32768,
                down <= 32768,
                across <= 165 || down <= 165,
        ;
    }
}

/// Whether the pixels of an image can be summed does not change where the image is turned
/// on its side, and it does not rest on what is not known of an image without pixels.
pub proof fn lemma_turned_image_sums(width: u32, height: u32, bytes: u8, channels: u8)
    ensures
        sums_fit((width, height, bytes, channels)) == sums_fit((height, width, bytes, channels)),
        width == 0 || height == 0 ==> sums_fit((width, height, bytes, channels)),
{
    let longer = longer_side(width, height);
    assert(longer == longer_side(height, width));
    let across = span(width as nat, longer);
    let down = span(height as nat, longer);
    assert(across * down == down * across) by (nonlinear_arith);
}

/// The pixels that become one can be summed exactly where their sum, with each as bright as
/// it can be and half of their number added to round, fits in 32 bits.
pub proof fn lemma_sums_fit_in_32_bits(shape: Shape)
    requires
        shape.0 > 0,
        shape.1 > 0,
    ensures
        ({
            let block = block_size(shape.0, shape.1);
            let brightest: nat = if shape.2 == 2 * shape.3 {
                65535
            } else {
                255
            };
            sums_fit(shape) <==> block * brightest + block / 2 <= 0xffff_ffff
        }),
{
}

/// However a thumbnail keeps the shape of its image, a side of it is no shorter than the
/// least length. So no more pixels of that side become one than its span.
pub proof fn lemma_least_side(scaled: nat, side: nat, longer: nat)
    requires
        0 < side <= longer,
        is_scaled_side(scaled, side, longer),
    ensures
        scaled >= least_side(side, longer) >= 1,
        span(side, longer) <= side,
        span(side, longer) == side || span(side, longer) * scaled >= side,
{
    let nearest = (400 * side + longer - 1) / (2 * longer as int);
    assert(scaled >= nearest) by (nonlinear_arith)
        requires
            0 < side <= longer,
            scaled >= 1,
            400 * side <= (2 * scaled + 1) * longer || 400 * side <= longer,
            nearest == (400 * side + longer - 1) / (2 * longer as int),
    ;
    let n = least_side(side, longer);
    let most = (side + n - 1) as nat / n + 1 + side / 4194304;
    assert(((side + n - 1) as nat / n) * n >= side) by (nonlinear_arith)
        requires
            n >= 1,
            side > 0,
    ;
    assert(most * scaled >= side) by (nonlinear_arith)
        requires
            most >= (side + n - 1) as nat / n,
            ((side + n - 1) as nat / n) * n >= side,
            scaled >= n,
    ;
}

} // verus!
